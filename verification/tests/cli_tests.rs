use beer::cli::{default_output, error_report, output_name};
use beer::error::CompileError;
use beer::span::Span;

#[test]
fn output_is_the_input_without_its_extension() {
    assert_eq!(default_output("examples/hello.beer"), "examples/hello");
    assert_eq!(default_output("prog"), "prog");
    assert_eq!(default_output("/tmp/archive.tar.beer"), "/tmp/archive.tar");
    assert_eq!(default_output(".hidden"), ".hidden");
    assert_eq!(default_output("dir.d/x."), "dir.d/x");
    assert_eq!(default_output("../up.beer"), "../up");
}

#[test]
fn output_without_a_file_name() {
    assert_eq!(default_output(".."), "a.out");
    assert_eq!(default_output("/"), "a.out");
    assert_eq!(default_output(""), "a.out");
}

#[test]
fn output_name_from_the_stripped_path() {
    assert_eq!(output_name(true, "x/y".to_string()), "x/y");
    assert_eq!(output_name(false, "..".to_string()), "a.out");
}

#[test]
fn report_without_position() {
    let e = CompileError::new("linker exited with 1".to_string());
    assert_eq!(error_report("a.beer", "", &e, false), "error: linker exited with 1\n");
}

#[test]
fn report_with_excerpt_and_caret() {
    let src = "fn main() {\n    let x = 1 + true\n}\n";
    let e = CompileError::at(Span::new(0, 2, 13), "bad operands".to_string());
    assert_eq!(
        error_report("t.beer", src, &e, false),
        "error: bad operands\n --> t.beer:2:13\n   |\n  2 |     let x = 1 + true\n   |             ^\n"
    );
}

#[test]
fn report_with_wide_line_number() {
    let mut src = String::new();
    for i in 0..12 {
        src.push_str(&format!("line{}\n", i + 1));
    }
    let e = CompileError::at(Span::new(0, 12, 1), "here".to_string());
    assert_eq!(
        error_report("f", &src, &e, false),
        "error: here\n --> f:12:1\n    |\n  12 | line12\n    | ^\n"
    );
}

#[test]
fn report_for_a_line_past_the_end() {
    let e = CompileError::at(Span::new(0, 9, 4), "eof".to_string());
    assert_eq!(error_report("f", "one line", &e, false), "error: eof\n --> f:9:4\n");
}

#[test]
fn report_with_column_zero_puts_caret_first() {
    let e = CompileError::at(Span::new(0, 1, 0), "m".to_string());
    assert_eq!(error_report("f", "abc", &e, false), "error: m\n --> f:1:0\n   |\n  1 | abc\n   | ^\n");
}

#[test]
fn coloured_report() {
    let e = CompileError::at(Span::new(0, 1, 2), "oops".to_string());
    assert_eq!(
        error_report("f", "ab\r\n", &e, true),
        "\x1b[31;1merror\x1b[0m\x1b[1m: oops\x1b[0m\n \x1b[36;1m-->\x1b[0m f:1:2\n   \x1b[36;1m|\x1b[0m\n  \x1b[36;1m1 |\x1b[0m ab\n   \x1b[36;1m|\x1b[0m  \x1b[31;1m^\x1b[0m\n"
    );
}

#[test]
fn error_display_text() {
    assert_eq!(CompileError::new("boom".to_string()).render(), "error: boom");
    assert_eq!(CompileError::at(Span::new(3, 7, 12), "bad".to_string()).render(), "7:12: error: bad");
}

#[test]
fn error_from_string() {
    let e: CompileError = String::from("plain").into();
    assert_eq!(e.span, None);
    assert_eq!(e.msg, "plain");
}

#[test]
fn error_copy_keeps_everything() {
    let e = CompileError::at(Span::new(1, 2, 3), "m".to_string());
    let d = e.duplicate();
    assert_eq!(d.span, e.span);
    assert_eq!(d.msg, e.msg);
}

#[test]
fn error_from_str() {
    let e: CompileError = "slice".into();
    assert_eq!(e.span, None);
    assert_eq!(e.msg, "slice");
}
