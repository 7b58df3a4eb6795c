use beer::ast::Program;
use beer::error::CompileError;
use beer::lexer::tokenize;
use beer::lsp::{
    format_signature, format_type, hover_markdown, keyword_hover, language_server_command, place_error, span_range,
    word_at, Diag, ItemKind, Pos, Range, ServerState,
};
use beer::ast::Type;
use beer::parser::parse;
use beer::source::FileTable;
use beer::span::Span;

fn program(src: &str) -> Program {
    Program { funcs: parse(tokenize(src, 0).unwrap()).unwrap().funcs }
}

fn diag(line: u32, col: u32, msg: &str) -> Diag {
    Diag { range: span_range(Span::new(0, line, col)), message: msg.to_string() }
}

#[test]
fn word_under_cursor() {
    let text = "fn main() {\n    let value = 1\n}";
    assert_eq!(word_at(text, 1, 10).as_deref(), Some("value"));
    assert_eq!(word_at(text, 1, 8).as_deref(), Some("value"));
    assert_eq!(word_at(text, 0, 0).as_deref(), Some("fn"));
    assert_eq!(word_at(text, 0, 5).as_deref(), Some("main"));
}

#[test]
fn cursor_just_after_a_word_sees_it() {
    assert_eq!(word_at("foo bar", 0, 3).as_deref(), Some("foo"));
    assert_eq!(word_at("let x = 1", 0, 3).as_deref(), Some("let"));
    assert_eq!(word_at("f(x)", 0, 1).as_deref(), Some("f"));
}

#[test]
fn cursor_at_end_of_line_sees_last_word() {
    assert_eq!(word_at("let abc", 0, 7).as_deref(), Some("abc"));
}

#[test]
fn no_word_on_spaces_or_beyond() {
    let text = "let x = 1";
    assert_eq!(word_at(text, 0, 6), None);
    assert_eq!(word_at(text, 0, 10), None);
    assert_eq!(word_at(text, 5, 0), None);
    assert_eq!(word_at("", 0, 0), None);
    assert_eq!(word_at("a\n\nb", 1, 0), None);
}

#[test]
fn word_on_crlf_line() {
    assert_eq!(word_at("ab\r\ncd_1\r\n", 1, 2).as_deref(), Some("cd_1"));
}

#[test]
fn keyword_documentation() {
    assert_eq!(keyword_hover("fn"), Some("fn — declare a function"));
    assert_eq!(keyword_hover("true"), Some("bool literal"));
    assert_eq!(keyword_hover("false"), Some("bool literal"));
    assert_eq!(keyword_hover("str"), Some("str — null-terminated string (C-string)"));
    assert_eq!(keyword_hover("print"), Some("print(x) — built-in, prints an int / float / str / bool"));
    assert_eq!(keyword_hover("main"), None);
}

#[test]
fn type_names() {
    assert_eq!(format_type(Type::Int), "int");
    assert_eq!(format_type(Type::Void), "void");
}

#[test]
fn signature_text() {
    let p = program("fn add(a: int, b: int) -> int { return a + b }\nfn hello() {}\nfn f(s: str) -> bool { return true }");
    assert_eq!(format_signature(&p.funcs[0]), "fn add(a: int, b: int) -> int");
    assert_eq!(format_signature(&p.funcs[1]), "fn hello()");
    assert_eq!(format_signature(&p.funcs[2]), "fn f(s: str) -> bool");
}

#[test]
fn hover_markup() {
    assert_eq!(hover_markdown("fn hello()"), "```beer\nfn hello()\n```");
}

#[test]
fn hover_shows_keywords_then_functions() {
    let mut st = ServerState::new();
    let uri = "file:///w/main.beer".to_string();
    st.remember(uri.clone(), None, "fn add(a: int) -> int { return a }\nfn main() { add(1) }".to_string());
    st.set_signatures(&program("fn add(a: int) -> int { return a }\nfn main() { add(1) }"));
    assert_eq!(st.hover(&uri, 1, 13).as_deref(), Some("```beer\nfn add(a: int) -> int\n```"));
    assert_eq!(st.hover(&uri, 0, 1).as_deref(), Some("```beer\nfn — declare a function\n```"));
    assert_eq!(st.hover(&uri, 0, 11).as_deref(), Some("```beer\nint — 64-bit signed integer\n```"));
    assert_eq!(st.hover(&uri, 1, 17), None);
    assert_eq!(st.hover(&"file:///other".to_string(), 0, 0), None);
}

#[test]
fn completion_lists_keywords_types_and_functions() {
    let mut st = ServerState::new();
    st.set_signatures(&program("fn add(a: int, b: int) -> int { return a + b }\nfn main() {}"));
    let items = st.completion_items();
    assert_eq!(items.len(), 17);
    let labels: Vec<&str> = items.iter().take(15).map(|c| c.label.as_str()).collect();
    assert_eq!(
        labels,
        vec!["let", "fn", "if", "else", "while", "return", "true", "false", "as", "use", "print", "int", "float", "bool", "str"]
    );
    assert!(items[..11].iter().all(|c| c.kind == ItemKind::Keyword && c.detail.is_none()));
    assert!(items[11..15].iter().all(|c| c.kind == ItemKind::TypeName && c.detail.is_none()));
    let mut fns: Vec<(String, Option<String>)> =
        items[15..].iter().map(|c| (c.label.clone(), c.detail.clone())).collect();
    fns.sort();
    assert_eq!(
        fns,
        vec![
            ("add".to_string(), Some("fn add(a: int, b: int) -> int".to_string())),
            ("main".to_string(), Some("fn main()".to_string())),
        ]
    );
}

#[test]
fn later_function_signature_wins() {
    let mut st = ServerState::new();
    st.set_signatures(&program("fn f() {}\nfn f(a: int) {}"));
    let items = st.completion_items();
    assert_eq!(items.len(), 16);
    assert_eq!(items[15].detail.as_deref(), Some("fn f(a: int)"));
}

#[test]
fn remembered_document_is_found_by_its_file() {
    let mut st = ServerState::new();
    st.remember("file:///tmp/a.beer".to_string(), Some("/private/tmp/a.beer".to_string()), "x".to_string());
    assert_eq!(st.client_uri(&"/private/tmp/a.beer".to_string()).as_deref(), Some("file:///tmp/a.beer"));
    assert_eq!(st.doc_text(&"file:///tmp/a.beer".to_string()), "x");
    st.remember("file:///tmp/a.beer".to_string(), None, "y".to_string());
    assert_eq!(st.doc_text(&"file:///tmp/a.beer".to_string()), "y");
}

#[test]
fn forgotten_document_is_gone() {
    let mut st = ServerState::new();
    st.remember("file:///a".to_string(), Some("/a".to_string()), "1".to_string());
    st.remember("file:///b".to_string(), Some("/b".to_string()), "2".to_string());
    st.forget(&"file:///a".to_string());
    assert_eq!(st.client_uri(&"/a".to_string()), None);
    assert_eq!(st.client_uri(&"/b".to_string()).as_deref(), Some("file:///b"));
    assert_eq!(st.doc_text(&"file:///a".to_string()), "");
    assert_eq!(st.open_uris(), vec!["file:///b".to_string()]);
}

#[test]
fn error_position_becomes_a_zero_based_range() {
    assert_eq!(
        span_range(Span::new(0, 3, 5)),
        Range { start: Pos { line: 2, character: 4 }, end: Pos { line: 2, character: 5 } }
    );
    assert_eq!(
        span_range(Span::new(0, 0, 0)),
        Range { start: Pos { line: 0, character: 0 }, end: Pos { line: 0, character: 1 } }
    );
    assert_eq!(span_range(Span::new(0, 1, u32::MAX)).end.character, u32::MAX);
}

#[test]
fn errors_are_sent_to_their_document_and_stale_ones_cleared() {
    let mut st = ServerState::new();
    st.remember("file:///main".to_string(), None, "m".to_string());
    st.remember("file:///lib".to_string(), None, "l".to_string());
    let plan = st.publish_plan(Some(("file:///lib".to_string(), diag(2, 3, "boom"))));
    assert_eq!(plan.len(), 2);
    for (uri, ds) in &plan {
        if uri == "file:///lib" {
            assert_eq!(ds.len(), 1);
            assert_eq!(ds[0].message, "boom");
            assert_eq!(ds[0].range, Range { start: Pos { line: 1, character: 2 }, end: Pos { line: 1, character: 3 } });
        } else {
            assert_eq!(uri, "file:///main");
            assert!(ds.is_empty());
        }
    }
    st.forget(&"file:///lib".to_string());
    let plan = st.publish_plan(None);
    let mut uris: Vec<&str> = plan.iter().map(|(u, _)| u.as_str()).collect();
    uris.sort();
    assert_eq!(uris, vec!["file:///lib", "file:///main"]);
    assert!(plan.iter().all(|(_, ds)| ds.is_empty()));
    let plan = st.publish_plan(None);
    assert_eq!(plan.len(), 1);
    assert_eq!(plan[0].0, "file:///main");
}

#[test]
fn error_in_an_unopened_document_is_still_sent() {
    let mut st = ServerState::new();
    let plan = st.publish_plan(Some(("file:///x".to_string(), diag(1, 1, "e"))));
    assert_eq!(plan.len(), 1);
    assert_eq!(plan[0].0, "file:///x");
    assert_eq!(plan[0].1.len(), 1);
}

#[test]
fn unreported_document_is_not_cleared_again() {
    let mut st = ServerState::new();
    st.publish_plan(Some(("file:///x".to_string(), diag(1, 1, "e"))));
    st.unreport(&"file:///x".to_string());
    assert!(st.publish_plan(None).is_empty());
}

#[test]
fn diagnostic_location_uses_the_editor_address() {
    let mut st = ServerState::new();
    st.remember("file:///tmp/lib.beer".to_string(), Some("/private/tmp/lib.beer".to_string()), "".to_string());
    let mut ft = FileTable::new();
    ft.add("/private/tmp/main.beer".to_string(), "".to_string());
    ft.add("/private/tmp/lib.beer".to_string(), "".to_string());
    let err = CompileError::at(Span::new(1, 4, 2), "bad".to_string());
    let fallback = "file:///tmp/main.beer".to_string();
    let (uri, range) = st.diag_location(&err, Some(&ft), &fallback);
    assert_eq!(uri, "file:///tmp/lib.beer");
    assert_eq!(range, Range { start: Pos { line: 3, character: 1 }, end: Pos { line: 3, character: 2 } });
}

#[test]
fn diagnostic_location_falls_back_to_a_file_url() {
    let st = ServerState::new();
    let mut ft = FileTable::new();
    ft.add("/srv/code/main.beer".to_string(), "".to_string());
    let err = CompileError::at(Span::new(0, 1, 1), "bad".to_string());
    let (uri, range) = st.diag_location(&err, Some(&ft), &"file:///fallback".to_string());
    assert_eq!(uri, "file:///srv/code/main.beer");
    assert_eq!(range, Range { start: Pos { line: 0, character: 0 }, end: Pos { line: 0, character: 1 } });
}

#[test]
fn diagnostic_without_position_goes_to_the_focused_document() {
    let st = ServerState::new();
    let err = CompileError::new("linker failed".to_string());
    let (uri, range) = st.diag_location(&err, None, &"file:///focus".to_string());
    assert_eq!(uri, "file:///focus");
    assert_eq!(range, Range { start: Pos { line: 0, character: 0 }, end: Pos { line: 0, character: 0 } });
}

#[test]
fn editor_extension_command() {
    let (cmd, args) = language_server_command(Some("/usr/local/bin/beer".to_string())).unwrap();
    assert_eq!(cmd, "/usr/local/bin/beer");
    assert_eq!(args, vec!["lsp".to_string()]);
    assert_eq!(
        language_server_command(None).unwrap_err(),
        "`beer` not found on $PATH — install it from https://github.com/lassejlv/beer and try again"
    );
}

#[test]
fn signatures_survive_a_failed_load() {
    let mut st = ServerState::new();
    let p = program("fn add(a: int) -> int { return a }");
    st.record_compile(Some(&p), None);
    let plan = st.record_compile(None, Some(("file:///m".to_string(), diag(1, 1, "parse error"))));
    assert_eq!(plan.len(), 1);
    let items = st.completion_items();
    assert_eq!(items.len(), 16);
    assert_eq!(items[15].label, "add");
    assert_eq!(items[15].detail.as_deref(), Some("fn add(a: int) -> int"));
    st.record_compile(Some(&program("fn other() {}")), None);
    let items = st.completion_items();
    assert_eq!(items.len(), 16);
    assert_eq!(items[15].label, "other");
}

#[test]
fn relative_file_without_editor_address_goes_to_the_fallback() {
    let st = ServerState::new();
    let mut ft = FileTable::new();
    ft.add("rel/main.beer".to_string(), "".to_string());
    let err = CompileError::at(Span::new(0, 2, 2), "bad".to_string());
    let (uri, range) = st.diag_location(&err, Some(&ft), &"file:///focus".to_string());
    assert_eq!(uri, "file:///focus");
    assert_eq!(range, Range { start: Pos { line: 0, character: 0 }, end: Pos { line: 0, character: 0 } });
}

#[test]
fn placing_an_error() {
    let fallback = "file:///f".to_string();
    assert_eq!(
        place_error(Some(Span::new(0, 2, 3)), Some("file:///d".to_string()), &fallback),
        ("file:///d".to_string(), Range { start: Pos { line: 1, character: 2 }, end: Pos { line: 1, character: 3 } })
    );
    assert_eq!(
        place_error(Some(Span::new(0, 2, 3)), None, &fallback),
        ("file:///f".to_string(), Range { start: Pos { line: 0, character: 0 }, end: Pos { line: 0, character: 0 } })
    );
    assert_eq!(place_error(None, Some("file:///d".to_string()), &fallback).0, "file:///f");
}
