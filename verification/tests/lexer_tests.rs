use beer::lexer::{tokenize, unexpected_char_error, Token};
use beer::span::Span;

fn kinds(src: &str) -> String {
    let toks = tokenize(src, 0).expect("lexes");
    let ts: Vec<&Token> = toks.iter().map(|(t, _)| t).collect();
    format!("{:?}", ts)
}

fn positions(src: &str) -> Vec<(u32, u32)> {
    tokenize(src, 0).expect("lexes").iter().map(|(_, s)| (s.line, s.col)).collect()
}

fn lex_error(src: &str) -> (u32, u32, String) {
    let e = tokenize(src, 0).expect_err("fails");
    let s = e.span.expect("has a position");
    (s.line, s.col, e.msg)
}

#[test]
fn let_statement_tokens_and_positions() {
    assert_eq!(kinds("let x = 10"), "[Let, Ident(\"x\"), Eq, Int(10)]");
    assert_eq!(positions("let x = 10"), vec![(1, 1), (1, 5), (1, 7), (1, 9)]);
}

#[test]
fn keywords_are_recognised() {
    assert_eq!(
        kinds("let fn if else while return true false as use print"),
        "[Let, Fn, If, Else, While, Return, True, False, As, Use, Ident(\"print\")]"
    );
}

#[test]
fn two_character_operators() {
    assert_eq!(
        kinds("-> == != <= >= && || ! < > = + - * /"),
        "[Arrow, EqEq, BangEq, LtEq, GtEq, AndAnd, OrOr, Bang, Lt, Gt, Eq, Plus, Minus, Star, Slash]"
    );
}

#[test]
fn punctuation() {
    assert_eq!(kinds("( ) { } , :"), "[LParen, RParen, LBrace, RBrace, Comma, Colon]");
}

#[test]
fn line_comment_is_skipped() {
    assert_eq!(kinds("1 // note\n2"), "[Int(1), Int(2)]");
    assert_eq!(positions("1 // note\n2"), vec![(1, 1), (2, 1)]);
}

#[test]
fn comment_at_end_without_newline() {
    assert_eq!(kinds("x // trailing"), "[Ident(\"x\")]");
}

#[test]
fn lone_slash_is_division() {
    assert_eq!(kinds("a / b"), "[Ident(\"a\"), Slash, Ident(\"b\")]");
}

#[test]
fn string_escapes_are_decoded() {
    let toks = tokenize("\"a\\n\\t\\\\\\\"\\0\"", 0).unwrap();
    assert_eq!(toks.len(), 1);
    match &toks[0].0 {
        Token::Str(s) => assert_eq!(s, "a\n\t\\\"\0"),
        other => panic!("not a string: {:?}", other),
    }
}

#[test]
fn string_may_span_lines() {
    let toks = tokenize("\"a\nb\" x", 0).unwrap();
    assert_eq!(format!("{:?}", toks[0].0), "Str(\"a\\nb\")");
    assert_eq!((toks[1].1.line, toks[1].1.col), (2, 4));
}

#[test]
fn unterminated_string() {
    assert_eq!(lex_error("x \"abc"), (1, 3, "unterminated string literal".to_string()));
}

#[test]
fn unterminated_string_after_backslash() {
    assert_eq!(lex_error("\"abc\\"), (1, 1, "unterminated string literal".to_string()));
}

#[test]
fn unknown_escape() {
    assert_eq!(lex_error("\"\\q\""), (1, 1, "unknown escape \\q".to_string()));
}

#[test]
fn single_ampersand() {
    assert_eq!(lex_error("a & b"), (1, 3, "unexpected '&' (did you mean '&&'?)".to_string()));
}

#[test]
fn single_pipe() {
    assert_eq!(lex_error("|"), (1, 1, "unexpected '|' (did you mean '||'?)".to_string()));
}

#[test]
fn unexpected_character_is_shown_with_debug_quotes() {
    assert_eq!(lex_error("x @"), (1, 3, "unexpected character: '@'".to_string()));
    assert_eq!(lex_error("'"), (1, 1, "unexpected character: '\\''".to_string()));
}

#[test]
fn unexpected_char_error_message() {
    let e = unexpected_char_error(Span::new(2, 3, 4), "'#'");
    assert_eq!(e.msg, "unexpected character: '#'");
    assert_eq!(e.span, Some(Span::new(2, 3, 4)));
}

#[test]
fn float_literal_keeps_its_text() {
    assert_eq!(kinds("3.14"), "[Float(\"3.14\")]");
    assert_eq!(kinds("0.5 + 10.25"), "[Float(\"0.5\"), Plus, Float(\"10.25\")]");
}

#[test]
fn dot_without_digit_is_not_a_float() {
    assert_eq!(lex_error("3."), (1, 2, "unexpected character: '.'".to_string()));
}

#[test]
fn largest_integer() {
    assert_eq!(kinds("9223372036854775807"), "[Int(9223372036854775807)]");
}

#[test]
fn integer_overflow() {
    assert_eq!(
        lex_error("9223372036854775808"),
        (1, 1, "integer literal overflow: 9223372036854775808".to_string())
    );
}

#[test]
fn identifiers_with_digits_and_underscores() {
    assert_eq!(kinds("_a1 b_2c"), "[Ident(\"_a1\"), Ident(\"b_2c\")]");
}

#[test]
fn number_followed_by_letters_splits() {
    assert_eq!(kinds("12ab"), "[Int(12), Ident(\"ab\")]");
}

#[test]
fn tabs_and_carriage_returns_advance_columns() {
    assert_eq!(positions("\ta\r\nb"), vec![(1, 2), (2, 1)]);
}

#[test]
fn file_id_is_carried_by_every_span() {
    let toks = tokenize("fn f() {}", 7).unwrap();
    assert_eq!(toks.len(), 6);
    assert!(toks.iter().all(|(_, s)| s.file == 7));
}

#[test]
fn empty_source_has_no_tokens() {
    assert!(tokenize("", 0).unwrap().is_empty());
    assert!(tokenize("  \n\t // only a comment\n", 0).unwrap().is_empty());
}

#[test]
fn non_ascii_identifier_start_is_rejected() {
    assert_eq!(lex_error("é"), (1, 1, "unexpected character: 'é'".to_string()));
}

#[test]
fn ordinary_sources_fit_their_positions() {
    assert!(beer::lexer::fits_positions(""));
    assert!(beer::lexer::fits_positions("fn main() {\n  print(1)\n}\n"));
}
