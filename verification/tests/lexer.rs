//! The lexer: layout tokens, brackets, numbers, lifetimes and strings.

use tinys::lexer::{Lexer, Tok};

fn kinds(src: &str) -> Vec<Tok> {
    Lexer::new(src, "test.sn")
        .tokenize()
        .unwrap()
        .into_iter()
        .map(|t| t.kind)
        .collect()
}

#[test]
fn emits_indent_and_dedent_for_blocks() {
    let toks = kinds("def f():\n    return 1\n");
    let indents = toks.iter().filter(|t| matches!(t, Tok::Indent)).count();
    let dedents = toks.iter().filter(|t| matches!(t, Tok::Dedent)).count();
    assert_eq!(indents, 1);
    assert_eq!(dedents, 1);
    assert!(matches!(toks.last(), Some(Tok::Eof)));
}

#[test]
fn blank_and_comment_lines_do_not_affect_indentation() {
    let toks = kinds("def f():\n\n    // a comment\n    return 1\n");
    let indents = toks.iter().filter(|t| matches!(t, Tok::Indent)).count();
    assert_eq!(indents, 1, "comments/blank lines must not open a block");
}

#[test]
fn newlines_are_suppressed_inside_brackets() {
    let toks = kinds("x = [\n    1,\n    2,\n]\n");
    // Only the trailing newline after `]` should survive.
    let newlines = toks.iter().filter(|t| matches!(t, Tok::Newline)).count();
    assert_eq!(newlines, 1);
}

#[test]
fn distinguishes_range_from_float() {
    assert_eq!(
        kinds("x = 0..10\n"),
        vec![
            Tok::Ident("x".into()),
            Tok::Assign,
            Tok::Int(0),
            Tok::DotDot,
            Tok::Int(10),
            Tok::Newline,
            Tok::Eof,
        ]
    );
    assert!(kinds("x = 3.14\n").contains(&Tok::Float("3.14".to_string())));
}

#[test]
fn lifetime_vs_field_access() {
    assert!(kinds("v: ref[.a] str\n").contains(&Tok::Lifetime("a".into())));
    // A dot after an identifier is field access, not a lifetime.
    assert!(kinds("x = user.name\n").contains(&Tok::Dot));
    assert!(!kinds("x = user.name\n")
        .iter()
        .any(|t| matches!(t, Tok::Lifetime(_))));
}

#[test]
fn raw_and_normal_strings() {
    assert!(kinds("x = \"hi\"\n").contains(&Tok::Str("hi".into())));
    assert!(kinds("x = r#\"a\"b\"#\n")
        .iter()
        .any(|t| matches!(t, Tok::RawStr(_))));
}

fn lex_error(src: &str) -> (String, usize, usize) {
    let e = Lexer::new(src, "err.sn").tokenize().unwrap_err();
    (e.message, e.span.line, e.span.col)
}

#[test]
fn an_unclosed_string_stops_at_the_line_break() {
    assert_eq!(lex_error("x = \"abc\n"), ("unterminated string literal".to_string(), 1, 9));
}

#[test]
fn a_dedent_must_land_on_an_open_block() {
    assert_eq!(
        lex_error("def f():\n    x = 1\n  y = 2\n"),
        ("inconsistent indentation (found 2 spaces)".to_string(), 3, 3)
    );
}

#[test]
fn stray_characters_are_reported_where_they_stand() {
    assert_eq!(lex_error("x = $\n"), ("unexpected character `$`".to_string(), 1, 5));
    assert_eq!(
        lex_error("x = !y\n"),
        ("unexpected `!` (use `not` for negation)".to_string(), 1, 6)
    );
}

#[test]
fn integers_must_fit_in_i64() {
    assert_eq!(
        lex_error("x = 99999999999999999999\n"),
        ("invalid integer literal `99999999999999999999`".to_string(), 1, 25)
    );
    let max = kinds("x = 9_223_372_036_854_775_807\n");
    assert!(max.contains(&Tok::Int(i64::MAX)));
}

#[test]
fn attributes_and_raw_strings_must_be_well_formed() {
    assert_eq!(
        lex_error("#x\n"),
        ("expected `[` after `#` in attribute".to_string(), 1, 2)
    );
    assert_eq!(lex_error("#[derive(Debug)\n"), ("unterminated attribute".to_string(), 2, 1));
    assert_eq!(lex_error("x = r#abc\n"), ("malformed raw string literal".to_string(), 1, 7));
    assert_eq!(lex_error("x = r\"abc\n"), ("unterminated raw string literal".to_string(), 2, 1));
}

#[test]
fn tokens_carry_their_start() {
    let toks = Lexer::new("def f():\n    return 1\n", "t.sn").tokenize().unwrap();
    let spans: Vec<(usize, usize)> = toks.iter().map(|t| (t.span.line, t.span.col)).collect();
    // def f ( ) : Newline Indent return 1 Newline Dedent Eof
    assert_eq!(
        spans,
        vec![(1, 1), (1, 5), (1, 6), (1, 7), (1, 8), (2, 1), (2, 5), (2, 5), (2, 12), (3, 1), (3, 1), (3, 1)]
    );
}

#[test]
fn nested_attributes_keep_their_inner_brackets() {
    assert!(kinds("#[cfg(all(a, b))]\ndef f() -> void:\n    pass\n")
        .contains(&Tok::Attribute("cfg(all(a, b))".to_string())));
    assert!(kinds("#![allow(x)]\n").contains(&Tok::Attribute("!allow(x)".to_string())));
}
