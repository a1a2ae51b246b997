//! The lexer.

use emela::lexer::{lex, lex_with_comments, TokenKind};

fn kinds(source: &str) -> Vec<String> {
    let (tokens, errors) = lex("a.emel", source);
    assert!(errors.is_empty(), "{errors:?}");
    tokens.iter().map(|t| format!("{:?}", t.kind)).collect()
}

fn messages(source: &str) -> Vec<String> {
    let (_, errors) = lex("a.emel", source);
    errors.iter().map(|e| e.message().to_string()).collect()
}

#[test]
fn words_and_symbols_are_tokens() {
    assert_eq!(
        kinds("fn f() -> Int { 1 + x }"),
        vec![
            "Fn",
            "Ident(\"f\")",
            "LParen",
            "RParen",
            "Arrow",
            "Ident(\"Int\")",
            "LBrace",
            "Int(1)",
            "Plus",
            "Ident(\"x\")",
            "RBrace",
            "Eof",
        ]
    );
    assert_eq!(
        kinds("a::b >= c |> d"),
        vec![
            "Ident(\"a\")",
            "ColonColon",
            "Ident(\"b\")",
            "Ge",
            "Ident(\"c\")",
            "PipeGt",
            "Ident(\"d\")",
            "Eof",
        ]
    );
    assert_eq!(
        kinds("@test 1.5 \"a\\n\" 'x'"),
        vec![
            "At(\"test\")",
            "Float(\"1.5\")",
            "String(\"a\\n\")",
            "Char('x')",
            "Eof",
        ]
    );
}

#[test]
fn spans_are_byte_offsets() {
    let (tokens, _) = lex("a.emel", "\u{e9}x let");
    let last = tokens
        .iter()
        .find(|t| matches!(t.kind, TokenKind::Let))
        .expect("let");
    assert_eq!((last.span.start, last.span.end), (4, 7));
}

#[test]
fn comments_are_collected_without_changing_the_tokens() {
    let source = "a -- one\nb -- two\n";
    let (plain, _) = lex("a.emel", source);
    let (tokens, comments) = lex_with_comments("a.emel", source).unwrap();
    let shown = |s: &[emela::lexer::Token]| {
        s.iter()
            .map(|t| format!("{:?} {} {}", t.kind, t.span.start, t.span.end))
            .collect::<Vec<_>>()
    };
    assert_eq!(shown(&plain), shown(&tokens));
    let texts: Vec<&str> = comments
        .iter()
        .map(|c| &source[c.span.start..c.span.end])
        .collect();
    assert_eq!(texts, vec!["-- one", "-- two"]);
}

#[test]
fn lexing_goes_on_after_an_error() {
    assert_eq!(messages("a # b \"open").len(), 2);
    assert!(lex_with_comments("a.emel", "#").is_err());
    assert_eq!(messages("99999999999").len(), 1);
}

#[test]
fn tokens_and_comments_point_into_their_file() {
    let source = "fn f -- why\n";
    let (tokens, comments) = lex_with_comments("a.emel", source).unwrap();
    assert_eq!(comments.len(), 1);
    for span in tokens.iter().map(|t| &t.span).chain(comments.iter().map(|c| &c.span)) {
        assert_eq!(span.file.label, "a.emel");
        assert_eq!(span.file.source, source);
    }
}
