use gx::lexer::{Lexer, TokenKind};

fn tok(src: &str) -> Vec<TokenKind> {
    Lexer::new(src)
        .tokenize()
        .unwrap()
        .into_iter()
        .filter(|t| !matches!(t.kind, TokenKind::Newline | TokenKind::Eof))
        .map(|t| t.kind)
        .collect()
}

/// A number literal's value, read from the characters the lexer kept.
fn number_value(kind: &TokenKind) -> Option<f64> {
    match kind {
        TokenKind::NumberLit(text) => Some(text.parse().unwrap_or(0.0)),
        _ => None,
    }
}

#[test]
fn test_keywords() {
    let kinds = tok("helper brain plan execute remember communicate");
    assert!(matches!(kinds[0], TokenKind::Helper));
    assert!(matches!(kinds[1], TokenKind::Brain));
    assert!(matches!(kinds[2], TokenKind::Plan));
    assert!(matches!(kinds[3], TokenKind::Execute));
    assert!(matches!(kinds[4], TokenKind::Remember));
    assert!(matches!(kinds[5], TokenKind::Communicate));
}

#[test]
fn test_string_literal() {
    let kinds = tok("\"hello world\"");
    assert_eq!(kinds[0], TokenKind::StringLit("hello world".into()));
}

#[test]
fn test_number() {
    let kinds = tok("42");
    assert_eq!(number_value(&kinds[0]), Some(42.0));
}

#[test]
fn test_operators() {
    let kinds = tok("= == != += + - * / < > <= >=");
    assert!(matches!(kinds[0], TokenKind::Eq));
    assert!(matches!(kinds[1], TokenKind::EqEq));
    assert!(matches!(kinds[2], TokenKind::NotEq));
    assert!(matches!(kinds[3], TokenKind::PlusEq));
}

#[test]
fn test_booleans() {
    let kinds = tok("true false null");
    assert_eq!(kinds[0], TokenKind::BoolLit(true));
    assert_eq!(kinds[1], TokenKind::BoolLit(false));
    assert_eq!(kinds[2], TokenKind::Null);
}

#[test]
fn test_comment_skipped() {
    let kinds = tok("helper // this is a comment\nbrain");
    assert!(matches!(kinds[0], TokenKind::Helper));
    // newline may appear, brain must be somewhere
    assert!(kinds.iter().any(|k| matches!(k, TokenKind::Brain)));
}

#[test]
fn tokens_carry_their_line_and_column() {
    let toks = Lexer::new("x = 1\n  y").tokenize().unwrap();
    let positions: Vec<(usize, usize)> = toks.iter().map(|t| (t.line, t.col)).collect();
    assert_eq!(positions, vec![(1, 1), (1, 3), (1, 5), (1, 6), (2, 3), (2, 4)]);
    assert!(matches!(toks.last().unwrap().kind, TokenKind::Eof));
}

#[test]
fn re_run_is_one_keyword_but_re_alone_is_an_identifier() {
    assert_eq!(tok("re-run"), vec![TokenKind::ReRun]);
    assert_eq!(
        tok("re-x"),
        vec![TokenKind::Ident("re".into()), TokenKind::Minus, TokenKind::Ident("x".into())]
    );
}

#[test]
fn string_escapes_are_decoded() {
    assert_eq!(
        tok(r#""a\nb\t\"q\" \\ \z""#),
        vec![TokenKind::StringLit("a\nb\t\"q\" \\ \\z".into())]
    );
}

#[test]
fn number_literals_keep_their_digits_and_dots() {
    assert_eq!(tok("3.25"), vec![TokenKind::NumberLit("3.25".into())]);
    assert_eq!(number_value(&tok("1..")[0]), Some(0.0));
}

#[test]
fn compound_operators_and_punctuation() {
    assert_eq!(
        tok("a |> b ?? c -> d .. e -= f *= g /= h % i;"),
        vec![
            TokenKind::Ident("a".into()),
            TokenKind::Pipe,
            TokenKind::Ident("b".into()),
            TokenKind::QuestionQuestion,
            TokenKind::Ident("c".into()),
            TokenKind::Arrow,
            TokenKind::Ident("d".into()),
            TokenKind::DotDot,
            TokenKind::Ident("e".into()),
            TokenKind::MinusEq,
            TokenKind::Ident("f".into()),
            TokenKind::StarEq,
            TokenKind::Ident("g".into()),
            TokenKind::SlashEq,
            TokenKind::Ident("h".into()),
            TokenKind::Percent,
            TokenKind::Ident("i".into()),
        ]
    );
}

#[test]
fn lexing_errors_report_their_position() {
    assert_eq!(
        Lexer::new("x = \"abc").tokenize().unwrap_err(),
        "Unterminated string at line 1"
    );
    assert_eq!(
        Lexer::new("\n\"abc\\").tokenize().unwrap_err(),
        "Unterminated escape at line 2"
    );
    assert_eq!(
        Lexer::new("a ! b").tokenize().unwrap_err(),
        "Unexpected '!' at line 1, col 3"
    );
    assert_eq!(
        Lexer::new("a | b").tokenize().unwrap_err(),
        "Unexpected '|' at line 1, col 3 (did you mean '|>'?)"
    );
    assert_eq!(
        Lexer::new("a ? b").tokenize().unwrap_err(),
        "Unexpected '?' at line 1, col 3 (did you mean '??'?)"
    );
    assert_eq!(
        Lexer::new("\n\n  @").tokenize().unwrap_err(),
        "Unexpected character '@' at line 3, col 3"
    );
}

#[test]
fn empty_source_is_just_eof() {
    let toks = Lexer::new("   // only a comment").tokenize().unwrap();
    assert_eq!(toks.len(), 1);
    assert!(matches!(toks[0].kind, TokenKind::Eof));
    assert_eq!((toks[0].line, toks[0].col), (1, 21));
}

#[test]
fn keywords_map_to_their_tokens_and_others_to_identifiers() {
    assert_eq!(
        tok("can_do function import serve helpers"),
        vec![
            TokenKind::CanDo,
            TokenKind::Function,
            TokenKind::Import,
            TokenKind::Serve,
            TokenKind::Ident("helpers".into()),
        ]
    );
}

#[test]
fn identifiers_may_hold_digits_and_underscores() {
    assert_eq!(
        tok("abc123 _x_9 ünïcode"),
        vec![
            TokenKind::Ident("abc123".into()),
            TokenKind::Ident("_x_9".into()),
            TokenKind::Ident("ünïcode".into()),
        ]
    );
}
