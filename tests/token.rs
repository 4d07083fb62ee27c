use unnamed_language::parser::token::{Span, Token, TokenKind};

#[test]
fn span() {
    let src = "let x = 10;\nx *= 2";

    // Span for 'let'.
    let span = Span::new(src, 0, 2);
    assert_eq!(span.line_number(), 1);
    assert_eq!(span.column_number(), 1);

    // Span for 'x' on line 1.
    let span = Span::new(src, 4, 4);
    assert_eq!(span.line_number(), 1);
    assert_eq!(span.column_number(), 5);

    // Span for 'x' on line 2.
    let span = Span::new(src, 12, 12);
    assert_eq!(span.line_number(), 2);
    assert_eq!(span.column_number(), 1);
}

#[test]
fn span_slice_and_offsets() {
    let src = "let x = 10;\nx *= 2";
    let span = Span::new(src, 8, 10);
    assert_eq!(span.slice(), "10");
    assert_eq!(span.start(), 8);
    assert_eq!(span.end(), 10);
    let span = Span::new(src, 14, 16);
    assert_eq!(span.slice(), "*=");
    assert_eq!(span.line_number(), 2);
    assert_eq!(span.column_number(), 3);
}

#[test]
fn span_columns_count_characters() {
    let src = "é = 1\nüx";
    let span = Span::new(src, 3, 4);
    assert_eq!(span.slice(), "=");
    assert_eq!(span.column_number(), 3);
    let span = Span::new(src, 9, 10);
    assert_eq!(span.slice(), "x");
    assert_eq!(span.line_number(), 2);
    assert_eq!(span.column_number(), 2);
}

#[test]
fn token_accessors() {
    let src = "nil";
    let token = Token::new(Span::new(src, 0, 3), TokenKind::Nil);
    assert_eq!(token.kind(), TokenKind::Nil);
    assert!(!token.is_eof());
    assert_eq!(token.slice(), "nil");
    assert_eq!(token.span(), Span::new(src, 0, 3));
    assert!(Token::new(Span::new(src, 3, 3), TokenKind::Eof).is_eof());
}

#[test]
fn keyword_table() {
    assert_eq!(TokenKind::keyword_kind_from_str("let"), Some(TokenKind::Let));
    assert_eq!(TokenKind::keyword_kind_from_str("func"), Some(TokenKind::Func));
    assert_eq!(TokenKind::keyword_kind_from_str("return"), Some(TokenKind::Return));
    assert_eq!(TokenKind::keyword_kind_from_str("nil"), Some(TokenKind::Nil));
    assert_eq!(TokenKind::keyword_kind_from_str("lets"), None);
    assert_eq!(TokenKind::keyword_kind_from_str(""), None);
    assert_eq!(TokenKind::keyword_kind_from_str("Let"), None);
}

#[test]
fn variable_length_kinds() {
    assert!(TokenKind::Identifier.is_variable_length());
    assert!(TokenKind::Number.is_variable_length());
    assert!(TokenKind::String.is_variable_length());
    assert!(!TokenKind::Let.is_variable_length());
    assert!(!TokenKind::Eof.is_variable_length());
    assert_eq!(TokenKind::StarStar.name(), "**");
    assert_eq!(TokenKind::Identifier.name(), "<identifier>");
}
