use unnamed_language::parser::scanner::{ScanError, Scanner};
use unnamed_language::parser::token::{Span, Token, TokenKind};

fn t(src: &str, start: usize, end: usize, kind: TokenKind) -> Token<'_> {
    Token::new(Span::new(src, start, end), kind)
}

#[test]
fn scanner_scan_eof() {
    let src = "";
    assert_eq!(Scanner::new(src).scan(), Ok(t(src, 0, 0, TokenKind::Eof)))
}

#[test]
fn scanner_scan_number() {
    let src = "256.log2()";
    let mut scanner = Scanner::new(src);

    assert_eq!(scanner.scan(), Ok(t(src, 0, 3, TokenKind::Number)));
    assert_eq!(scanner.scan(), Ok(t(src, 3, 4, TokenKind::Period)));
    assert_eq!(scanner.scan(), Ok(t(src, 4, 8, TokenKind::Identifier)));
    assert_eq!(scanner.scan(), Ok(t(src, 8, 9, TokenKind::LParen)));
    assert_eq!(scanner.scan(), Ok(t(src, 9, 10, TokenKind::RParen)));

    let src = "12.34";
    let mut scanner = Scanner::new(src);

    assert_eq!(scanner.scan(), Ok(t(src, 0, 5, TokenKind::Number)));
}

#[test]
fn scanner_scan_var_decl() {
    let src = "let x = 10;";
    let mut scanner = Scanner::new(src);

    assert_eq!(scanner.scan(), Ok(t(src, 0, 3, TokenKind::Let)));
    assert_eq!(scanner.scan(), Ok(t(src, 4, 5, TokenKind::Identifier)));
    assert_eq!(scanner.scan(), Ok(t(src, 6, 7, TokenKind::Equal)));
    assert_eq!(scanner.scan(), Ok(t(src, 8, 10, TokenKind::Number)));
    assert_eq!(scanner.scan(), Ok(t(src, 10, 11, TokenKind::Semicolon)));
    assert_eq!(scanner.scan(), Ok(t(src, 11, 11, TokenKind::Eof)));
}

#[test]
fn scanner_scan_fun_decl() {
    let src = "func add(x, y) { return x + y; }";
    let mut scanner = Scanner::new(src);

    assert_eq!(scanner.scan(), Ok(t(src, 0, 4, TokenKind::Func)));
    assert_eq!(scanner.scan(), Ok(t(src, 5, 8, TokenKind::Identifier)));
    assert_eq!(scanner.scan(), Ok(t(src, 8, 9, TokenKind::LParen)));
    assert_eq!(scanner.scan(), Ok(t(src, 9, 10, TokenKind::Identifier)));
    assert_eq!(scanner.scan(), Ok(t(src, 10, 11, TokenKind::Comma)));
    assert_eq!(scanner.scan(), Ok(t(src, 12, 13, TokenKind::Identifier)));
    assert_eq!(scanner.scan(), Ok(t(src, 13, 14, TokenKind::RParen)));
    assert_eq!(scanner.scan(), Ok(t(src, 15, 16, TokenKind::LBrace)));
    assert_eq!(scanner.scan(), Ok(t(src, 17, 23, TokenKind::Return)));
    assert_eq!(scanner.scan(), Ok(t(src, 24, 25, TokenKind::Identifier)));
    assert_eq!(scanner.scan(), Ok(t(src, 26, 27, TokenKind::Plus)));
    assert_eq!(scanner.scan(), Ok(t(src, 28, 29, TokenKind::Identifier)));
    assert_eq!(scanner.scan(), Ok(t(src, 29, 30, TokenKind::Semicolon)));
    assert_eq!(scanner.scan(), Ok(t(src, 31, 32, TokenKind::RBrace)));
}

#[test]
fn scan_whole_number_literals() {
    for src in ["0", "7", "12345", "3.25", "100.001"] {
        let mut scanner = Scanner::new(src);
        assert_eq!(scanner.scan(), Ok(t(src, 0, src.len(), TokenKind::Number)));
        assert_eq!(scanner.scan(), Ok(t(src, src.len(), src.len(), TokenKind::Eof)));
    }
}

#[test]
fn scan_trailing_period_is_left_alone() {
    let src = "1.";
    let mut scanner = Scanner::new(src);
    assert_eq!(scanner.scan(), Ok(t(src, 0, 1, TokenKind::Number)));
    assert_eq!(scanner.scan(), Ok(t(src, 1, 2, TokenKind::Period)));
}

#[test]
fn scan_eof_is_stable() {
    let src = "x  ";
    let mut scanner = Scanner::new(src);
    assert_eq!(scanner.scan(), Ok(t(src, 0, 1, TokenKind::Identifier)));
    for _ in 0..3 {
        assert_eq!(scanner.scan(), Ok(t(src, 3, 3, TokenKind::Eof)));
    }
}

#[test]
fn scan_two_character_operators() {
    let src = "== != <= >= ** += -= *= /= %= = < > * / % + - !=";
    let kinds = [
        TokenKind::EqualEqual,
        TokenKind::BangEqual,
        TokenKind::LessEqual,
        TokenKind::GreaterEqual,
        TokenKind::StarStar,
        TokenKind::PlusEqual,
        TokenKind::MinusEqual,
        TokenKind::StarEqual,
        TokenKind::SlashEqual,
        TokenKind::PercentEqual,
        TokenKind::Equal,
        TokenKind::Less,
        TokenKind::Greater,
        TokenKind::Star,
        TokenKind::Slash,
        TokenKind::Percent,
        TokenKind::Plus,
        TokenKind::Minus,
        TokenKind::BangEqual,
    ];
    let mut scanner = Scanner::new(src);
    for kind in kinds {
        assert_eq!(scanner.scan().unwrap().kind(), kind);
    }
    assert!(scanner.scan().unwrap().is_eof());
}

#[test]
fn scan_keywords_and_strings() {
    let src = "if else while for class this mut not and or \"hi there\" _a1";
    let kinds = [
        TokenKind::If,
        TokenKind::Else,
        TokenKind::While,
        TokenKind::For,
        TokenKind::Class,
        TokenKind::This,
        TokenKind::Mut,
        TokenKind::Not,
        TokenKind::And,
        TokenKind::Or,
        TokenKind::String,
        TokenKind::Identifier,
    ];
    let mut scanner = Scanner::new(src);
    for kind in kinds {
        assert_eq!(scanner.scan().unwrap().kind(), kind);
    }
    let src = "\"hi\"";
    assert_eq!(Scanner::new(src).scan(), Ok(t(src, 0, 4, TokenKind::String)));
}

#[test]
fn scan_unterminated_string() {
    let src = "\"abc";
    let expected = ScanError::new("expected closing quotes".to_string(), Span::new(src, 0, 4));
    assert_eq!(Scanner::new(src).scan(), Err(expected));
}

#[test]
fn scan_unexpected_character() {
    let src = "a @";
    let mut scanner = Scanner::new(src);
    assert_eq!(scanner.scan(), Ok(t(src, 0, 1, TokenKind::Identifier)));
    let expected = ScanError::new("unexpected character '@'".to_string(), Span::new(src, 2, 3));
    assert_eq!(scanner.scan(), Err(expected));
    let src = "é";
    let expected = ScanError::new("unexpected character 'é'".to_string(), Span::new(src, 0, 2));
    assert_eq!(Scanner::new(src).scan(), Err(expected));
    let src = "!";
    assert_eq!(Scanner::new(src).scan().unwrap_err().message, "unexpected character '!'");
}

#[test]
fn scan_nul_is_an_unexpected_character() {
    let src = "\0a";
    let mut scanner = Scanner::new(src);
    let expected = ScanError::new("unexpected character '\0'".to_string(), Span::new(src, 0, 1));
    assert_eq!(scanner.scan(), Err(expected));
    assert_eq!(scanner.scan(), Ok(t(src, 1, 2, TokenKind::Identifier)));
    assert_eq!(scanner.scan(), Ok(t(src, 2, 2, TokenKind::Eof)));
    assert_eq!(scanner.scan(), Ok(t(src, 2, 2, TokenKind::Eof)));

    let src = "\0";
    let mut scanner = Scanner::new(src);
    assert!(scanner.scan().is_err());
    assert_eq!(scanner.scan(), Ok(t(src, 1, 1, TokenKind::Eof)));
}

#[test]
fn scan_string_with_nul_inside() {
    let src = "\"a\0b\"";
    let mut scanner = Scanner::new(src);
    assert_eq!(scanner.scan(), Ok(t(src, 0, 5, TokenKind::String)));
    assert_eq!(scanner.scan(), Ok(t(src, 5, 5, TokenKind::Eof)));
}
