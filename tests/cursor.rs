use unnamed_language::parser::cursor::Cursor;

#[test]
fn offset() {
    let mut c = Cursor::new("one");
    assert_eq!(c.bytes_remaining(), 3);
    c.advance();
    assert_eq!(c.bytes_remaining(), 2);
    c.advance();
    assert_eq!(c.bytes_remaining(), 1);
    c.advance();
    assert_eq!(c.bytes_remaining(), 0);

    let mut c = Cursor::new("");
    assert_eq!(c.bytes_remaining(), 0);
    c.advance();
    assert_eq!(c.bytes_remaining(), 0);
}

#[test]
fn advance() {
    let mut c = Cursor::new("one");
    assert_eq!(c.advance(), 'o');
    assert_eq!(c.advance(), 'n');
    assert_eq!(c.advance(), 'e');
    assert_eq!(c.advance(), Cursor::EOF_CHAR);

    let mut c = Cursor::new("");
    assert_eq!(c.advance(), Cursor::EOF_CHAR);
}

#[test]
fn lookahead() {
    let mut c = Cursor::new("one");
    assert_eq!(c.lookahead(0), 'o');
    assert_eq!(c.advance(), 'o');

    let c = Cursor::new("");
    assert_eq!(c.lookahead(0), Cursor::EOF_CHAR);
}

#[test]
fn is_at_end() {
    let c = Cursor::new("");
    assert!(c.is_at_end());
}

#[test]
fn cursor_spans_count_bytes() {
    let mut c = Cursor::new("é+");
    assert_eq!(c.lookahead(1), '+');
    assert_eq!(c.advance(), 'é');
    assert_eq!(c.current_index(), 2);
    assert_eq!(c.bytes_remaining(), 1);
    let span = c.reset_span();
    assert_eq!((span.start(), span.end()), (0, 2));
    assert_eq!(c.start_index(), 2);
    c.advance();
    let span = c.span();
    assert_eq!((span.start(), span.end()), (2, 3));
    assert_eq!(span.slice(), "+");
    assert_eq!(c.reset_start_index(), 2);
    assert_eq!(c.start_index(), 3);
    assert!(c.is_at_end());
}
