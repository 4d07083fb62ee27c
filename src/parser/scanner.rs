//! Lexical analysis: one token, or one lexical error, per call of `Scanner::scan`.
use vstd::prelude::*;

use super::cursor::{char_at, Cursor};
use super::token::{byte_len, keyword_of, Span, Token, TokenKind};

verus! {

/// ASCII whitespace: space, tab, line feed, form feed, carriage return.
pub open spec fn is_space(c: char) -> bool {
    c == ' ' || c == '\t' || c == '\n' || c == '\x0C' || c == '\r'
}

pub open spec fn is_digit(c: char) -> bool {
    '0' <= c <= '9'
}

/// A character that may begin an identifier: an ASCII letter or `_`.
pub open spec fn ident_start(c: char) -> bool {
    ('a' <= c <= 'z') || ('A' <= c <= 'Z') || c == '_'
}

/// A character that may continue an identifier: an ASCII letter or digit, or `_`.
pub open spec fn ident_continue(c: char) -> bool {
    ident_start(c) || is_digit(c)
}

/// The first index at or after `i` that is not whitespace.
pub open spec fn skip_space(s: Seq<char>, i: int) -> int
    decreases s.len() - i,
{
    if 0 <= i < s.len() && is_space(s[i]) {
        skip_space(s, i + 1)
    } else {
        i
    }
}

/// The end of the run of identifier characters that starts at `i`.
pub open spec fn ident_end(s: Seq<char>, i: int) -> int
    decreases s.len() - i,
{
    if 0 <= i < s.len() && ident_continue(s[i]) {
        ident_end(s, i + 1)
    } else {
        i
    }
}

/// The end of the run of decimal digits that starts at `i`.
pub open spec fn digits_end(s: Seq<char>, i: int) -> int
    decreases s.len() - i,
{
    if 0 <= i < s.len() && is_digit(s[i]) {
        digits_end(s, i + 1)
    } else {
        i
    }
}

/// The end of a number whose first digit lies just before `i`: the integral digits, then
/// a fraction only where a `.` is followed by a digit.
pub open spec fn number_end(s: Seq<char>, i: int) -> int {
    let j = digits_end(s, i);
    if char_at(s, j) == '.' && is_digit(char_at(s, j + 1)) {
        digits_end(s, j + 1)
    } else {
        j
    }
}

/// The index of the first `"` at or after `i`, or the end of the text.
pub open spec fn string_end(s: Seq<char>, i: int) -> int
    decreases s.len() - i,
{
    if 0 <= i < s.len() && s[i] != '"' {
        string_end(s, i + 1)
    } else {
        i
    }
}

/// Punctuation and operators: the kind that `c` starts when followed by `next`, and whether
/// `next` belongs to the token.
pub open spec fn punctuation(c: char, next: char) -> Option<(TokenKind, bool)> {
    if c == '{' {
        Some((TokenKind::LBrace, false))
    } else if c == '}' {
        Some((TokenKind::RBrace, false))
    } else if c == '(' {
        Some((TokenKind::LParen, false))
    } else if c == ')' {
        Some((TokenKind::RParen, false))
    } else if c == '[' {
        Some((TokenKind::LBrack, false))
    } else if c == ']' {
        Some((TokenKind::RBrack, false))
    } else if c == ';' {
        Some((TokenKind::Semicolon, false))
    } else if c == ',' {
        Some((TokenKind::Comma, false))
    } else if c == '.' {
        Some((TokenKind::Period, false))
    } else if c == '+' {
        if next == '=' {
            Some((TokenKind::PlusEqual, true))
        } else {
            Some((TokenKind::Plus, false))
        }
    } else if c == '-' {
        if next == '=' {
            Some((TokenKind::MinusEqual, true))
        } else {
            Some((TokenKind::Minus, false))
        }
    } else if c == '*' {
        if next == '*' {
            Some((TokenKind::StarStar, true))
        } else if next == '=' {
            Some((TokenKind::StarEqual, true))
        } else {
            Some((TokenKind::Star, false))
        }
    } else if c == '/' {
        if next == '=' {
            Some((TokenKind::SlashEqual, true))
        } else {
            Some((TokenKind::Slash, false))
        }
    } else if c == '%' {
        if next == '=' {
            Some((TokenKind::PercentEqual, true))
        } else {
            Some((TokenKind::Percent, false))
        }
    } else if c == '=' {
        if next == '=' {
            Some((TokenKind::EqualEqual, true))
        } else {
            Some((TokenKind::Equal, false))
        }
    } else if c == '!' && next == '=' {
        Some((TokenKind::BangEqual, true))
    } else if c == '<' {
        if next == '=' {
            Some((TokenKind::LessEqual, true))
        } else {
            Some((TokenKind::Less, false))
        }
    } else if c == '>' {
        if next == '=' {
            Some((TokenKind::GreaterEqual, true))
        } else {
            Some((TokenKind::Greater, false))
        }
    } else {
        None
    }
}

/// What a call of `scan` finds.
pub enum Lexeme {
    Token(TokenKind),
    UnexpectedChar(char),
    UnterminatedString,
}

/// One step of scanning `s` from character index `i`: what is found, and the character
/// indices at which it starts and ends.
pub open spec fn scan_step(s: Seq<char>, i: int) -> (Lexeme, int, int) {
    let b = skip_space(s, i);
    let c = char_at(s, b);
    let next = char_at(s, b + 1);
    if b >= s.len() {
        (Lexeme::Token(TokenKind::Eof), b, b)
    } else if ident_start(c) {
        let e = ident_end(s, b + 1);
        let kind = match keyword_of(s.subrange(b, e)) {
            Some(k) => k,
            None => TokenKind::Identifier,
        };
        (Lexeme::Token(kind), b, e)
    } else if is_digit(c) {
        (Lexeme::Token(TokenKind::Number), b, number_end(s, b + 1))
    } else if c == '"' {
        let e = string_end(s, b + 1);
        if char_at(s, e) == '"' {
            (Lexeme::Token(TokenKind::String), b, e + 1)
        } else {
            (Lexeme::UnterminatedString, b, e)
        }
    } else if punctuation(c, next) is Some {
        let (k, two) = punctuation(c, next)->0;
        (Lexeme::Token(k), b, if two {
            b + 2
        } else {
            b + 1
        })
    } else {
        (Lexeme::UnexpectedChar(c), b, b + 1)
    }
}

/// The message of a scan error for what `scan_step` found.
pub open spec fn scan_error_message(l: Lexeme) -> Seq<char> {
    match l {
        Lexeme::UnexpectedChar(c) => "unexpected character '"@ + seq![c] + "'"@,
        _ => "expected closing quotes"@,
    }
}

/// Relies on `String::push`: appends one character.
#[verifier::external_body]
pub(crate) fn push_char(s: &mut String, c: char)
    ensures
        final(s)@ == old(s)@.push(c),
{
    s.push(c);
}

fn is_ascii_whitespace(c: char) -> (r: bool)
    ensures
        r == is_space(c),
{
    c == ' ' || c == '\t' || c == '\n' || c == '\x0C' || c == '\r'
}

fn is_ascii_digit(c: char) -> (r: bool)
    ensures
        r == is_digit(c),
{
    '0' <= c && c <= '9'
}

pub fn is_identifier_start(c: char) -> (r: bool)
    ensures
        r == ident_start(c),
{
    ('a' <= c && c <= 'z') || ('A' <= c && c <= 'Z') || c == '_'
}

pub fn is_identifier_continue(c: char) -> (r: bool)
    ensures
        r == ident_continue(c),
{
    is_identifier_start(c) || is_ascii_digit(c)
}

fn punctuation_kind(c: char, next: char) -> (r: Option<(TokenKind, bool)>)
    ensures
        r == punctuation(c, next),
{
    if c == '{' {
        Some((TokenKind::LBrace, false))
    } else if c == '}' {
        Some((TokenKind::RBrace, false))
    } else if c == '(' {
        Some((TokenKind::LParen, false))
    } else if c == ')' {
        Some((TokenKind::RParen, false))
    } else if c == '[' {
        Some((TokenKind::LBrack, false))
    } else if c == ']' {
        Some((TokenKind::RBrack, false))
    } else if c == ';' {
        Some((TokenKind::Semicolon, false))
    } else if c == ',' {
        Some((TokenKind::Comma, false))
    } else if c == '.' {
        Some((TokenKind::Period, false))
    } else if c == '+' {
        if next == '=' {
            Some((TokenKind::PlusEqual, true))
        } else {
            Some((TokenKind::Plus, false))
        }
    } else if c == '-' {
        if next == '=' {
            Some((TokenKind::MinusEqual, true))
        } else {
            Some((TokenKind::Minus, false))
        }
    } else if c == '*' {
        if next == '*' {
            Some((TokenKind::StarStar, true))
        } else if next == '=' {
            Some((TokenKind::StarEqual, true))
        } else {
            Some((TokenKind::Star, false))
        }
    } else if c == '/' {
        if next == '=' {
            Some((TokenKind::SlashEqual, true))
        } else {
            Some((TokenKind::Slash, false))
        }
    } else if c == '%' {
        if next == '=' {
            Some((TokenKind::PercentEqual, true))
        } else {
            Some((TokenKind::Percent, false))
        }
    } else if c == '=' {
        if next == '=' {
            Some((TokenKind::EqualEqual, true))
        } else {
            Some((TokenKind::Equal, false))
        }
    } else if c == '!' && next == '=' {
        Some((TokenKind::BangEqual, true))
    } else if c == '<' {
        if next == '=' {
            Some((TokenKind::LessEqual, true))
        } else {
            Some((TokenKind::Less, false))
        }
    } else if c == '>' {
        if next == '=' {
            Some((TokenKind::GreaterEqual, true))
        } else {
            Some((TokenKind::Greater, false))
        }
    } else {
        None
    }
}

/// Turns a source text into tokens, one per call of `scan`.
#[derive(Debug)]
pub struct Scanner<'a> {
    cursor: Cursor<'a>,
}

/// Whether `t` is a token of kind `k` over the characters `a..e` of `s`.
pub open spec fn token_at(t: Token, s: Seq<char>, k: TokenKind, a: int, e: int) -> bool {
    &&& t.spec_kind() == k
    &&& t.spec_span().spec_source() == s
    &&& t.spec_span().spec_start() == byte_len(s.take(a))
    &&& t.spec_span().spec_end() == byte_len(s.take(e))
}

/// Whether `r` is what a call of `scan` returns at character index `i` of `s`.
pub open spec fn scan_result(r: Result<Token, ScanError>, s: Seq<char>, i: int) -> bool {
    let (l, a, e) = scan_step(s, i);
    match l {
        Lexeme::Token(k) => r is Ok && token_at(r->Ok_0, s, k, a, e),
        _ => r is Err && r->Err_0.message@ == scan_error_message(l)
            && r->Err_0.span.spec_source() == s
            && r->Err_0.span.spec_start() == byte_len(s.take(a))
            && r->Err_0.span.spec_end() == byte_len(s.take(e)),
    }
}

impl<'a> Scanner<'a> {
    pub closed spec fn wf(self) -> bool {
        self.cursor.wf()
    }

    /// The source text.
    pub closed spec fn text(self) -> Seq<char> {
        self.cursor.text()
    }

    /// How many characters have been consumed.
    pub closed spec fn pos(self) -> int {
        self.cursor.pos()
    }

    pub fn new(source: &'a str) -> (r: Self)
        ensures
            r.wf(),
            r.text() == source@,
            r.pos() == 0,
    {
        Self { cursor: Cursor::new(source) }
    }

    /// The position lies within the text.
    pub proof fn lemma_pos_bounds(self)
        requires
            self.wf(),
        ensures
            0 <= self.pos() <= self.text().len(),
    {
    }

    /// Scans the next token. At the end of the input every call returns an `Eof` token.
    pub fn scan(&mut self) -> (r: Result<Token<'a>, ScanError<'a>>)
        requires
            old(self).wf(),
        ensures
            final(self).wf(),
            final(self).text() == old(self).text(),
            final(self).pos() == scan_step(old(self).text(), old(self).pos()).2,
            scan_result(r, old(self).text(), old(self).pos()),
    {
        let ghost s = self.cursor.text();
        let ghost i0 = self.cursor.pos();
        while is_ascii_whitespace(self.cursor.lookahead(0))
            invariant
                self.cursor.wf(),
                self.cursor.text() == s,
                i0 <= self.cursor.pos() <= s.len(),
                skip_space(s, self.cursor.pos()) == skip_space(s, i0),
            decreases s.len() - self.cursor.pos(),
        {
            self.cursor.advance();
        }
        self.cursor.reset_start_index();
        if self.cursor.is_at_end() {
            return Ok(Token::new(self.cursor.reset_span(), TokenKind::Eof));
        }
        let c = self.cursor.advance();
        let kind = if is_identifier_start(c) {
            self.identifier()
        } else if is_ascii_digit(c) {
            self.number();
            TokenKind::Number
        } else if c == '"' {
            if !self.string() {
                let mut message = String::new();
                message.append("expected closing quotes");
                assert(message@ =~= scan_error_message(Lexeme::UnterminatedString));
                return Err(ScanError::new(message, self.cursor.reset_span()));
            }
            TokenKind::String
        } else {
            match punctuation_kind(c, self.cursor.lookahead(0)) {
                Some((kind, two)) => {
                    if two {
                        self.cursor.advance();
                    }
                    kind
                },
                None => {
                    let mut message = String::new();
                    message.append("unexpected character '");
                    push_char(&mut message, c);
                    message.append("'");
                    assert(message@ =~= scan_error_message(Lexeme::UnexpectedChar(c)));
                    return Err(ScanError::new(message, self.cursor.reset_span()));
                },
            }
        };
        Ok(Token::new(self.cursor.reset_span(), kind))
    }

    /// Consumes the rest of an identifier and resolves it against the keywords.
    fn identifier(&mut self) -> (r: TokenKind)
        requires
            old(self).wf(),
            old(self).cursor.start_pos() == old(self).pos() - 1,
            1 <= old(self).pos(),
        ensures
            final(self).wf(),
            final(self).text() == old(self).text(),
            final(self).cursor.start() == old(self).cursor.start(),
            final(self).pos() == ident_end(old(self).text(), old(self).pos()),
            r == match keyword_of(
                old(self).text().subrange(old(self).pos() - 1, final(self).pos()),
            ) {
                Some(k) => k,
                None => TokenKind::Identifier,
            },
    {
        let ghost s = self.cursor.text();
        let ghost i0 = self.cursor.pos();
        while is_identifier_continue(self.cursor.lookahead(0))
            invariant
                self.cursor.wf(),
                self.cursor.text() == s,
                self.cursor.start() == old(self).cursor.start(),
                self.cursor.start_pos() == old(self).cursor.start_pos(),
                i0 <= self.cursor.pos() <= s.len(),
                ident_end(s, self.cursor.pos()) == ident_end(s, i0),
            decreases s.len() - self.cursor.pos(),
        {
            self.cursor.advance();
        }
        let word = self.cursor.span_chars();
        match TokenKind::keyword_kind_from_chars(&word) {
            Some(k) => k,
            None => TokenKind::Identifier,
        }
    }

    /// Consumes the rest of a number: integral digits, then a fraction only where a `.` is
    /// followed by a digit.
    fn number(&mut self)
        requires
            old(self).wf(),
        ensures
            final(self).wf(),
            final(self).text() == old(self).text(),
            final(self).cursor.start() == old(self).cursor.start(),
            final(self).pos() == number_end(old(self).text(), old(self).pos()),
    {
        let ghost s = self.cursor.text();
        let ghost i0 = self.cursor.pos();
        while is_ascii_digit(self.cursor.lookahead(0))
            invariant
                self.cursor.wf(),
                self.cursor.text() == s,
                self.cursor.start() == old(self).cursor.start(),
                i0 <= self.cursor.pos() <= s.len(),
                digits_end(s, self.cursor.pos()) == digits_end(s, i0),
            decreases s.len() - self.cursor.pos(),
        {
            self.cursor.advance();
        }
        if self.cursor.lookahead(0) == '.' && is_ascii_digit(self.cursor.lookahead(1)) {
            self.cursor.advance();
            let ghost i1 = self.cursor.pos();
            while is_ascii_digit(self.cursor.lookahead(0))
                invariant
                    self.cursor.wf(),
                    self.cursor.text() == s,
                    self.cursor.start() == old(self).cursor.start(),
                    i1 <= self.cursor.pos() <= s.len(),
                    digits_end(s, self.cursor.pos()) == digits_end(s, i1),
                decreases s.len() - self.cursor.pos(),
            {
                self.cursor.advance();
            }
        }
    }

    /// Consumes a string literal after its opening quote; false when the input ends first.
    fn string(&mut self) -> (r: bool)
        requires
            old(self).wf(),
        ensures
            final(self).wf(),
            final(self).text() == old(self).text(),
            final(self).cursor.start() == old(self).cursor.start(),
            r == (char_at(old(self).text(), string_end(old(self).text(), old(self).pos()))
                == '"'),
            final(self).pos() == if r {
                string_end(old(self).text(), old(self).pos()) + 1
            } else {
                string_end(old(self).text(), old(self).pos())
            },
    {
        let ghost s = self.cursor.text();
        let ghost i0 = self.cursor.pos();
        while !self.cursor.is_at_end() && self.cursor.lookahead(0) != '"'
            invariant
                self.cursor.wf(),
                self.cursor.text() == s,
                self.cursor.start() == old(self).cursor.start(),
                i0 <= self.cursor.pos() <= s.len(),
                string_end(s, self.cursor.pos()) == string_end(s, i0),
            decreases s.len() - self.cursor.pos(),
        {
            self.cursor.advance();
        }
        if self.cursor.is_at_end() {
            false
        } else {
            self.cursor.advance();
            true
        }
    }
}

proof fn lemma_skip_space_bounds(s: Seq<char>, i: int)
    requires
        0 <= i <= s.len(),
    ensures
        i <= skip_space(s, i) <= s.len(),
        skip_space(s, i) < s.len() ==> !is_space(s[skip_space(s, i)]),
    decreases s.len() - i,
{
    if i < s.len() && is_space(s[i]) {
        lemma_skip_space_bounds(s, i + 1);
    }
}

proof fn lemma_ident_end_bounds(s: Seq<char>, i: int)
    requires
        0 <= i <= s.len(),
    ensures
        i <= ident_end(s, i) <= s.len(),
    decreases s.len() - i,
{
    if i < s.len() && ident_continue(s[i]) {
        lemma_ident_end_bounds(s, i + 1);
    }
}

proof fn lemma_digits_end_bounds(s: Seq<char>, i: int)
    requires
        0 <= i <= s.len(),
    ensures
        i <= digits_end(s, i) <= s.len(),
    decreases s.len() - i,
{
    if i < s.len() && is_digit(s[i]) {
        lemma_digits_end_bounds(s, i + 1);
    }
}

proof fn lemma_string_end_bounds(s: Seq<char>, i: int)
    requires
        0 <= i <= s.len(),
    ensures
        i <= string_end(s, i) <= s.len(),
    decreases s.len() - i,
{
    if i < s.len() && s[i] != '"' {
        lemma_string_end_bounds(s, i + 1);
    }
}

/// What a scan step finds lies within the text, after `i`; anything but `Eof` at the end
/// of the input moves past `i`.
pub proof fn lemma_scan_step_bounds(s: Seq<char>, i: int)
    requires
        0 <= i <= s.len(),
    ensures
        i <= scan_step(s, i).1 <= scan_step(s, i).2 <= s.len(),
        scan_step(s, i).0 != Lexeme::Token(TokenKind::Eof) ==> i < scan_step(s, i).2,
{
    let b = skip_space(s, i);
    lemma_skip_space_bounds(s, i);
    if b < s.len() {
        lemma_ident_end_bounds(s, b + 1);
        lemma_digits_end_bounds(s, b + 1);
        lemma_string_end_bounds(s, b + 1);
        let j = digits_end(s, b + 1);
        if j + 1 <= s.len() {
            lemma_digits_end_bounds(s, j + 1);
        }
    }
}

/// Text of the form `[0-9]+(\.[0-9]+)?`.
pub open spec fn is_number_literal(s: Seq<char>) -> bool {
    exists|k: int| number_split(s, k)
}

/// `s` is `k` digits, then either nothing or a `.` and one or more digits.
pub open spec fn number_split(s: Seq<char>, k: int) -> bool {
    &&& 0 < k <= s.len()
    &&& forall|j: int| 0 <= j < k ==> is_digit(#[trigger] s[j])
    &&& k == s.len() || (s[k] == '.' && k + 1 < s.len() && forall|j: int|
        k < j < s.len() ==> is_digit(#[trigger] s[j]))
}

proof fn lemma_digits_end(s: Seq<char>, i: int, k: int)
    requires
        0 <= i <= k <= s.len(),
        forall|j: int| i <= j < k ==> is_digit(#[trigger] s[j]),
        k == s.len() || !is_digit(s[k]),
    ensures
        digits_end(s, i) == k,
    decreases k - i,
{
    if i < k {
        lemma_digits_end(s, i + 1, k);
    }
}

/// At the end of the input, scanning finds an `Eof` token that starts and ends there, and
/// leaves the position where it was: every later call finds the same token.
pub proof fn lemma_eof_is_stable(s: Seq<char>)
    ensures
        scan_step(s, s.len() as int) == (Lexeme::Token(TokenKind::Eof), s.len() as int, s.len() as int),
{
}

/// `Eof` is found only once the input is exhausted: it starts and ends at the end of the
/// text, and every other character, NUL included, is a token or a lexical error.
pub proof fn lemma_eof_only_at_end(s: Seq<char>, i: int)
    requires
        0 <= i <= s.len(),
        scan_step(s, i).0 == Lexeme::Token(TokenKind::Eof),
    ensures
        scan_step(s, i).1 == s.len(),
        scan_step(s, i).2 == s.len(),
        forall|j: int| i <= j < s.len() ==> is_space(#[trigger] s[j]),
{
    lemma_scan_step_bounds(s, i);
    lemma_skip_space_all(s, i);
}

proof fn lemma_skip_space_all(s: Seq<char>, i: int)
    requires
        0 <= i <= s.len(),
    ensures
        forall|j: int| i <= j < skip_space(s, i) ==> is_space(#[trigger] s[j]),
    decreases s.len() - i,
{
    if i < s.len() && is_space(s[i]) {
        lemma_skip_space_all(s, i + 1);
    }
}

/// A numeric literal scans as one `Number` token that spans all of it, followed by `Eof`.
pub proof fn lemma_number_literal(s: Seq<char>)
    requires
        is_number_literal(s),
    ensures
        scan_step(s, 0) == (Lexeme::Token(TokenKind::Number), 0int, s.len() as int),
        scan_step(s, s.len() as int) == (Lexeme::Token(TokenKind::Eof), s.len() as int, s.len() as int),
{
    let k = choose|k: int| number_split(s, k);
    assert(is_digit(s[0]));
    assert(skip_space(s, 0) == 0);
    lemma_digits_end(s, 1, k);
    if k < s.len() {
        assert(is_digit(s[k + 1]));
        lemma_digits_end(s, k + 1, s.len() as int);
    }
}

/// A lexical error: what went wrong, and where.
#[derive(Debug, PartialEq, Eq)]
pub struct ScanError<'a> {
    pub message: String,
    pub span: Span<'a>,
}

impl<'a> ScanError<'a> {
    pub fn new(message: String, span: Span<'a>) -> (r: Self)
        ensures
            r.message == message,
            r.span == span,
    {
        Self { message, span }
    }
}

} // verus!
