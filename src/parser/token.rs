//! Token kinds, tokens and spans, with the UTF-8 byte arithmetic that spans rest on.
use vstd::prelude::*;
use vstd::utf8::*;

verus! {

/// The closed set of token categories produced by the scanner.
#[derive(Debug, Clone, Copy, PartialEq, Eq, Structural)]
pub enum TokenKind {
    LParen,
    RParen,
    LBrack,
    RBrack,
    LBrace,
    RBrace,
    Period,
    Semicolon,
    Comma,
    Identifier,
    Let,
    Mut,
    Func,
    Class,
    Not,
    Or,
    And,
    For,
    While,
    If,
    Else,
    Return,
    This,
    True,
    False,
    Nil,
    String,
    Number,
    StarStar,
    Star,
    Slash,
    Percent,
    Plus,
    Minus,
    Equal,
    PlusEqual,
    MinusEqual,
    StarEqual,
    SlashEqual,
    PercentEqual,
    EqualEqual,
    BangEqual,
    Less,
    LessEqual,
    GreaterEqual,
    Greater,
    Eof,
}

/// The keyword that `s` spells, if any.
pub open spec fn keyword_of(s: Seq<char>) -> Option<TokenKind> {
    if s == "let"@ {
        Some(TokenKind::Let)
    } else if s == "mut"@ {
        Some(TokenKind::Mut)
    } else if s == "func"@ {
        Some(TokenKind::Func)
    } else if s == "class"@ {
        Some(TokenKind::Class)
    } else if s == "not"@ {
        Some(TokenKind::Not)
    } else if s == "or"@ {
        Some(TokenKind::Or)
    } else if s == "and"@ {
        Some(TokenKind::And)
    } else if s == "for"@ {
        Some(TokenKind::For)
    } else if s == "while"@ {
        Some(TokenKind::While)
    } else if s == "if"@ {
        Some(TokenKind::If)
    } else if s == "else"@ {
        Some(TokenKind::Else)
    } else if s == "return"@ {
        Some(TokenKind::Return)
    } else if s == "this"@ {
        Some(TokenKind::This)
    } else if s == "true"@ {
        Some(TokenKind::True)
    } else if s == "false"@ {
        Some(TokenKind::False)
    } else if s == "nil"@ {
        Some(TokenKind::Nil)
    } else {
        None
    }
}

/// The human-readable name of a token kind: its fixed text, or a placeholder in angle
/// brackets for the kinds whose text varies.
pub open spec fn kind_name(k: TokenKind) -> Seq<char> {
    match k {
            TokenKind::LParen => "("@,
            TokenKind::RParen => ")"@,
            TokenKind::LBrack => "["@,
            TokenKind::RBrack => "]"@,
            TokenKind::LBrace => "{"@,
            TokenKind::RBrace => "}"@,
            TokenKind::Period => "."@,
            TokenKind::Semicolon => ";"@,
            TokenKind::Comma => ","@,
            TokenKind::Identifier => "<identifier>"@,
            TokenKind::Let => "let"@,
            TokenKind::Mut => "mut"@,
            TokenKind::Func => "func"@,
            TokenKind::Class => "class"@,
            TokenKind::Not => "not"@,
            TokenKind::Or => "or"@,
            TokenKind::And => "and"@,
            TokenKind::For => "for"@,
            TokenKind::While => "while"@,
            TokenKind::If => "if"@,
            TokenKind::Else => "else"@,
            TokenKind::Return => "return"@,
            TokenKind::This => "this"@,
            TokenKind::True => "true"@,
            TokenKind::False => "false"@,
            TokenKind::Nil => "nil"@,
            TokenKind::String => "<string>"@,
            TokenKind::Number => "<number>"@,
            TokenKind::StarStar => "**"@,
            TokenKind::Star => "*"@,
            TokenKind::Slash => "/"@,
            TokenKind::Percent => "%"@,
            TokenKind::Plus => "+"@,
            TokenKind::Minus => "-"@,
            TokenKind::Equal => "="@,
            TokenKind::PlusEqual => "+="@,
            TokenKind::MinusEqual => "-="@,
            TokenKind::StarEqual => "*="@,
            TokenKind::SlashEqual => "/="@,
            TokenKind::PercentEqual => "%="@,
            TokenKind::EqualEqual => "=="@,
            TokenKind::BangEqual => "!="@,
            TokenKind::Less => "<"@,
            TokenKind::LessEqual => "<="@,
            TokenKind::GreaterEqual => ">="@,
            TokenKind::Greater => ">"@,
            TokenKind::Eof => "<eof>"@,
    }
}

/// Whether the text of a token of kind `k` varies from one token to another.
pub open spec fn variable_length(k: TokenKind) -> bool {
    k == TokenKind::Identifier || k == TokenKind::String || k == TokenKind::Number
}

/// Whether `s` holds exactly the characters of `w`.
fn text_is(s: &Vec<char>, w: &str) -> (r: bool)
    ensures
        r == (s@ == w@),
{
    let n = s.len();
    if n != w.unicode_len() {
        return false;
    }
    let mut i: usize = 0;
    while i < n
        invariant
            n == s@.len(),
            n == w@.len(),
            i <= n,
            forall|j: int| 0 <= j < i ==> s@[j] == w@[j],
        decreases n - i,
    {
        if s[i] != w.get_char(i) {
            return false;
        }
        i += 1;
    }
    assert(s@ =~= w@);
    true
}

impl TokenKind {
    /// Resolves a word against the keyword table.
    pub fn keyword_kind_from_str(s: &str) -> (r: Option<TokenKind>)
        ensures
            r == keyword_of(s@),
    {
        Self::keyword_kind_from_chars(&chars_of(s))
    }

    /// Resolves a word, given as characters, against the keyword table.
    pub fn keyword_kind_from_chars(s: &Vec<char>) -> (r: Option<TokenKind>)
        ensures
            r == keyword_of(s@),
    {
        if text_is(s, "let") {
            Some(TokenKind::Let)
    } else if text_is(s, "mut") {
            Some(TokenKind::Mut)
    } else if text_is(s, "func") {
            Some(TokenKind::Func)
    } else if text_is(s, "class") {
            Some(TokenKind::Class)
    } else if text_is(s, "not") {
            Some(TokenKind::Not)
    } else if text_is(s, "or") {
            Some(TokenKind::Or)
    } else if text_is(s, "and") {
            Some(TokenKind::And)
    } else if text_is(s, "for") {
            Some(TokenKind::For)
    } else if text_is(s, "while") {
            Some(TokenKind::While)
    } else if text_is(s, "if") {
            Some(TokenKind::If)
    } else if text_is(s, "else") {
            Some(TokenKind::Else)
    } else if text_is(s, "return") {
            Some(TokenKind::Return)
    } else if text_is(s, "this") {
            Some(TokenKind::This)
    } else if text_is(s, "true") {
            Some(TokenKind::True)
    } else if text_is(s, "false") {
            Some(TokenKind::False)
    } else if text_is(s, "nil") {
            Some(TokenKind::Nil)
        } else {
            None
        }
    }

    /// Identifiers, strings and numbers: the kinds whose text is not fixed.
    pub fn is_variable_length(self) -> (r: bool)
        ensures
            r == variable_length(self),
    {
        matches!(self, TokenKind::Identifier | TokenKind::String | TokenKind::Number)
    }

    /// The human-readable name used in diagnostics.
    pub fn name(self) -> (r: &'static str)
        ensures
            r@ == kind_name(self),
    {
        match self {
            TokenKind::LParen => "(",
            TokenKind::RParen => ")",
            TokenKind::LBrack => "[",
            TokenKind::RBrack => "]",
            TokenKind::LBrace => "{",
            TokenKind::RBrace => "}",
            TokenKind::Period => ".",
            TokenKind::Semicolon => ";",
            TokenKind::Comma => ",",
            TokenKind::Identifier => "<identifier>",
            TokenKind::Let => "let",
            TokenKind::Mut => "mut",
            TokenKind::Func => "func",
            TokenKind::Class => "class",
            TokenKind::Not => "not",
            TokenKind::Or => "or",
            TokenKind::And => "and",
            TokenKind::For => "for",
            TokenKind::While => "while",
            TokenKind::If => "if",
            TokenKind::Else => "else",
            TokenKind::Return => "return",
            TokenKind::This => "this",
            TokenKind::True => "true",
            TokenKind::False => "false",
            TokenKind::Nil => "nil",
            TokenKind::String => "<string>",
            TokenKind::Number => "<number>",
            TokenKind::StarStar => "**",
            TokenKind::Star => "*",
            TokenKind::Slash => "/",
            TokenKind::Percent => "%",
            TokenKind::Plus => "+",
            TokenKind::Minus => "-",
            TokenKind::Equal => "=",
            TokenKind::PlusEqual => "+=",
            TokenKind::MinusEqual => "-=",
            TokenKind::StarEqual => "*=",
            TokenKind::SlashEqual => "/=",
            TokenKind::PercentEqual => "%=",
            TokenKind::EqualEqual => "==",
            TokenKind::BangEqual => "!=",
            TokenKind::Less => "<",
            TokenKind::LessEqual => "<=",
            TokenKind::GreaterEqual => ">=",
            TokenKind::Greater => ">",
            TokenKind::Eof => "<eof>",
        }
    }
}

} // verus!

verus! {

/// The number of bytes that `c` takes in UTF-8.
pub open spec fn utf8_width(c: char) -> int {
    encode_scalar(c as u32).len() as int
}

/// The number of bytes that `s` takes in UTF-8.
pub open spec fn byte_len(s: Seq<char>) -> int {
    encode_utf8(s).len() as int
}

/// The number of leading characters of `s` whose encoding ends within the first `b` bytes.
pub open spec fn char_index(s: Seq<char>, b: int) -> int
    decreases s.len(),
{
    if s.len() == 0 || b < utf8_width(s[0]) {
        0
    } else {
        1 + char_index(s.drop_first(), b - utf8_width(s[0]))
    }
}

/// How many times `c` occurs in `s`.
pub open spec fn count_char(s: Seq<char>, c: char) -> int
    decreases s.len(),
{
    if s.len() == 0 {
        0
    } else {
        count_char(s.drop_last(), c) + if s.last() == c {
            1int
        } else {
            0
        }
    }
}

/// The number of characters of `s` after its last newline (all of them if it has none).
pub open spec fn last_line_len(s: Seq<char>) -> int
    decreases s.len(),
{
    if s.len() == 0 {
        0
    } else if s.last() == '\n' {
        0
    } else {
        last_line_len(s.drop_last()) + 1
    }
}

/// The width of a character's UTF-8 encoding, computed from its scalar value.
pub fn char_width(c: char) -> (r: usize)
    ensures
        r == utf8_width(c),
        1 <= r <= 4,
{
    proof {
        char_is_scalar(c);
    }
    let v = c as u32;
    if v <= 0x7F {
        1
    } else if v <= 0x7FF {
        2
    } else if v <= 0xFFFF {
        3
    } else {
        4
    }
}

/// Encoding a concatenation encodes each part in turn.
pub proof fn lemma_encode_concat(a: Seq<char>, b: Seq<char>)
    ensures
        encode_utf8(a + b) == encode_utf8(a) + encode_utf8(b),
    decreases a.len(),
{
    if a.len() == 0 {
        assert(a + b =~= b);
        assert(encode_utf8(a) + encode_utf8(b) =~= encode_utf8(b));
    } else {
        assert((a + b).drop_first() =~= a.drop_first() + b);
        lemma_encode_concat(a.drop_first(), b);
        assert(encode_utf8(a + b) =~= encode_utf8(a) + encode_utf8(b));
    }
}

/// One more character adds its width to the byte length.
pub proof fn lemma_byte_len_push(s: Seq<char>, i: int)
    requires
        0 <= i < s.len(),
    ensures
        byte_len(s.take(i + 1)) == byte_len(s.take(i)) + utf8_width(s[i]),
{
    assert(s.take(i + 1) =~= s.take(i) + seq![s[i]]);
    lemma_encode_concat(s.take(i), seq![s[i]]);
    let t = seq![s[i]];
    assert(t.drop_first() =~= Seq::<char>::empty());
    assert(encode_utf8(t.drop_first()) =~= Seq::<u8>::empty());
    assert(encode_utf8(t) =~= encode_scalar(t[0] as u32) + encode_utf8(t.drop_first()));
}

/// A prefix never takes more bytes than the whole.
pub proof fn lemma_byte_len_prefix(s: Seq<char>, i: int)
    requires
        0 <= i <= s.len(),
    ensures
        0 <= byte_len(s.take(i)) <= byte_len(s),
        i <= byte_len(s.take(i)),
{
    assert(s =~= s.take(i) + s.skip(i));
    lemma_encode_concat(s.take(i), s.skip(i));
    lemma_len_le_byte_len(s.take(i));
}

/// Every character takes at least one byte.
pub proof fn lemma_len_le_byte_len(s: Seq<char>)
    ensures
        s.len() <= byte_len(s),
    decreases s.len(),
{
    if s.len() > 0 {
        lemma_len_le_byte_len(s.drop_first());
    }
}

/// The characters of `s`, in order.
pub fn chars_of(s: &str) -> (r: Vec<char>)
    ensures
        r@ == s@,
{
    let mut r: Vec<char> = Vec::new();
    for c in it: s.chars()
        invariant
            it.seq() == s@,
            r@ == it.seq().take(it.index() as int),
    {
        r.push(c);
        assert(r@ =~= it.seq().take(it.index() as int + 1));
    }
    assert(r@ =~= s@);
    r
}

/// A token: its kind and where it stands in the source.
#[derive(Debug, Clone, Copy, PartialEq, Eq)]
pub struct Token<'a> {
    span: Span<'a>,
    kind: TokenKind,
}

impl<'a> Token<'a> {
    pub closed spec fn spec_span(self) -> Span<'a> {
        self.span
    }

    pub closed spec fn spec_kind(self) -> TokenKind {
        self.kind
    }

    pub fn new(span: Span<'a>, kind: TokenKind) -> (r: Self)
        ensures
            r.spec_span() == span,
            r.spec_kind() == kind,
    {
        Self { span, kind }
    }

    pub fn span(self) -> (r: Span<'a>)
        ensures
            r == self.spec_span(),
    {
        self.span
    }

    pub fn kind(&self) -> (r: TokenKind)
        ensures
            r == self.spec_kind(),
    {
        self.kind
    }

    pub fn is_eof(&self) -> (r: bool)
        ensures
            r == (self.spec_kind() == TokenKind::Eof),
    {
        self.kind == TokenKind::Eof
    }

    /// The text of the token.
    pub fn slice(self) -> (r: &'a str)
        requires
            self.spec_span().wf(),
        ensures
            r@ == self.spec_span().text(),
    {
        self.span.slice()
    }
}

/// A stretch of the source text, from byte offset `start` up to, not including, `end`.
#[derive(Debug, Clone, Copy, PartialEq, Eq)]
pub struct Span<'a> {
    source: &'a str,
    start: usize,
    end: usize,
}

impl<'a> Span<'a> {
    pub closed spec fn spec_source(self) -> Seq<char> {
        self.source@
    }

    pub closed spec fn spec_start(self) -> int {
        self.start as int
    }

    pub closed spec fn spec_end(self) -> int {
        self.end as int
    }

    /// The offsets are in order and fall between characters.
    pub open spec fn wf(self) -> bool {
        &&& self.spec_start() <= self.spec_end()
        &&& on_char(self.spec_source(), self.spec_start())
        &&& on_char(self.spec_source(), self.spec_end())
    }

    /// The characters that lie before the span.
    pub open spec fn before(self) -> Seq<char> {
        self.spec_source().take(char_index(self.spec_source(), self.spec_start()))
    }

    /// The characters that the span covers.
    pub open spec fn text(self) -> Seq<char> {
        self.spec_source().subrange(
            char_index(self.spec_source(), self.spec_start()),
            char_index(self.spec_source(), self.spec_end()),
        )
    }

    /// A span of `source`; its offsets must be in order and fall between characters.
    pub fn new(source: &'a str, start: usize, end: usize) -> (r: Self)
        requires
            start <= end,
            on_char(source@, start as int),
            on_char(source@, end as int),
        ensures
            r.wf(),
            r.spec_source() == source@,
            r.spec_start() == start,
            r.spec_end() == end,
    {
        Self { source, start, end }
    }

    pub fn start(&self) -> (r: usize)
        ensures
            r == self.spec_start(),
    {
        self.start
    }

    pub fn end(&self) -> (r: usize)
        ensures
            r == self.spec_end(),
    {
        self.end
    }

    /// The 1-based line on which the span starts.
    pub fn line_number(&self) -> (r: usize)
        requires
            self.spec_start() < usize::MAX,
        ensures
            r == count_char(self.before(), '\n') + 1,
    {
        let (lines, _) = self.scan_prefix();
        lines + 1
    }

    /// The 1-based column, in characters, at which the span starts.
    pub fn column_number(&self) -> (r: usize)
        requires
            self.spec_start() < usize::MAX,
        ensures
            r == last_line_len(self.before()) + 1,
    {
        let (_, column) = self.scan_prefix();
        column + 1
    }

    /// Newlines before the span, and characters between the last of them and the span.
    fn scan_prefix(&self) -> (r: (usize, usize))
        requires
            self.spec_start() < usize::MAX,
        ensures
            r.0 == count_char(self.before(), '\n'),
            r.1 == last_line_len(self.before()),
            r.0 < usize::MAX,
            r.1 < usize::MAX,
    {
        let chars = chars_of(self.source);
        let ghost s = chars@;
        let (k, _) = prefix_end(&chars, self.start);
        proof {
            lemma_len_le_byte_len(s.take(k as int));
        }
        let mut lines: usize = 0;
        let mut column: usize = 0;
        let mut i: usize = 0;
        while i < k
            invariant
                s == chars@,
                k <= s.len(),
                k == char_index(s, self.start as int),
                k < usize::MAX,
                i <= k,
                lines == count_char(s.take(i as int), '\n'),
                column == last_line_len(s.take(i as int)),
                lines <= i,
                column <= i,
            decreases k - i,
        {
            assert(s.take(i + 1).drop_last() =~= s.take(i as int));
            if chars[i] == '\n' {
                lines += 1;
                column = 0;
            } else {
                column += 1;
            }
            i += 1;
        }
        (lines, column)
    }

    /// The text of the span, borrowed from the source.
    pub fn slice(&self) -> (r: &'a str)
        requires
            self.wf(),
        ensures
            r@ == self.text(),
    {
        let ghost s = self.source@;
        let ghost a = char_index(s, self.start as int);
        let ghost b = char_index(s, self.end as int);
        proof {
            lemma_char_index_monotone(s, self.start as int, self.end as int);
            lemma_char_index_monotone(s, self.end as int, self.end as int);
            lemma_prefix_is_char_boundary(s, a);
            assert(s =~= s.take(a) + s.skip(a));
            lemma_encode_concat(s.take(a), s.skip(a));
            let t = s.skip(a);
            assert(s.take(b) =~= s.take(a) + t.take(b - a));
            lemma_encode_concat(s.take(a), t.take(b - a));
            lemma_prefix_is_char_boundary(t, b - a);
            assert(t =~= t.take(b - a) + t.skip(b - a));
            lemma_encode_concat(t.take(b - a), t.skip(b - a));
            assert(encode_utf8(s).subrange(self.start as int, encode_utf8(s).len() as int)
                =~= encode_utf8(t));
        }
        let (_, rest) = self.source.split_at(self.start);
        let (mid, _) = rest.split_at(self.end - self.start);
        proof {
            let t = s.skip(a);
            assert(encode_utf8(t).subrange(0, self.end - self.start) =~= encode_utf8(
                t.take(b - a),
            ));
            encode_utf8_decode_utf8(mid@);
            encode_utf8_decode_utf8(t.take(b - a));
            assert(t.take(b - a) =~= s.subrange(a, b));
        }
        mid
    }
}

/// Where the characters whose encoding ends within the first `b` bytes stop: their
/// count and their byte length.
pub fn prefix_end(chars: &Vec<char>, b: usize) -> (r: (usize, usize))
    ensures
        r.0 == char_index(chars@, b as int),
        r.0 <= chars@.len(),
        r.1 == byte_len(chars@.take(r.0 as int)),
        r.1 <= b,
{
    let ghost s = chars@;
    let mut i: usize = 0;
    let mut off: usize = 0;
    assert(s.skip(0) =~= s);
    assert(s.take(0) =~= Seq::<char>::empty());
    while i < chars.len()
        invariant
            s == chars@,
            i <= s.len(),
            off == byte_len(s.take(i as int)),
            off <= b,
            char_index(s, b as int) == i + char_index(s.skip(i as int), b - off),
        decreases s.len() - i,
    {
        let w = char_width(chars[i]);
        assert(s.skip(i as int)[0] == s[i as int]);
        assert(s.skip(i as int).drop_first() =~= s.skip(i + 1));
        if b - off < w {
            return (i, off);
        }
        proof {
            lemma_byte_len_push(s, i as int);
        }
        off += w;
        i += 1;
    }
    (i, off)
}

/// Whether byte offset `b` falls between two characters of `s` (or at either end).
pub open spec fn on_char(s: Seq<char>, b: int) -> bool {
    b == byte_len(s.take(char_index(s, b)))
}

/// An offset between characters is a character boundary of the UTF-8 encoding.
pub proof fn lemma_on_char_is_char_boundary(s: Seq<char>, b: int)
    requires
        on_char(s, b),
    ensures
        is_char_boundary(encode_utf8(s), b),
{
    lemma_char_index_monotone(s, b, b);
    lemma_prefix_is_char_boundary(s, char_index(s, b));
}

/// The byte offset of the first `k` characters is a character boundary of the encoding.
pub proof fn lemma_prefix_is_char_boundary(s: Seq<char>, k: int)
    requires
        0 <= k <= s.len(),
    ensures
        is_char_boundary(encode_utf8(s), byte_len(s.take(k))),
    decreases s.len(),
{
    let bytes = encode_utf8(s);
    encode_utf8_valid_utf8(s);
    if k == 0 {
        assert(s.take(0) =~= Seq::<char>::empty());
        assert(byte_len(s.take(0)) == 0);
    } else {
        encode_utf8_first_scalar(s);
        assert(pop_first_scalar(bytes) =~= encode_utf8(s.drop_first()));
        let t = seq![s[0]];
        assert(t.drop_first() =~= Seq::<char>::empty());
        assert(encode_utf8(t.drop_first()) =~= Seq::<u8>::empty());
        assert(encode_utf8(t) =~= encode_scalar(t[0] as u32) + encode_utf8(t.drop_first()));
        let rest = s.drop_first();
        assert(s.take(k) =~= t + rest.take(k - 1));
        lemma_encode_concat(t, rest.take(k - 1));
        lemma_prefix_is_char_boundary(rest, k - 1);
        lemma_byte_len_prefix(s, k);
        encode_utf8_valid_utf8(rest);
    }
}

/// The byte offset of the first `k` characters covers exactly those `k` characters.
pub proof fn lemma_char_index_of_prefix(s: Seq<char>, k: int)
    requires
        0 <= k <= s.len(),
    ensures
        char_index(s, byte_len(s.take(k))) == k,
    decreases s.len(),
{
    if s.len() > 0 {
        let t = seq![s[0]];
        assert(t.drop_first() =~= Seq::<char>::empty());
        assert(encode_utf8(t.drop_first()) =~= Seq::<u8>::empty());
        assert(encode_utf8(t) =~= encode_scalar(t[0] as u32) + encode_utf8(t.drop_first()));
        if k == 0 {
            assert(s.take(0) =~= Seq::<char>::empty());
        } else {
            let rest = s.drop_first();
            assert(s.take(k) =~= t + rest.take(k - 1));
            lemma_encode_concat(t, rest.take(k - 1));
            lemma_char_index_of_prefix(rest, k - 1);
        }
    }
}

/// More bytes never cover fewer characters.
pub proof fn lemma_char_index_monotone(s: Seq<char>, a: int, b: int)
    requires
        a <= b,
    ensures
        0 <= char_index(s, a) <= char_index(s, b) <= s.len(),
    decreases s.len(),
{
    if s.len() > 0 {
        let w = utf8_width(s[0]);
        if a >= w {
            lemma_char_index_monotone(s.drop_first(), a - w, b - w);
        } else if b >= w {
            lemma_char_index_monotone(s.drop_first(), b - w, b - w);
        }
    }
}

} // verus!
