//! Recursive-descent parsing of statements and precedence-climbing parsing of expressions.
//!
//! The grammar is stated as spec functions over positions in the source text: each takes
//! the character index from which the next token is scanned (`scan_step`) and gives the
//! parsed form with the position after it, or an error. Every token that parsing moves
//! past lies strictly beyond the position it was scanned from, so each function continues
//! only from a later position; the conditions on positions in the definitions state that
//! for the termination argument, and the parser's own contracts show that they always
//! hold.
use vstd::prelude::*;

pub mod ast;
pub mod cursor;
pub mod scanner;
pub mod token;

use self::ast::{
    decl_view, decls_view, expr_view, infix_bp, lemma_decls_view_push, lemma_names_view_push,
    names_view, operator_of, prefix_bp, stmt_view, Decl, Expr, Identifier, Operator, SDecl, SExpr,
    SStmt, Script, Stmt,
};
use self::scanner::{
    lemma_scan_step_bounds, scan_error_message, scan_step, token_at, Lexeme, ScanError,
    Scanner,
};
use self::token::{
    byte_len, kind_name, lemma_byte_len_prefix, lemma_char_index_of_prefix, on_char,
    variable_length, Span, Token, TokenKind,
};
use crate::interpreter::number::{float_parse, number_parse};
use crate::interpreter::value::Value;

verus! {

/// A parse error in mathematical form: its message and the character indices of the token
/// it concerns.
pub type PErr = (Seq<char>, int, int);

/// The outcome of parsing something from a position: the thing and the position after it,
/// or an error.
pub type PRes<T> = Result<(T, int), PErr>;

/// How a token kind is named in a message: fixed texts in quotes.
pub open spec fn quoted(k: TokenKind) -> Seq<char> {
    if variable_length(k) || k == TokenKind::Eof {
        kind_name(k)
    } else {
        "'"@ + kind_name(k) + "'"@
    }
}

pub open spec fn expected_message(want: TokenKind, got: TokenKind) -> Seq<char> {
    "expected "@ + quoted(want) + " got "@ + quoted(got)
}

pub open spec fn unexpected_message(got: TokenKind) -> Seq<char> {
    "unexpected token "@ + quoted(got)
}

/// The kind of the token at `p`, or the scan error found there.
pub open spec fn peek_kind(s: Seq<char>, p: int) -> Result<TokenKind, PErr> {
    let (l, a, e) = scan_step(s, p);
    match l {
        Lexeme::Token(k) => Ok(k),
        _ => Err((scan_error_message(l), a, e)),
    }
}

/// The position after the token at `p`, which must be of kind `want`.
pub open spec fn expect_at(s: Seq<char>, p: int, want: TokenKind) -> Result<int, PErr> {
    let (l, a, e) = scan_step(s, p);
    match l {
        Lexeme::Token(k) => if k == want {
            Ok(e)
        } else {
            Err((expected_message(want, k), a, e))
        },
        _ => Err((scan_error_message(l), a, e)),
    }
}

/// The text of the token at `p`.
pub open spec fn token_text(s: Seq<char>, p: int) -> Seq<char> {
    s.subrange(scan_step(s, p).1, scan_step(s, p).2)
}

/// An expression from `p` whose operators bind at least as tightly as `min_bp`: a prefix
/// position, then the infix operators that follow.
pub open spec fn parse_expr_bp(s: Seq<char>, p: int, min_bp: u8) -> PRes<SExpr>
    decreases s.len() - p, 2int,
    when 0 <= p <= s.len()
{
    proof {
        lemma_scan_step_bounds(s, p);
    }
    let (l, a, e) = scan_step(s, p);
    match l {
        Lexeme::Token(k) => {
            let prefix: PRes<SExpr> = if k == TokenKind::Identifier {
                Ok((SExpr::Ident(s.subrange(a, e)), e))
            } else if k == TokenKind::Number {
                match float_parse(s.subrange(a, e)) {
                    Some(n) => Ok((SExpr::Literal(Value::Number(n)), e)),
                    None => Err(("failed to parse numeric literal"@, a, e)),
                }
            } else if k == TokenKind::True {
                Ok((SExpr::Literal(Value::Bool(true)), e))
            } else if k == TokenKind::False {
                Ok((SExpr::Literal(Value::Bool(false)), e))
            } else if k == TokenKind::Nil {
                Ok((SExpr::Literal(Value::Nil), e))
            } else if k == TokenKind::LParen {
                match parse_expr_bp(s, e, 0) {
                    Ok((inner, p1)) => match expect_at(s, p1, TokenKind::RParen) {
                        Ok(p2) => Ok((inner, p2)),
                        Err(x) => Err(x),
                    },
                    Err(x) => Err(x),
                }
            } else if operator_of(k) is Some && prefix_bp(operator_of(k)->0) is Some {
                let op = operator_of(k)->0;
                match parse_expr_bp(s, e, prefix_bp(op)->0) {
                    Ok((x, p1)) => Ok((SExpr::Unary(op, Box::new(x)), p1)),
                    Err(x) => Err(x),
                }
            } else {
                Err((unexpected_message(k), a, e))
            };
            match prefix {
                Ok((lhs, p1)) => if p < p1 <= s.len() {
                    parse_infix(s, p1, min_bp, lhs)
                } else {
                    Ok((lhs, p1))
                },
                Err(x) => Err(x),
            }
        },
        _ => Err((scan_error_message(l), a, e)),
    }
}

/// The infix operators that follow `lhs` at `p`, as long as they bind at least as tightly
/// as `min_bp`. Assignment is taken only at the top of an expression, and only to a name.
pub open spec fn parse_infix(s: Seq<char>, p: int, min_bp: u8, lhs: SExpr) -> PRes<SExpr>
    decreases s.len() - p, 1int,
    when 0 <= p <= s.len()
{
    proof {
        lemma_scan_step_bounds(s, p);
    }
    let (l, a, e) = scan_step(s, p);
    match l {
        Lexeme::Token(k) => if operator_of(k) is Some && infix_bp(operator_of(k)->0) is Some {
            let op = operator_of(k)->0;
            let (lbp, rbp) = infix_bp(op)->0;
            if lbp < min_bp || (op == Operator::Assign && min_bp != 0) {
                Ok((lhs, p))
            } else if op == Operator::Assign {
                match lhs {
                    SExpr::Ident(name) => match parse_expr_bp(s, e, 0) {
                        Ok((rhs, p2)) => Ok((SExpr::Assign(name, Box::new(rhs)), p2)),
                        Err(x) => Err(x),
                    },
                    _ => Err(("invalid assignment target"@, a, e)),
                }
            } else {
                match parse_expr_bp(s, e, rbp) {
                    Ok((rhs, p2)) => {
                        let joined = SExpr::Binary(op, Box::new(lhs), Box::new(rhs));
                        if p < p2 <= s.len() {
                            parse_infix(s, p2, min_bp, joined)
                        } else {
                            Ok((joined, p2))
                        }
                    },
                    Err(x) => Err(x),
                }
            }
        } else {
            Ok((lhs, p))
        },
        _ => Err((scan_error_message(l), a, e)),
    }
}

/// An expression statement: an expression and a `;`.
pub open spec fn parse_expr_stmt(s: Seq<char>, p: int) -> PRes<SStmt> {
    match parse_expr_bp(s, p, 0) {
        Ok((e, p1)) => match expect_at(s, p1, TokenKind::Semicolon) {
            Ok(p2) => Ok((SStmt::Expr(e), p2)),
            Err(x) => Err(x),
        },
        Err(x) => Err(x),
    }
}

/// A statement: a block, an `if`, or an expression statement.
pub open spec fn parse_stmt(s: Seq<char>, p: int) -> PRes<SStmt>
    decreases s.len() - p, 3int,
    when 0 <= p <= s.len()
{
    match peek_kind(s, p) {
        Err(x) => Err(x),
        Ok(k) => if k == TokenKind::LBrace {
            parse_block(s, p)
        } else if k == TokenKind::If {
            parse_if(s, p)
        } else {
            parse_expr_stmt(s, p)
        },
    }
}

/// A block: `{`, declarations, `}`.
pub open spec fn parse_block(s: Seq<char>, p: int) -> PRes<SStmt>
    decreases s.len() - p, 2int,
    when 0 <= p <= s.len()
{
    proof {
        lemma_scan_step_bounds(s, p);
    }
    match expect_at(s, p, TokenKind::LBrace) {
        Err(x) => Err(x),
        Ok(p1) => match parse_block_decls(s, p1) {
            Err(x) => Err(x),
            Ok((ds, p2)) => match expect_at(s, p2, TokenKind::RBrace) {
                Ok(p3) => Ok((SStmt::Block(ds), p3)),
                Err(x) => Err(x),
            },
        },
    }
}

/// Declarations up to a `}` or the end of the input.
pub open spec fn parse_block_decls(s: Seq<char>, p: int) -> PRes<Seq<SDecl>>
    decreases s.len() - p, 5int,
    when 0 <= p <= s.len()
{
    match peek_kind(s, p) {
        Err(x) => Err(x),
        Ok(k) => if k == TokenKind::Eof || k == TokenKind::RBrace {
            Ok((Seq::empty(), p))
        } else {
            match parse_decl(s, p) {
                Err(x) => Err(x),
                Ok((d, p1)) => if p < p1 <= s.len() {
                    match parse_block_decls(s, p1) {
                        Ok((rest, p2)) => Ok((seq![d] + rest, p2)),
                        Err(x) => Err(x),
                    }
                } else {
                    Ok((seq![d], p1))
                },
            }
        },
    }
}

/// An `if` statement; an `else` binds to the nearest `if`.
pub open spec fn parse_if(s: Seq<char>, p: int) -> PRes<SStmt>
    decreases s.len() - p, 2int,
    when 0 <= p <= s.len()
{
    proof {
        lemma_scan_step_bounds(s, p);
    }
    match expect_at(s, p, TokenKind::If) {
        Err(x) => Err(x),
        Ok(p1) => match parse_expr_bp(s, p1, 0) {
            Err(x) => Err(x),
            Ok((c, p2)) => if p < p2 <= s.len() {
                match parse_stmt(s, p2) {
                    Err(x) => Err(x),
                    Ok((t, p3)) => if p < p3 <= s.len() {
                        match peek_kind(s, p3) {
                            Err(x) => Err(x),
                            Ok(k) => if k == TokenKind::Else {
                                proof {
                                    lemma_scan_step_bounds(s, p3);
                                }
                                match parse_stmt(s, scan_step(s, p3).2) {
                                    Ok((f, p4)) => Ok(
                                        (SStmt::If(c, Box::new(t), Some(Box::new(f))), p4),
                                    ),
                                    Err(x) => Err(x),
                                }
                            } else {
                                Ok((SStmt::If(c, Box::new(t), None), p3))
                            },
                        }
                    } else {
                        Ok((SStmt::If(c, Box::new(t), None), p3))
                    },
                }
            } else {
                Ok((SStmt::Expr(c), p2))
            },
        },
    }
}

/// A declaration: a variable, a function, or a statement.
pub open spec fn parse_decl(s: Seq<char>, p: int) -> PRes<SDecl>
    decreases s.len() - p, 4int,
    when 0 <= p <= s.len()
{
    match peek_kind(s, p) {
        Err(x) => Err(x),
        Ok(k) => if k == TokenKind::Let {
            parse_var_decl(s, p)
        } else if k == TokenKind::Func {
            parse_func_decl(s, p)
        } else {
            match parse_stmt(s, p) {
                Ok((st, p1)) => Ok((SDecl::Stmt(st), p1)),
                Err(x) => Err(x),
            }
        },
    }
}

/// `let name;` or `let name = init;`.
pub open spec fn parse_var_decl(s: Seq<char>, p: int) -> PRes<SDecl> {
    match expect_at(s, p, TokenKind::Let) {
        Err(x) => Err(x),
        Ok(p1) => match expect_at(s, p1, TokenKind::Identifier) {
            Err(x) => Err(x),
            Ok(p2) => {
                let name = token_text(s, p1);
                match peek_kind(s, p2) {
                    Err(x) => Err(x),
                    Ok(k) => if k == TokenKind::Equal {
                        match parse_expr_bp(s, scan_step(s, p2).2, 0) {
                            Err(x) => Err(x),
                            Ok((init, p3)) => match expect_at(s, p3, TokenKind::Semicolon) {
                                Ok(p4) => Ok((SDecl::Var(name, Some(init)), p4)),
                                Err(x) => Err(x),
                            },
                        }
                    } else {
                        match expect_at(s, p2, TokenKind::Semicolon) {
                            Ok(p3) => Ok((SDecl::Var(name, None), p3)),
                            Err(x) => Err(x),
                        }
                    },
                }
            },
        },
    }
}

/// Parameter names separated by commas.
pub open spec fn parse_params(s: Seq<char>, p: int) -> PRes<Seq<Seq<char>>>
    decreases s.len() - p,
    when 0 <= p <= s.len()
{
    proof {
        lemma_scan_step_bounds(s, p);
    }
    match expect_at(s, p, TokenKind::Identifier) {
        Err(x) => Err(x),
        Ok(p1) => {
            let name = token_text(s, p);
            match peek_kind(s, p1) {
                Err(x) => Err(x),
                Ok(k) => if k == TokenKind::Comma {
                    proof {
                        lemma_scan_step_bounds(s, p1);
                    }
                    match parse_params(s, scan_step(s, p1).2) {
                        Ok((rest, p2)) => Ok((seq![name] + rest, p2)),
                        Err(x) => Err(x),
                    }
                } else {
                    Ok((seq![name], p1))
                },
            }
        },
    }
}

/// `(`, parameter names separated by commas, `)`.
pub open spec fn parse_paren_params(s: Seq<char>, p: int) -> PRes<Seq<Seq<char>>> {
    match expect_at(s, p, TokenKind::LParen) {
        Err(x) => Err(x),
        Ok(p1) => {
            let params: PRes<Seq<Seq<char>>> = match peek_kind(s, p1) {
                Err(x) => Err(x),
                Ok(k) => if k == TokenKind::RParen {
                    Ok((Seq::empty(), p1))
                } else {
                    parse_params(s, p1)
                },
            };
            match params {
                Err(x) => Err(x),
                Ok((ps, p2)) => match expect_at(s, p2, TokenKind::RParen) {
                    Err(x) => Err(x),
                    Ok(p3) => Ok((ps, p3)),
                },
            }
        },
    }
}

/// `func name(params) { ... }`.
pub open spec fn parse_func_decl(s: Seq<char>, p: int) -> PRes<SDecl>
    decreases s.len() - p, 3int,
    when 0 <= p <= s.len()
{
    match expect_at(s, p, TokenKind::Func) {
        Err(x) => Err(x),
        Ok(p1) => match expect_at(s, p1, TokenKind::Identifier) {
            Err(x) => Err(x),
            Ok(p2) => {
                let name = token_text(s, p1);
                match parse_paren_params(s, p2) {
                    Err(x) => Err(x),
                    Ok((ps, p3)) => if p < p3 <= s.len() {
                        match parse_block(s, p3) {
                            Ok((body, p4)) => Ok((SDecl::Func(name, ps, body), p4)),
                            Err(x) => Err(x),
                        }
                    } else {
                        Ok((SDecl::Func(name, ps, SStmt::Block(Seq::empty())), p3))
                    },
                }
            },
        },
    }
}

/// A whole program: declarations up to the end of the input.
pub open spec fn parse_script(s: Seq<char>, p: int) -> PRes<Seq<SDecl>>
    decreases s.len() - p,
    when 0 <= p <= s.len()
{
    match peek_kind(s, p) {
        Err(x) => Err(x),
        Ok(k) => if k == TokenKind::Eof {
            Ok((Seq::empty(), p))
        } else {
            match parse_decl(s, p) {
                Err(x) => Err(x),
                Ok((d, p1)) => if p < p1 <= s.len() {
                    match parse_script(s, p1) {
                        Ok((rest, p2)) => Ok((seq![d] + rest, p2)),
                        Err(x) => Err(x),
                    }
                } else {
                    Ok((seq![d], p1))
                },
            }
        },
    }
}

/// Whether `err` is the parse error `x` in the source `s`.
pub open spec fn error_at(err: ParseError, s: Seq<char>, x: PErr) -> bool {
    &&& err.spec_message() == x.0
    &&& err.spec_span().spec_source() == s
    &&& err.spec_span().spec_start() == byte_len(s.take(x.1))
    &&& err.spec_span().spec_end() == byte_len(s.take(x.2))
}

/// Whether `r` is an expression with the mathematical form that `x` gives, or the error
/// that `x` gives.
pub open spec fn expr_outcome(r: Result<Expr, ParseError>, x: PRes<SExpr>, s: Seq<char>) -> bool {
    match x {
        Ok((e, _)) => r is Ok && expr_view(r->Ok_0) == e,
        Err(err) => r is Err && error_at(r->Err_0, s, err),
    }
}

/// Whether `r` is a statement of the form that `x` gives, or the error that `x` gives.
pub open spec fn stmt_outcome(r: Result<Stmt, ParseError>, x: PRes<SStmt>, s: Seq<char>) -> bool {
    match x {
        Ok((st, _)) => r is Ok && stmt_view(r->Ok_0) == st,
        Err(err) => r is Err && error_at(r->Err_0, s, err),
    }
}

/// Whether `r` is a declaration of the form that `x` gives, or the error that `x` gives.
pub open spec fn decl_outcome(r: Result<Decl, ParseError>, x: PRes<SDecl>, s: Seq<char>) -> bool {
    match x {
        Ok((d, _)) => r is Ok && decl_view(r->Ok_0) == d,
        Err(err) => r is Err && error_at(r->Err_0, s, err),
    }
}

/// Whether `r` holds declarations of the form that `x` gives, or the error that `x` gives.
pub open spec fn decls_outcome(r: Result<Vec<Decl>, ParseError>, x: PRes<Seq<SDecl>>, s: Seq<char>) -> bool {
    match x {
        Ok((ds, _)) => r is Ok && decls_view(r->Ok_0@) == ds,
        Err(err) => r is Err && error_at(r->Err_0, s, err),
    }
}

/// `x` with `ds` in front of the declarations it holds.
pub open spec fn prepend<T>(ds: Seq<T>, x: PRes<Seq<T>>) -> PRes<Seq<T>> {
    match x {
        Ok((rest, q)) => Ok((ds + rest, q)),
        Err(err) => Err(err),
    }
}

/// Parses a source text into a syntax tree.
pub struct Parser<'a> {
    scanner: Scanner<'a>,
    peeked: Option<Token<'a>>,
    peeked_from: Ghost<int>,
}

impl<'a> Parser<'a> {
    /// The source text.
    pub closed spec fn text(self) -> Seq<char> {
        self.scanner.text()
    }

    /// The position from which the next token is scanned.
    pub closed spec fn pos(self) -> int {
        if self.peeked is Some {
            self.peeked_from@
        } else {
            self.scanner.pos()
        }
    }

    pub closed spec fn wf(self) -> bool {
        &&& self.scanner.wf()
        &&& 0 <= self.pos() <= self.text().len()
        &&& self.peeked is Some ==> {
            let (l, a, e) = scan_step(self.text(), self.peeked_from@);
            &&& self.scanner.pos() == e
            &&& l == Lexeme::Token(self.peeked->0.spec_kind())
            &&& token_at(self.peeked->0, self.text(), self.peeked->0.spec_kind(), a, e)
        }
    }

    pub fn new(source: &'a str) -> (r: Self)
        ensures
            r.wf(),
            r.text() == source@,
            r.pos() == 0,
    {
        Self { scanner: Scanner::new(source), peeked: None, peeked_from: Ghost(0) }
    }

    proof fn lemma_bounds(self)
        requires
            self.wf(),
        ensures
            0 <= self.pos() <= self.text().len(),
            self.pos() <= scan_step(self.text(), self.pos()).1,
            scan_step(self.text(), self.pos()).1 <= scan_step(self.text(), self.pos()).2,
            scan_step(self.text(), self.pos()).2 <= self.text().len(),
            scan_step(self.text(), self.pos()).0 != Lexeme::Token(TokenKind::Eof) ==> self.pos()
                < scan_step(self.text(), self.pos()).2,
    {
        lemma_scan_step_bounds(self.text(), self.pos());
    }

    /// The next token, left in place.
    fn peek(&mut self) -> (r: Result<Token<'a>, ParseError<'a>>)
        requires
            old(self).wf(),
        ensures
            final(self).wf(),
            final(self).text() == old(self).text(),
            r is Ok ==> final(self).pos() == old(self).pos(),
            ({
                let (l, a, e) = scan_step(old(self).text(), old(self).pos());
                match l {
                    Lexeme::Token(k) => r is Ok && token_at(r->Ok_0, old(self).text(), k, a, e),
                    _ => r is Err && error_at(
                        r->Err_0,
                        old(self).text(),
                        (scan_error_message(l), a, e),
                    ),
                }
            }),
    {
        match self.peeked {
            Some(t) => Ok(t),
            None => {
                let ghost from = self.scanner.pos();
                match self.next_token() {
                    Ok(t) => {
                        self.peeked = Some(t);
                        self.peeked_from = Ghost(from);
                        Ok(t)
                    },
                    Err(err) => Err(err),
                }
            },
        }
    }

    /// Scans the next token; a lexical error becomes a parse error.
    fn next_token(&mut self) -> (r: Result<Token<'a>, ParseError<'a>>)
        requires
            old(self).scanner.wf(),
        ensures
            final(self).scanner.wf(),
            final(self).peeked == old(self).peeked,
            final(self).peeked_from == old(self).peeked_from,
            final(self).scanner.text() == old(self).scanner.text(),
            0 <= final(self).scanner.pos() <= final(self).scanner.text().len(),
            final(self).scanner.pos() == scan_step(old(self).scanner.text(), old(self).scanner.pos()).2,
            ({
                let (l, a, e) = scan_step(old(self).scanner.text(), old(self).scanner.pos());
                match l {
                    Lexeme::Token(k) => r is Ok && token_at(r->Ok_0, old(self).text(), k, a, e),
                    _ => r is Err && error_at(
                        r->Err_0,
                        old(self).text(),
                        (scan_error_message(l), a, e),
                    ),
                }
            }),
    {
        let r = self.scanner.scan();
        proof {
            self.scanner.lemma_pos_bounds();
        }
        match r {
            Ok(t) => Ok(t),
            Err(err) => Err(ParseError::from_scan_error(err)),
        }
    }

    /// Consumes the next token if it is of kind `kind`, and says whether it did.
    fn advance_if(&mut self, kind: TokenKind) -> (r: Result<bool, ParseError<'a>>)
        requires
            old(self).wf(),
        ensures
            final(self).wf(),
            final(self).text() == old(self).text(),
            match peek_kind(old(self).text(), old(self).pos()) {
                Ok(k) => r == Ok::<bool, ParseError>(k == kind) && final(self).pos() == if k == kind {
                    scan_step(old(self).text(), old(self).pos()).2
                } else {
                    old(self).pos()
                },
                Err(x) => r is Err && error_at(r->Err_0, old(self).text(), x),
            },
    {
        let token = match self.peek() {
            Ok(t) => t,
            Err(err) => {
                return Err(err);
            },
        };
        if token.kind() == kind {
            match self.advance() {
                Ok(_) => Ok(true),
                Err(err) => Err(err),
            }
        } else {
            Ok(false)
        }
    }

    /// The next token, consumed.
    fn advance(&mut self) -> (r: Result<Token<'a>, ParseError<'a>>)
        requires
            old(self).wf(),
        ensures
            final(self).wf(),
            final(self).text() == old(self).text(),
            r is Ok ==> final(self).pos() == scan_step(old(self).text(), old(self).pos()).2,
            ({
                let (l, a, e) = scan_step(old(self).text(), old(self).pos());
                match l {
                    Lexeme::Token(k) => r is Ok && token_at(r->Ok_0, old(self).text(), k, a, e),
                    _ => r is Err && error_at(
                        r->Err_0,
                        old(self).text(),
                        (scan_error_message(l), a, e),
                    ),
                }
            }),
    {
        proof {
            lemma_scan_step_bounds(self.text(), self.pos());
        }
        match self.peeked {
            Some(t) => {
                self.peeked = None;
                Ok(t)
            },
            None => self.next_token(),
        }
    }

    /// Consumes the next token if it is of kind `want`; otherwise an error that names both
    /// kinds.
    fn expect(&mut self, want: TokenKind) -> (r: Result<Token<'a>, ParseError<'a>>)
        requires
            old(self).wf(),
            want != TokenKind::Eof,
        ensures
            r is Ok ==> old(self).pos() < final(self).pos(),
            final(self).wf(),
            final(self).text() == old(self).text(),
            match expect_at(old(self).text(), old(self).pos(), want) {
                Ok(e) => r is Ok && final(self).pos() == e && token_at(
                    r->Ok_0,
                    old(self).text(),
                    want,
                    scan_step(old(self).text(), old(self).pos()).1,
                    e,
                ),
                Err(x) => r is Err && error_at(r->Err_0, old(self).text(), x),
            },
    {
        proof {
            self.lemma_bounds();
        }
        let token = match self.peek() {
            Ok(t) => t,
            Err(err) => {
                return Err(err);
            },
        };
        if token.kind() == want {
            self.advance()
        } else {
            let mut message = String::new();
            message.append("expected ");
            push_quoted(&mut message, want);
            message.append(" got ");
            push_quoted(&mut message, token.kind());
            assert(message@ =~= expected_message(want, token.spec_kind()));
            Err(ParseError::new(&token, message))
        }
    }

    /// The text of a token, as characters of the source.
    proof fn lemma_token_text(self, t: Token, a: int, e: int)
        requires
            0 <= a <= e <= self.text().len(),
            token_at(t, self.text(), t.spec_kind(), a, e),
        ensures
            t.spec_span().wf(),
            t.spec_span().text() == self.text().subrange(a, e),
    {
        let s = self.text();
        lemma_char_index_of_prefix(s, a);
        lemma_char_index_of_prefix(s, e);
        assert(on_char(s, byte_len(s.take(a))));
        assert(on_char(s, byte_len(s.take(e))));
        assert(s.take(e).take(a) =~= s.take(a));
        lemma_byte_len_prefix(s.take(e), a);
    }

    /// An expression whose operators bind at least as tightly as `min_bp`.
    fn expr_bp(&mut self, min_bp: u8) -> (r: Result<Expr, ParseError<'a>>)
        requires
            old(self).wf(),
        ensures
            final(self).wf(),
            final(self).text() == old(self).text(),
            expr_outcome(r, parse_expr_bp(old(self).text(), old(self).pos(), min_bp), old(self).text()),
            r is Ok ==> final(self).pos() == parse_expr_bp(old(self).text(), old(self).pos(), min_bp)->Ok_0.1,
            r is Ok ==> old(self).pos() < final(self).pos(),
        decreases old(self).text().len() - old(self).pos(), 2int,
    {
        let ghost s = self.text();
        let ghost p = self.pos();
        proof {
            self.lemma_bounds();
        }
        let token = match self.advance() {
            Ok(t) => t,
            Err(err) => {
                return Err(err);
            },
        };
        let ghost a = scan_step(s, p).1;
        let ghost e = scan_step(s, p).2;
        proof {
            self.lemma_token_text(token, a, e);
        }
        let kind = token.kind();
        let lhs = if kind == TokenKind::Identifier {
            Expr::Identifier(Identifier::new(token.slice()))
        } else if kind == TokenKind::Number {
            match number_parse(token.slice()) {
                Some(n) => Expr::Literal(Value::Number(n)),
                None => {
                    let mut message = String::new();
                    message.append("failed to parse numeric literal");
                    return Err(ParseError::new(&token, message));
                },
            }
        } else if kind == TokenKind::True {
            Expr::Literal(Value::Bool(true))
        } else if kind == TokenKind::False {
            Expr::Literal(Value::Bool(false))
        } else if kind == TokenKind::Nil {
            Expr::Literal(Value::Nil)
        } else if kind == TokenKind::LParen {
            let inner = match self.expr_bp(0) {
                Ok(x) => x,
                Err(err) => {
                    return Err(err);
                },
            };
            match self.expect(TokenKind::RParen) {
                Ok(_) => {},
                Err(err) => {
                    return Err(err);
                },
            }
            inner
        } else {
            match Operator::from_kind(kind) {
                Some(op) => match op.prefix_binding_power() {
                    Some(((), r_bp)) => {
                        let operand = match self.expr_bp(r_bp) {
                            Ok(x) => x,
                            Err(err) => {
                                return Err(err);
                            },
                        };
                        Expr::Unary(op, Box::new(operand))
                    },
                    None => {
                        return Err(unexpected_token(&token));
                    },
                },
                None => {
                    return Err(unexpected_token(&token));
                },
            }
        };
        proof {
            self.lemma_bounds();
        }
        self.infix(min_bp, lhs)
    }

    /// The infix operators that follow `lhs`, as long as they bind at least as tightly as
    /// `min_bp`.
    fn infix(&mut self, min_bp: u8, lhs: Expr) -> (r: Result<Expr, ParseError<'a>>)
        requires
            old(self).wf(),
        ensures
            final(self).wf(),
            final(self).text() == old(self).text(),
            expr_outcome(r, parse_infix(old(self).text(), old(self).pos(), min_bp, expr_view(lhs)), old(self).text()),
            r is Ok ==> final(self).pos() == parse_infix(old(self).text(), old(self).pos(), min_bp, expr_view(lhs))->Ok_0.1,
            r is Ok ==> old(self).pos() <= final(self).pos(),
        decreases old(self).text().len() - old(self).pos(), 1int,
    {
        proof {
            self.lemma_bounds();
        }
        let token = match self.peek() {
            Ok(t) => t,
            Err(err) => {
                return Err(err);
            },
        };
        let op = match Operator::from_kind(token.kind()) {
            Some(op) => op,
            None => {
                return Ok(lhs);
            },
        };
        let (l_bp, r_bp) = match op.infix_binding_power() {
            Some(bp) => bp,
            None => {
                return Ok(lhs);
            },
        };
        if l_bp < min_bp || (op == Operator::Assign && min_bp != 0) {
            return Ok(lhs);
        }
        match self.advance() {
            Ok(_) => {},
            Err(err) => {
                return Err(err);
            },
        }
        if op == Operator::Assign {
            match lhs {
                Expr::Identifier(name) => {
                    let rhs = match self.expr_bp(0) {
                        Ok(x) => x,
                        Err(err) => {
                            return Err(err);
                        },
                    };
                    Ok(Expr::Assignment(name, Box::new(rhs)))
                },
                _ => {
                    let mut message = String::new();
                    message.append("invalid assignment target");
                    Err(ParseError::new(&token, message))
                },
            }
        } else {
            let rhs = match self.expr_bp(r_bp) {
                Ok(x) => x,
                Err(err) => {
                    return Err(err);
                },
            };
            proof {
                self.lemma_bounds();
            }
            self.infix(min_bp, Expr::Binary(op, Box::new(lhs), Box::new(rhs)))
        }
    }

    /// An expression statement.
    fn expr_stmt(&mut self) -> (r: Result<Stmt, ParseError<'a>>)
        requires
            old(self).wf(),
        ensures
            final(self).wf(),
            final(self).text() == old(self).text(),
            stmt_outcome(r, parse_expr_stmt(old(self).text(), old(self).pos()), old(self).text()),
            r is Ok ==> final(self).pos() == parse_expr_stmt(old(self).text(), old(self).pos())->Ok_0.1,
            r is Ok ==> old(self).pos() < final(self).pos(),
    {
        let e = match self.expr_bp(0) {
            Ok(e) => e,
            Err(err) => {
                return Err(err);
            },
        };
        match self.expect(TokenKind::Semicolon) {
            Ok(_) => Ok(Stmt::Expr(Box::new(e))),
            Err(err) => Err(err),
        }
    }

    /// A statement: a block, an `if`, or an expression statement.
    fn stmt(&mut self) -> (r: Result<Stmt, ParseError<'a>>)
        requires
            old(self).wf(),
        ensures
            final(self).wf(),
            final(self).text() == old(self).text(),
            stmt_outcome(r, parse_stmt(old(self).text(), old(self).pos()), old(self).text()),
            r is Ok ==> final(self).pos() == parse_stmt(old(self).text(), old(self).pos())->Ok_0.1,
            r is Ok ==> old(self).pos() < final(self).pos(),
        decreases old(self).text().len() - old(self).pos(), 3int,
    {
        proof {
            self.lemma_bounds();
        }
        let token = match self.peek() {
            Ok(t) => t,
            Err(err) => {
                return Err(err);
            },
        };
        if token.kind() == TokenKind::LBrace {
            self.block()
        } else if token.kind() == TokenKind::If {
            self.if_stmt()
        } else {
            self.expr_stmt()
        }
    }

    /// A block: `{`, declarations, `}`.
    fn block(&mut self) -> (r: Result<Stmt, ParseError<'a>>)
        requires
            old(self).wf(),
        ensures
            final(self).wf(),
            final(self).text() == old(self).text(),
            stmt_outcome(r, parse_block(old(self).text(), old(self).pos()), old(self).text()),
            r is Ok ==> final(self).pos() == parse_block(old(self).text(), old(self).pos())->Ok_0.1,
            r is Ok ==> old(self).pos() < final(self).pos(),
        decreases old(self).text().len() - old(self).pos(), 2int,
    {
        proof {
            self.lemma_bounds();
        }
        match self.expect(TokenKind::LBrace) {
            Ok(_) => {},
            Err(err) => {
                return Err(err);
            },
        }
        let decls = match self.block_decls() {
            Ok(ds) => ds,
            Err(err) => {
                return Err(err);
            },
        };
        match self.expect(TokenKind::RBrace) {
            Ok(_) => Ok(Stmt::Block(decls)),
            Err(err) => Err(err),
        }
    }

    /// Declarations up to a `}` or the end of the input.
    fn block_decls(&mut self) -> (r: Result<Vec<Decl>, ParseError<'a>>)
        requires
            old(self).wf(),
        ensures
            final(self).wf(),
            final(self).text() == old(self).text(),
            decls_outcome(r, parse_block_decls(old(self).text(), old(self).pos()), old(self).text()),
            r is Ok ==> final(self).pos() == parse_block_decls(old(self).text(), old(self).pos())->Ok_0.1,
            r is Ok ==> old(self).pos() <= final(self).pos(),
        decreases old(self).text().len() - old(self).pos(), 5int,
    {
        let ghost s = self.text();
        let ghost p0 = self.pos();
        let mut decls: Vec<Decl> = Vec::new();
        assert(prepend(decls_view(decls@), parse_block_decls(s, p0)) =~= parse_block_decls(s, p0)) by {
            assert(decls_view(decls@) =~= Seq::<SDecl>::empty());
            match parse_block_decls(s, p0) {
                Ok((rest, q)) => {
                    assert(Seq::<SDecl>::empty() + rest =~= rest);
                },
                Err(_) => {},
            }
        }
        loop
            invariant
                self.wf(),
                self.text() == s,
                s == old(self).text(),
                p0 == old(self).pos(),
                0 <= p0 <= self.pos() <= s.len(),
                parse_block_decls(s, p0) == prepend(decls_view(decls@), parse_block_decls(s, self.pos())),
            decreases s.len() - self.pos(),
        {
            let token = match self.peek() {
                Ok(t) => t,
                Err(err) => {
                    return Err(err);
                },
            };
            if token.kind() == TokenKind::Eof || token.kind() == TokenKind::RBrace {
                assert(decls_view(decls@) + Seq::<SDecl>::empty() =~= decls_view(decls@));
                return Ok(decls);
            }
            let d = match self.decl() {
                Ok(d) => d,
                Err(err) => {
                    return Err(err);
                },
            };
            proof {
                lemma_decls_view_push(decls@, d);
                match parse_block_decls(s, self.pos()) {
                    Ok((rest, q)) => {
                        assert(decls_view(decls@) + (seq![decl_view(d)] + rest) =~= (decls_view(decls@) + seq![decl_view(d)]) + rest);
                    },
                    Err(_) => {},
                }
            }
            decls.push(d);
        }
    }

    /// An `if` statement.
    fn if_stmt(&mut self) -> (r: Result<Stmt, ParseError<'a>>)
        requires
            old(self).wf(),
        ensures
            final(self).wf(),
            final(self).text() == old(self).text(),
            stmt_outcome(r, parse_if(old(self).text(), old(self).pos()), old(self).text()),
            r is Ok ==> final(self).pos() == parse_if(old(self).text(), old(self).pos())->Ok_0.1,
            r is Ok ==> old(self).pos() < final(self).pos(),
        decreases old(self).text().len() - old(self).pos(), 2int,
    {
        proof {
            self.lemma_bounds();
        }
        match self.expect(TokenKind::If) {
            Ok(_) => {},
            Err(err) => {
                return Err(err);
            },
        }
        let predicate = match self.expr_bp(0) {
            Ok(e) => e,
            Err(err) => {
                return Err(err);
            },
        };
        let consequent = match self.stmt() {
            Ok(st) => st,
            Err(err) => {
                return Err(err);
            },
        };
        proof {
            self.lemma_bounds();
        }
        let has_else = match self.advance_if(TokenKind::Else) {
            Ok(b) => b,
            Err(err) => {
                return Err(err);
            },
        };
        let alternative = if has_else {
            match self.stmt() {
                Ok(st) => Some(Box::new(st)),
                Err(err) => {
                    return Err(err);
                },
            }
        } else {
            None
        };
        Ok(Stmt::If(Box::new(predicate), Box::new(consequent), alternative))
    }

    /// A declaration: a variable, a function, or a statement.
    fn decl(&mut self) -> (r: Result<Decl, ParseError<'a>>)
        requires
            old(self).wf(),
        ensures
            final(self).wf(),
            final(self).text() == old(self).text(),
            decl_outcome(r, parse_decl(old(self).text(), old(self).pos()), old(self).text()),
            r is Ok ==> final(self).pos() == parse_decl(old(self).text(), old(self).pos())->Ok_0.1,
            r is Ok ==> old(self).pos() < final(self).pos(),
        decreases old(self).text().len() - old(self).pos(), 4int,
    {
        proof {
            self.lemma_bounds();
        }
        let token = match self.peek() {
            Ok(t) => t,
            Err(err) => {
                return Err(err);
            },
        };
        if token.kind() == TokenKind::Let {
            self.var_decl()
        } else if token.kind() == TokenKind::Func {
            self.func_decl()
        } else {
            match self.stmt() {
                Ok(st) => Ok(Decl::Stmt(Box::new(st))),
                Err(err) => Err(err),
            }
        }
    }

    /// A name, consumed.
    fn name(&mut self) -> (r: Result<Identifier, ParseError<'a>>)
        requires
            old(self).wf(),
        ensures
            final(self).wf(),
            final(self).text() == old(self).text(),
            match expect_at(old(self).text(), old(self).pos(), TokenKind::Identifier) {
                Ok(e) => r is Ok && final(self).pos() == e && r->Ok_0@ == token_text(
                    old(self).text(),
                    old(self).pos(),
                ),
                Err(x) => r is Err && error_at(r->Err_0, old(self).text(), x),
            },
            r is Ok ==> old(self).pos() < final(self).pos(),
    {
        proof {
            self.lemma_bounds();
        }
        let ghost s = self.text();
        let ghost p = self.pos();
        match self.expect(TokenKind::Identifier) {
            Ok(token) => {
                proof {
                    self.lemma_token_text(token, scan_step(s, p).1, scan_step(s, p).2);
                }
                Ok(Identifier::new(token.slice()))
            },
            Err(err) => Err(err),
        }
    }

    /// `let name;` or `let name = init;`.
    fn var_decl(&mut self) -> (r: Result<Decl, ParseError<'a>>)
        requires
            old(self).wf(),
        ensures
            final(self).wf(),
            final(self).text() == old(self).text(),
            decl_outcome(r, parse_var_decl(old(self).text(), old(self).pos()), old(self).text()),
            r is Ok ==> final(self).pos() == parse_var_decl(old(self).text(), old(self).pos())->Ok_0.1,
            r is Ok ==> old(self).pos() < final(self).pos(),
    {
        proof {
            self.lemma_bounds();
        }
        match self.expect(TokenKind::Let) {
            Ok(_) => {},
            Err(err) => {
                return Err(err);
            },
        }
        let name = match self.name() {
            Ok(n) => n,
            Err(err) => {
                return Err(err);
            },
        };
        proof {
            self.lemma_bounds();
        }
        let has_init = match self.advance_if(TokenKind::Equal) {
            Ok(b) => b,
            Err(err) => {
                return Err(err);
            },
        };
        let init = if has_init {
            match self.expr_bp(0) {
                Ok(e) => Some(Box::new(e)),
                Err(err) => {
                    return Err(err);
                },
            }
        } else {
            None
        };
        match self.expect(TokenKind::Semicolon) {
            Ok(_) => Ok(Decl::Var(name, init)),
            Err(err) => Err(err),
        }
    }

    /// Parameter names separated by commas.
    fn params(&mut self) -> (r: Result<Vec<Identifier>, ParseError<'a>>)
        requires
            old(self).wf(),
        ensures
            final(self).wf(),
            final(self).text() == old(self).text(),
            match parse_params(old(self).text(), old(self).pos()) {
                Ok((ns, q)) => r is Ok && names_view(r->Ok_0@) == ns && final(self).pos() == q,
                Err(x) => r is Err && error_at(r->Err_0, old(self).text(), x),
            },
            r is Ok ==> old(self).pos() <= final(self).pos(),
    {
        let ghost s = self.text();
        let ghost p0 = self.pos();
        let mut names: Vec<Identifier> = Vec::new();
        assert(prepend(names_view(names@), parse_params(s, p0)) =~= parse_params(s, p0)) by {
            assert(names_view(names@) =~= Seq::<Seq<char>>::empty());
            match parse_params(s, p0) {
                Ok((rest, q)) => {
                    assert(Seq::<Seq<char>>::empty() + rest =~= rest);
                },
                Err(_) => {},
            }
        }
        loop
            invariant
                self.wf(),
                self.text() == s,
                s == old(self).text(),
                p0 == old(self).pos(),
                0 <= p0 <= self.pos() <= s.len(),
                parse_params(s, p0) == prepend(names_view(names@), parse_params(s, self.pos())),
            decreases s.len() - self.pos(),
        {
            proof {
                self.lemma_bounds();
            }
            let ghost before = names@;
            let name = match self.name() {
                Ok(n) => n,
                Err(err) => {
                    return Err(err);
                },
            };
            proof {
                lemma_names_view_push(before, name);
                self.lemma_bounds();
            }
            let token = match self.peek() {
                Ok(t) => t,
                Err(err) => {
                    return Err(err);
                },
            };
            names.push(name);
            if token.kind() != TokenKind::Comma {
                return Ok(names);
            }
            match self.advance() {
                Ok(_) => {},
                Err(err) => {
                    return Err(err);
                },
            }
            proof {
                match parse_params(s, self.pos()) {
                    Ok((rest, q)) => {
                        assert(names_view(before) + (seq![name@] + rest) =~= (names_view(before)
                            + seq![name@]) + rest);
                    },
                    Err(_) => {},
                }
            }
        }
    }

    /// `(`, parameter names separated by commas, `)`.
    fn paren_params(&mut self) -> (r: Result<Vec<Identifier>, ParseError<'a>>)
        requires
            old(self).wf(),
        ensures
            final(self).wf(),
            final(self).text() == old(self).text(),
            match parse_paren_params(old(self).text(), old(self).pos()) {
                Ok((ns, q)) => r is Ok && names_view(r->Ok_0@) == ns && final(self).pos() == q,
                Err(x) => r is Err && error_at(r->Err_0, old(self).text(), x),
            },
            r is Ok ==> old(self).pos() < final(self).pos(),
    {
        proof {
            self.lemma_bounds();
        }
        match self.expect(TokenKind::LParen) {
            Ok(_) => {},
            Err(err) => {
                return Err(err);
            },
        }
        proof {
            self.lemma_bounds();
        }
        let token = match self.peek() {
            Ok(t) => t,
            Err(err) => {
                return Err(err);
            },
        };
        let params = if token.kind() == TokenKind::RParen {
            let v: Vec<Identifier> = Vec::new();
            assert(names_view(v@) =~= Seq::<Seq<char>>::empty());
            v
        } else {
            match self.params() {
                Ok(ps) => ps,
                Err(err) => {
                    return Err(err);
                },
            }
        };
        match self.expect(TokenKind::RParen) {
            Ok(_) => Ok(params),
            Err(err) => Err(err),
        }
    }

    /// `func name(params) { ... }`.
    fn func_decl(&mut self) -> (r: Result<Decl, ParseError<'a>>)
        requires
            old(self).wf(),
        ensures
            final(self).wf(),
            final(self).text() == old(self).text(),
            decl_outcome(r, parse_func_decl(old(self).text(), old(self).pos()), old(self).text()),
            r is Ok ==> final(self).pos() == parse_func_decl(old(self).text(), old(self).pos())->Ok_0.1,
            r is Ok ==> old(self).pos() < final(self).pos(),
        decreases old(self).text().len() - old(self).pos(), 3int,
    {
        proof {
            self.lemma_bounds();
        }
        match self.expect(TokenKind::Func) {
            Ok(_) => {},
            Err(err) => {
                return Err(err);
            },
        }
        let name = match self.name() {
            Ok(n) => n,
            Err(err) => {
                return Err(err);
            },
        };
        let params = match self.paren_params() {
            Ok(ps) => ps,
            Err(err) => {
                return Err(err);
            },
        };
        match self.block() {
            Ok(body) => Ok(Decl::Func(name, params, Box::new(body))),
            Err(err) => Err(err),
        }
    }

    /// Parses the whole source text: declarations up to the end of the input.
    pub fn parse(&mut self) -> (r: Result<Script, ParseError<'a>>)
        requires
            old(self).wf(),
        ensures
            final(self).wf(),
            match parse_script(old(self).text(), old(self).pos()) {
                Ok((ds, _)) => r is Ok && r->Ok_0.view() == ds,
                Err(x) => r is Err && error_at(r->Err_0, old(self).text(), x),
            },
    {
        let ghost s = self.text();
        let ghost p0 = self.pos();
        let mut decls: Vec<Decl> = Vec::new();
        assert(prepend(decls_view(decls@), parse_script(s, p0)) =~= parse_script(s, p0)) by {
            assert(decls_view(decls@) =~= Seq::<SDecl>::empty());
            match parse_script(s, p0) {
                Ok((rest, q)) => {
                    assert(Seq::<SDecl>::empty() + rest =~= rest);
                },
                Err(_) => {},
            }
        }
        loop
            invariant
                self.wf(),
                self.text() == s,
                s == old(self).text(),
                p0 == old(self).pos(),
                0 <= p0 <= self.pos() <= s.len(),
                parse_script(s, p0) == prepend(decls_view(decls@), parse_script(s, self.pos())),
            decreases s.len() - self.pos(),
        {
            let token = match self.peek() {
                Ok(t) => t,
                Err(err) => {
                    return Err(err);
                },
            };
            if token.kind() == TokenKind::Eof {
                assert(decls_view(decls@) + Seq::<SDecl>::empty() =~= decls_view(decls@));
                return Ok(Script { decls });
            }
            let d = match self.decl() {
                Ok(d) => d,
                Err(err) => {
                    return Err(err);
                },
            };
            proof {
                lemma_decls_view_push(decls@, d);
                match parse_script(s, self.pos()) {
                    Ok((rest, q)) => {
                        assert(decls_view(decls@) + (seq![decl_view(d)] + rest) =~= (decls_view(decls@) + seq![decl_view(d)]) + rest);
                    },
                    Err(_) => {},
                }
            }
            decls.push(d);
        }
    }
}

/// Appends how a token kind is named in a message.
fn push_quoted(message: &mut String, k: TokenKind)
    ensures
        final(message)@ == old(message)@ + quoted(k),
{
    if k.is_variable_length() || k == TokenKind::Eof {
        message.append(k.name());
    } else {
        message.append("'");
        message.append(k.name());
        message.append("'");
    }
}

/// The error for a token that cannot begin an expression.
fn unexpected_token<'a>(token: &Token<'a>) -> (r: ParseError<'a>)
    ensures
        r.spec_message() == unexpected_message(token.spec_kind()),
        r.spec_span() == token.spec_span(),
{
    let mut message = String::new();
    message.append("unexpected token ");
    push_quoted(&mut message, token.kind());
    ParseError::new(token, message)
}

/// A syntax error: a message, and the span of the token it concerns.
#[derive(Debug)]
pub struct ParseError<'a> {
    span: Span<'a>,
    message: String,
}

impl<'a> ParseError<'a> {
    pub closed spec fn spec_span(self) -> Span<'a> {
        self.span
    }

    pub closed spec fn spec_message(self) -> Seq<char> {
        self.message@
    }

    pub fn new(token: &Token<'a>, message: String) -> (r: Self)
        ensures
            r.spec_span() == token.spec_span(),
            r.spec_message() == message@,
    {
        Self { span: token.span(), message }
    }

    /// A lexical error met while parsing.
    pub fn from_scan_error(err: ScanError<'a>) -> (r: Self)
        ensures
            r.spec_span() == err.span,
            r.spec_message() == err.message@,
    {
        Self { span: err.span, message: err.message }
    }

    pub fn span(&self) -> (r: Span<'a>)
        ensures
            r == self.spec_span(),
    {
        self.span
    }

    pub fn message(&self) -> (r: &str)
        ensures
            r@ == self.spec_message(),
    {
        self.message.as_str()
    }
}

} // verus!
