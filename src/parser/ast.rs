//! The syntax tree, and its mathematical form used to state what the parser builds.
use vstd::prelude::*;

use crate::interpreter::value::Value;

use super::token::TokenKind;

verus! {

/// A whole program: its declarations, in order.
#[derive(Debug, PartialEq)]
pub struct Script {
    pub decls: Vec<Decl>,
}

#[derive(Debug, PartialEq)]
pub enum Decl {
    /// `let name = init;`, the initializer optional.
    Var(Identifier, Option<Box<Expr>>),
    /// `func name(params) body`.
    Func(Identifier, Vec<Identifier>, Box<Stmt>),
    Stmt(Box<Stmt>),
}

#[derive(Debug, PartialEq)]
pub enum Stmt {
    /// Neither the consequent nor the alternative is a declaration.
    If(Box<Expr>, Box<Stmt>, Option<Box<Stmt>>),
    Expr(Box<Expr>),
    Block(Vec<Decl>),
}

#[derive(Debug, PartialEq)]
pub enum Expr {
    Literal(Value),
    Identifier(Identifier),
    /// The target of an assignment is always a name.
    Assignment(Identifier, Box<Expr>),
    Binary(Operator, Box<Expr>, Box<Expr>),
    Unary(Operator, Box<Expr>),
}

/// A name in the program.
#[derive(Debug, Clone, PartialEq, Eq)]
pub struct Identifier(String);

impl View for Identifier {
    type V = Seq<char>;

    closed spec fn view(&self) -> Seq<char> {
        self.0@
    }
}

impl Identifier {
    pub fn new(name: &str) -> (r: Self)
        ensures
            r@ == name@,
    {
        Identifier(name.to_owned())
    }

    pub fn as_str(&self) -> (r: &str)
        ensures
            r@ == self@,
    {
        self.0.as_str()
    }
}

#[derive(Debug, Clone, Copy, PartialEq, Eq, Structural)]
pub enum Operator {
    Assign,
    Or,
    And,
    Not,
    Eq,
    Ne,
    Lt,
    Gt,
    Le,
    Ge,
    Add,
    Sub,
    Mul,
    Div,
    Mod,
    Exp,
}

/// The binding power of an operator in prefix position, if it has one.
pub open spec fn prefix_bp(op: Operator) -> Option<u8> {
    match op {
        Operator::Not => Some(7u8),
        Operator::Sub => Some(19u8),
        _ => None,
    }
}

/// The left and right binding powers of an operator in infix position, if it has them.
pub open spec fn infix_bp(op: Operator) -> Option<(u8, u8)> {
    match op {
        Operator::Assign => Some((2u8, 1u8)),
        Operator::Or => Some((3u8, 4u8)),
        Operator::And => Some((5u8, 6u8)),
        Operator::Eq | Operator::Ne => Some((9u8, 10u8)),
        Operator::Lt | Operator::Gt | Operator::Le | Operator::Ge => Some((11u8, 12u8)),
        Operator::Add | Operator::Sub => Some((13u8, 14u8)),
        Operator::Mul | Operator::Div | Operator::Mod => Some((15u8, 16u8)),
        Operator::Exp => Some((18u8, 17u8)),
        _ => None,
    }
}

/// The operator that a token kind denotes, if any.
pub open spec fn operator_of(k: TokenKind) -> Option<Operator> {
    match k {
        TokenKind::Equal => Some(Operator::Assign),
        TokenKind::Or => Some(Operator::Or),
        TokenKind::And => Some(Operator::And),
        TokenKind::Not => Some(Operator::Not),
        TokenKind::EqualEqual => Some(Operator::Eq),
        TokenKind::BangEqual => Some(Operator::Ne),
        TokenKind::Less => Some(Operator::Lt),
        TokenKind::Greater => Some(Operator::Gt),
        TokenKind::LessEqual => Some(Operator::Le),
        TokenKind::GreaterEqual => Some(Operator::Ge),
        TokenKind::Plus => Some(Operator::Add),
        TokenKind::Minus => Some(Operator::Sub),
        TokenKind::Star => Some(Operator::Mul),
        TokenKind::Slash => Some(Operator::Div),
        TokenKind::Percent => Some(Operator::Mod),
        TokenKind::StarStar => Some(Operator::Exp),
        _ => None,
    }
}

impl Operator {
    pub fn is_prefix(self) -> (r: bool)
        ensures
            r == (prefix_bp(self) is Some),
    {
        matches!(self, Operator::Not | Operator::Sub)
    }

    pub fn is_infix(self) -> (r: bool)
        ensures
            r == (infix_bp(self) is Some),
    {
        !matches!(self, Operator::Not)
    }

    pub fn prefix_binding_power(self) -> (r: Option<((), u8)>)
        ensures
            r is Some <==> prefix_bp(self) is Some,
            r is Some ==> (r->0).1 == prefix_bp(self)->0,
    {
        match self {
            Operator::Not => Some(((), 7)),
            Operator::Sub => Some(((), 19)),
            _ => None,
        }
    }

    pub fn infix_binding_power(self) -> (r: Option<(u8, u8)>)
        ensures
            r == infix_bp(self),
    {
        match self {
            Operator::Assign => Some((2, 1)),
            Operator::Or => Some((3, 4)),
            Operator::And => Some((5, 6)),
            Operator::Eq | Operator::Ne => Some((9, 10)),
            Operator::Lt | Operator::Gt | Operator::Le | Operator::Ge => Some((11, 12)),
            Operator::Add | Operator::Sub => Some((13, 14)),
            Operator::Mul | Operator::Div | Operator::Mod => Some((15, 16)),
            Operator::Exp => Some((18, 17)),
            Operator::Not => None,
        }
    }

    /// The operator that a token kind denotes, if any.
    pub fn from_kind(kind: TokenKind) -> (r: Option<Operator>)
        ensures
            r == operator_of(kind),
    {
        match kind {
            TokenKind::Equal => Some(Operator::Assign),
            TokenKind::Or => Some(Operator::Or),
            TokenKind::And => Some(Operator::And),
            TokenKind::Not => Some(Operator::Not),
            TokenKind::EqualEqual => Some(Operator::Eq),
            TokenKind::BangEqual => Some(Operator::Ne),
            TokenKind::Less => Some(Operator::Lt),
            TokenKind::Greater => Some(Operator::Gt),
            TokenKind::LessEqual => Some(Operator::Le),
            TokenKind::GreaterEqual => Some(Operator::Ge),
            TokenKind::Plus => Some(Operator::Add),
            TokenKind::Minus => Some(Operator::Sub),
            TokenKind::Star => Some(Operator::Mul),
            TokenKind::Slash => Some(Operator::Div),
            TokenKind::Percent => Some(Operator::Mod),
            TokenKind::StarStar => Some(Operator::Exp),
            _ => None,
        }
    }
}

} // verus!

verus! {

/// The mathematical form of an expression: names as character sequences.
pub enum SExpr {
    Literal(Value),
    Ident(Seq<char>),
    Assign(Seq<char>, Box<SExpr>),
    Binary(Operator, Box<SExpr>, Box<SExpr>),
    Unary(Operator, Box<SExpr>),
}

/// The mathematical form of a statement.
pub enum SStmt {
    If(SExpr, Box<SStmt>, Option<Box<SStmt>>),
    Expr(SExpr),
    Block(Seq<SDecl>),
}

/// The mathematical form of a declaration.
pub enum SDecl {
    Var(Seq<char>, Option<SExpr>),
    Func(Seq<char>, Seq<Seq<char>>, SStmt),
    Stmt(SStmt),
}

pub open spec fn expr_view(e: Expr) -> SExpr
    decreases e,
{
    match e {
        Expr::Literal(v) => SExpr::Literal(v),
        Expr::Identifier(id) => SExpr::Ident(id@),
        Expr::Assignment(id, rhs) => SExpr::Assign(id@, Box::new(expr_view(*rhs))),
        Expr::Binary(op, l, r) => SExpr::Binary(op, Box::new(expr_view(*l)), Box::new(expr_view(*r))),
        Expr::Unary(op, x) => SExpr::Unary(op, Box::new(expr_view(*x))),
    }
}

pub open spec fn stmt_view(s: Stmt) -> SStmt
    decreases s, 0int,
{
    match s {
        Stmt::If(p, c, a) => SStmt::If(
            expr_view(*p),
            Box::new(stmt_view(*c)),
            match a {
                Some(alt) => Some(Box::new(stmt_view(*alt))),
                None => None,
            },
        ),
        Stmt::Expr(e) => SStmt::Expr(expr_view(*e)),
        Stmt::Block(ds) => SStmt::Block(decls_view(ds@)),
    }
}

pub open spec fn decl_view(d: Decl) -> SDecl
    decreases d, 0int,
{
    match d {
        Decl::Var(id, init) => SDecl::Var(
            id@,
            match init {
                Some(e) => Some(expr_view(*e)),
                None => None,
            },
        ),
        Decl::Func(id, params, body) => SDecl::Func(id@, names_view(params@), stmt_view(*body)),
        Decl::Stmt(s) => SDecl::Stmt(stmt_view(*s)),
    }
}

pub open spec fn decls_view(ds: Seq<Decl>) -> Seq<SDecl>
    decreases ds, 0int,
{
    if ds.len() == 0 {
        Seq::empty()
    } else {
        seq![decl_view(ds[0])] + decls_view(ds.drop_first())
    }
}

pub open spec fn names_view(ns: Seq<Identifier>) -> Seq<Seq<char>>
    decreases ns.len(),
{
    if ns.len() == 0 {
        Seq::empty()
    } else {
        seq![ns[0]@] + names_view(ns.drop_first())
    }
}

impl Script {
    pub open spec fn view(&self) -> Seq<SDecl> {
        decls_view(self.decls@)
    }
}

} // verus!

verus! {

pub proof fn lemma_decls_view_push(ds: Seq<Decl>, d: Decl)
    ensures
        decls_view(ds.push(d)) == decls_view(ds) + seq![decl_view(d)],
    decreases ds.len(),
{
    assert(decls_view(Seq::<Decl>::empty()) =~= Seq::<SDecl>::empty());
    assert(ds.push(d)[0] == if ds.len() == 0 {
        d
    } else {
        ds[0]
    });
    if ds.len() == 0 {
        assert(ds.push(d).drop_first() =~= Seq::<Decl>::empty());
        assert(decls_view(ds.push(d)) =~= decls_view(ds) + seq![decl_view(d)]);
    } else {
        assert(ds.push(d).drop_first() =~= ds.drop_first().push(d));
        lemma_decls_view_push(ds.drop_first(), d);
        assert(decls_view(ds.push(d)) =~= decls_view(ds) + seq![decl_view(d)]);
    }
}

pub proof fn lemma_names_view_push(ns: Seq<Identifier>, n: Identifier)
    ensures
        names_view(ns.push(n)) == names_view(ns) + seq![n@],
    decreases ns.len(),
{
    assert(names_view(Seq::<Identifier>::empty()) =~= Seq::<Seq<char>>::empty());
    assert(ns.push(n)[0] == if ns.len() == 0 {
        n
    } else {
        ns[0]
    });
    if ns.len() == 0 {
        assert(ns.push(n).drop_first() =~= Seq::<Identifier>::empty());
        assert(names_view(ns.push(n)) =~= names_view(ns) + seq![n@]);
    } else {
        assert(ns.push(n).drop_first() =~= ns.drop_first().push(n));
        lemma_names_view_push(ns.drop_first(), n);
        assert(names_view(ns.push(n)) =~= names_view(ns) + seq![n@]);
    }
}

} // verus!
