//! Tree-walking evaluation of a parsed script against a chain of scopes.
use vstd::prelude::*;

pub mod environment;
pub mod number;
pub mod value;

use self::environment::{
    env_define, env_find, env_get, env_set, scope_find, scope_put, scopes_unique, Bindings,
    Environment,
};
use self::number::{
    canonical, float_add, float_div, float_mul, float_pow, float_rem, float_sub, is_zero, negate, num_le,
    num_lt, number_add, number_div, number_is_zero, number_le, number_lt, number_mul,
    number_negate, number_power, number_rem, number_sub,
};
use self::value::{truthy, values_equal, Value};
use crate::parser::ast::{Decl, Expr, Identifier, Operator, Script, Stmt};

verus! {

/// What can go wrong while a program runs.
#[derive(Debug, Clone, Copy, PartialEq, Eq, Structural)]
pub enum RuntimeError {
    /// An operator applied to a value of the wrong kind.
    InvalidOperand,
    /// `/` or `%` with a zero right operand.
    DivisionByZero,
    /// A read of, or an assignment to, a name that no enclosing scope binds.
    UndefinedVariable,
}

impl RuntimeError {
    /// A description for the user.
    pub fn message(&self) -> (r: &'static str)
        ensures
            *self == RuntimeError::InvalidOperand ==> r@ == "unsupported operand type"@,
            *self == RuntimeError::DivisionByZero ==> r@ == "division by zero is undefined"@,
            *self == RuntimeError::UndefinedVariable ==> r@ == "variable is not defined"@,
    {
        match self {
            RuntimeError::InvalidOperand => "unsupported operand type",
            RuntimeError::DivisionByZero => "division by zero is undefined",
            RuntimeError::UndefinedVariable => "variable is not defined",
        }
    }
}

/// The scopes of a running program, outermost first.
pub type Env = Seq<Bindings>;

/// An ordering or arithmetic operator applied to two numbers.
pub open spec fn numeric_binary(op: Operator, a: u64, b: u64) -> Result<Value, RuntimeError> {
    match op {
        Operator::Lt => Ok(Value::Bool(num_lt(a, b))),
        Operator::Gt => Ok(Value::Bool(num_lt(b, a))),
        Operator::Le => Ok(Value::Bool(num_le(a, b))),
        Operator::Ge => Ok(Value::Bool(num_le(b, a))),
        Operator::Add => Ok(Value::Number(float_add(a, b))),
        Operator::Sub => Ok(Value::Number(float_sub(a, b))),
        Operator::Mul => Ok(Value::Number(float_mul(a, b))),
        Operator::Div => if is_zero(b) {
            Err(RuntimeError::DivisionByZero)
        } else {
            Ok(Value::Number(float_div(a, b)))
        },
        Operator::Mod => if is_zero(b) {
            Err(RuntimeError::DivisionByZero)
        } else {
            Ok(Value::Number(float_rem(a, b)))
        },
        Operator::Exp => Ok(Value::Number(canonical(float_pow(a, b)))),
        _ => Err(RuntimeError::InvalidOperand),
    }
}

/// A binary operator other than `and` and `or`, applied to its two operand values.
/// Equality holds between any two values; the other operators take numbers only. An
/// operator without a binary meaning is an invalid operand.
pub open spec fn eval_binary(op: Operator, l: Value, r: Value) -> Result<Value, RuntimeError> {
    match op {
        Operator::Eq => Ok(Value::Bool(values_equal(l, r))),
        Operator::Ne => Ok(Value::Bool(!values_equal(l, r))),
        _ => match (l, r) {
            (Value::Number(a), Value::Number(b)) => numeric_binary(op, a, b),
            _ => Err(RuntimeError::InvalidOperand),
        },
    }
}

/// A prefix operator applied to its operand value.
pub open spec fn eval_unary(op: Operator, v: Value) -> Result<Value, RuntimeError> {
    match (op, v) {
        (Operator::Not, Value::Bool(b)) => Ok(Value::Bool(!b)),
        (Operator::Sub, Value::Number(n)) => Ok(Value::Number(negate(n))),
        _ => Err(RuntimeError::InvalidOperand),
    }
}

/// Evaluating an expression: its value or error, and the scopes afterwards.
pub open spec fn eval_expr(e: Expr, env: Env) -> (Result<Value, RuntimeError>, Env)
    decreases e,
{
    match e {
        Expr::Literal(v) => (Ok(v), env),
        Expr::Identifier(id) => match env_get(env, id@) {
            Some(v) => (Ok(v), env),
            None => (Err(RuntimeError::UndefinedVariable), env),
        },
        Expr::Assignment(id, rhs) => {
            let (r, env1) = eval_expr(*rhs, env);
            match r {
                Ok(v) => if env_get(env1, id@) is Some {
                    (Ok(v), env_set(env1, id@, v))
                } else {
                    (Err(RuntimeError::UndefinedVariable), env1)
                },
                Err(x) => (Err(x), env1),
            }
        },
        Expr::Binary(op, l, r) => {
            let (lr, env1) = eval_expr(*l, env);
            match lr {
                Err(x) => (Err(x), env1),
                Ok(lv) => if op == Operator::Or && truthy(lv) {
                    (Ok(lv), env1)
                } else if op == Operator::And && !truthy(lv) {
                    (Ok(lv), env1)
                } else if op == Operator::Or || op == Operator::And {
                    eval_expr(*r, env1)
                } else {
                    let (rr, env2) = eval_expr(*r, env1);
                    match rr {
                        Err(x) => (Err(x), env2),
                        Ok(rv) => (eval_binary(op, lv, rv), env2),
                    }
                },
            }
        },
        Expr::Unary(op, x) => {
            let (r, env1) = eval_expr(*x, env);
            match r {
                Err(err) => (Err(err), env1),
                Ok(v) => (eval_unary(op, v), env1),
            }
        },
    }
}

/// Executing a statement: success or the first error, and the scopes afterwards. A block
/// runs in a scope of its own, which is left whether or not an error occurs.
pub open spec fn exec_stmt(s: Stmt, env: Env) -> (Result<(), RuntimeError>, Env)
    decreases s,
{
    match s {
        Stmt::Block(ds) => {
            let (r, env1) = exec_decls(ds@, env.push(Seq::empty()));
            (r, env1.drop_last())
        },
        Stmt::Expr(e) => {
            let (r, env1) = eval_expr(*e, env);
            match r {
                Ok(_) => (Ok(()), env1),
                Err(x) => (Err(x), env1),
            }
        },
        Stmt::If(p, c, a) => {
            let (r, env1) = eval_expr(*p, env);
            match r {
                Err(x) => (Err(x), env1),
                Ok(v) => if truthy(v) {
                    exec_stmt(*c, env1)
                } else {
                    match a {
                        Some(alt) => exec_stmt(*alt, env1),
                        None => (Ok(()), env1),
                    }
                },
            }
        },
    }
}

/// Executing a declaration. A variable is defined in the innermost scope, as `nil` when it
/// has no initializer; a function declaration has no effect on the scopes.
pub open spec fn exec_decl(d: Decl, env: Env) -> (Result<(), RuntimeError>, Env)
    decreases d,
{
    match d {
        Decl::Var(id, init) => match init {
            None => (Ok(()), env_define(env, id@, Value::Nil)),
            Some(e) => {
                let (r, env1) = eval_expr(*e, env);
                match r {
                    Ok(v) => (Ok(()), env_define(env1, id@, v)),
                    Err(x) => (Err(x), env1),
                }
            },
        },
        Decl::Func(..) => (Ok(()), env),
        Decl::Stmt(s) => exec_stmt(*s, env),
    }
}

/// Executing declarations in order, stopping at the first error.
pub open spec fn exec_decls(ds: Seq<Decl>, env: Env) -> (Result<(), RuntimeError>, Env)
    decreases ds,
{
    if ds.len() == 0 {
        (Ok(()), env)
    } else {
        let (r, env1) = exec_decl(ds[0], env);
        match r {
            Err(x) => (Err(x), env1),
            Ok(_) => exec_decls(ds.drop_first(), env1),
        }
    }
}

/// Both operands as numbers, or `InvalidOperand`.
pub fn check_number_operands(a: &Value, b: &Value) -> (r: Result<(u64, u64), RuntimeError>)
    ensures
        match (*a, *b) {
            (Value::Number(x), Value::Number(y)) => r == Ok::<(u64, u64), RuntimeError>((x, y)),
            _ => r == Err::<(u64, u64), RuntimeError>(RuntimeError::InvalidOperand),
        },
{
    match (a, b) {
        (Value::Number(x), Value::Number(y)) => Ok((*x, *y)),
        _ => Err(RuntimeError::InvalidOperand),
    }
}

/// A tree-walking interpreter. Its scopes persist from one script to the next.
#[derive(Debug)]
pub struct Interpreter {
    environment: Environment,
}

impl Default for Interpreter {
    fn default() -> (r: Self)
        ensures
            r.env() == seq![Seq::<(Seq<char>, Value)>::empty()],
            scopes_unique(r.env()),
    {
        Interpreter { environment: Environment::new() }
    }
}

impl Interpreter {
    /// The scopes, outermost first.
    pub closed spec fn env(&self) -> Env {
        self.environment.view()
    }

    pub fn new() -> (r: Self)
        ensures
            r.env() == seq![Seq::<(Seq<char>, Value)>::empty()],
            scopes_unique(r.env()),
    {
        Interpreter { environment: Environment::new() }
    }

    /// The value bound to `name`, as the program would read it.
    pub fn lookup(&self, name: &str) -> (r: Option<Value>)
        ensures
            r == env_get(self.env(), name@),
    {
        self.environment.get(name)
    }

    /// Runs the declarations of a script in order, stopping at the first error.
    pub fn interpret(&mut self, script: &Script) -> (r: Result<(), RuntimeError>)
        requires
            old(self).env().len() >= 1,
        ensures
            (r, final(self).env()) == exec_decls(script.decls@, old(self).env()),
            final(self).env().len() == old(self).env().len(),
            scopes_unique(old(self).env()) ==> scopes_unique(final(self).env()),
    {
        self.decls(&script.decls)
    }

    fn decls(&mut self, ds: &Vec<Decl>) -> (r: Result<(), RuntimeError>)
        requires
            old(self).env().len() >= 1,
        ensures
            (r, final(self).env()) == exec_decls(ds@, old(self).env()),
            final(self).env().len() == old(self).env().len(),
            scopes_unique(old(self).env()) ==> scopes_unique(final(self).env()),
        decreases ds, 0int,
    {
        let mut i: usize = 0;
        assert(ds@.skip(0) =~= ds@);
        while i < ds.len()
            invariant
                0 <= i <= ds.len(),
                old(self).env().len() >= 1,
                self.env().len() == old(self).env().len(),
                scopes_unique(old(self).env()) ==> scopes_unique(self.env()),
                exec_decls(ds@, old(self).env()) == exec_decls(ds@.skip(i as int), self.env()),
            decreases ds.len() - i,
        {
            assert(ds@.skip(i as int)[0] == ds@[i as int]);
            assert(ds@.skip(i as int).drop_first() =~= ds@.skip(i + 1));
            match self.decl(&ds[i]) {
                Ok(()) => {},
                Err(x) => {
                    return Err(x);
                },
            }
            i += 1;
        }
        assert(ds@.skip(i as int) =~= Seq::<Decl>::empty());
        Ok(())
    }

    fn decl(&mut self, d: &Decl) -> (r: Result<(), RuntimeError>)
        requires
            old(self).env().len() >= 1,
        ensures
            (r, final(self).env()) == exec_decl(*d, old(self).env()),
            final(self).env().len() == old(self).env().len(),
            scopes_unique(old(self).env()) ==> scopes_unique(final(self).env()),
        decreases d,
    {
        match d {
            Decl::Var(name, init) => {
                let value = match init {
                    Some(e) => match self.expr(e) {
                        Ok(v) => v,
                        Err(x) => {
                            return Err(x);
                        },
                    },
                    None => Value::Nil,
                };
                self.environment.define(name.as_str(), value);
                Ok(())
            },
            Decl::Func(..) => Ok(()),
            Decl::Stmt(s) => self.stmt(s),
        }
    }

    fn stmt(&mut self, s: &Stmt) -> (r: Result<(), RuntimeError>)
        requires
            old(self).env().len() >= 1,
        ensures
            (r, final(self).env()) == exec_stmt(*s, old(self).env()),
            final(self).env().len() == old(self).env().len(),
            scopes_unique(old(self).env()) ==> scopes_unique(final(self).env()),
        decreases s,
    {
        match s {
            Stmt::Block(ds) => {
                self.environment.push();
                let r = self.decls(ds);
                self.environment.pop();
                r
            },
            Stmt::Expr(e) => match self.expr(e) {
                Ok(_) => Ok(()),
                Err(x) => Err(x),
            },
            Stmt::If(p, c, a) => {
                let v = match self.expr(p) {
                    Ok(v) => v,
                    Err(x) => {
                        return Err(x);
                    },
                };
                if v.is_truthy() {
                    self.stmt(c)
                } else {
                    match a {
                        Some(alt) => self.stmt(alt),
                        None => Ok(()),
                    }
                }
            },
        }
    }

    fn expr(&mut self, e: &Expr) -> (r: Result<Value, RuntimeError>)
        requires
            old(self).env().len() >= 1,
        ensures
            (r, final(self).env()) == eval_expr(*e, old(self).env()),
            final(self).env().len() == old(self).env().len(),
            scopes_unique(old(self).env()) ==> scopes_unique(final(self).env()),
        decreases e,
    {
        match e {
            Expr::Literal(v) => Ok(*v),
            Expr::Identifier(name) => match self.environment.get(name.as_str()) {
                Some(v) => Ok(v),
                None => Err(RuntimeError::UndefinedVariable),
            },
            Expr::Assignment(name, rhs) => {
                let v = match self.expr(rhs) {
                    Ok(v) => v,
                    Err(x) => {
                        return Err(x);
                    },
                };
                match self.environment.set(name.as_str(), v) {
                    Some(_) => Ok(v),
                    None => Err(RuntimeError::UndefinedVariable),
                }
            },
            Expr::Binary(op, l, r) => {
                let lv = match self.expr(l) {
                    Ok(v) => v,
                    Err(x) => {
                        return Err(x);
                    },
                };
                if *op == Operator::Or || *op == Operator::And {
                    let truthy = lv.is_truthy();
                    if (*op == Operator::Or && truthy) || (*op == Operator::And && !truthy) {
                        Ok(lv)
                    } else {
                        self.expr(r)
                    }
                } else {
                    let rv = match self.expr(r) {
                        Ok(v) => v,
                        Err(x) => {
                            return Err(x);
                        },
                    };
                    binary(*op, lv, rv)
                }
            },
            Expr::Unary(op, x) => {
                let v = match self.expr(x) {
                    Ok(v) => v,
                    Err(err) => {
                        return Err(err);
                    },
                };
                unary(*op, v)
            },
        }
    }
}

/// A binary operator other than `and` and `or`, applied to its operand values.
pub fn binary(op: Operator, l: Value, r: Value) -> (res: Result<Value, RuntimeError>)
    ensures
        res == eval_binary(op, l, r),
{
    match op {
        Operator::Eq => Ok(Value::Bool(l.equals(&r))),
        Operator::Ne => Ok(Value::Bool(!l.equals(&r))),
        _ => {
            let (a, b) = match check_number_operands(&l, &r) {
                Ok(pair) => pair,
                Err(x) => {
                    return Err(x);
                },
            };
            match op {
                Operator::Lt => Ok(Value::Bool(number_lt(a, b))),
                Operator::Gt => Ok(Value::Bool(number_lt(b, a))),
                Operator::Le => Ok(Value::Bool(number_le(a, b))),
                Operator::Ge => Ok(Value::Bool(number_le(b, a))),
                Operator::Add => Ok(Value::Number(number_add(a, b))),
                Operator::Sub => Ok(Value::Number(number_sub(a, b))),
                Operator::Mul => Ok(Value::Number(number_mul(a, b))),
                Operator::Div => if number_is_zero(b) {
                    Err(RuntimeError::DivisionByZero)
                } else {
                    Ok(Value::Number(number_div(a, b)))
                },
                Operator::Mod => if number_is_zero(b) {
                    Err(RuntimeError::DivisionByZero)
                } else {
                    Ok(Value::Number(number_rem(a, b)))
                },
                Operator::Exp => Ok(Value::Number(number_power(a, b))),
                _ => Err(RuntimeError::InvalidOperand),
            }
        },
    }
}

/// A prefix operator applied to its operand value.
pub fn unary(op: Operator, v: Value) -> (res: Result<Value, RuntimeError>)
    ensures
        res == eval_unary(op, v),
{
    match (op, v) {
        (Operator::Not, Value::Bool(b)) => Ok(Value::Bool(!b)),
        (Operator::Sub, Value::Number(n)) => Ok(Value::Number(number_negate(n))),
        _ => Err(RuntimeError::InvalidOperand),
    }
}

} // verus!

verus! {

/// Short-circuit: when the left operand of `and` is falsy, or that of `or` truthy, the
/// result is that operand, whatever the right operand is; the right operand is not
/// evaluated, so none of its errors or effects occurs.
pub proof fn lemma_short_circuit(op: Operator, l: Expr, r: Expr, env: Env)
    requires
        op == Operator::And || op == Operator::Or,
        eval_expr(l, env).0 is Ok,
        op == Operator::And ==> !truthy(eval_expr(l, env).0->Ok_0),
        op == Operator::Or ==> truthy(eval_expr(l, env).0->Ok_0),
    ensures
        eval_expr(Expr::Binary(op, Box::new(l), Box::new(r)), env) == eval_expr(l, env),
{
}

/// Scoping: a block that defines a name and then assigns to it leaves the scopes around it
/// as they were, whether or not an outer scope binds the same name.
pub proof fn lemma_block_scoping(
    block: Stmt,
    x: Identifier,
    y: Identifier,
    first: Value,
    second: Value,
    env: Env,
)
    requires
        env.len() >= 1,
        x@ == y@,
        block matches Stmt::Block(ds) && ds@ == seq![
            Decl::Var(x, Some(Box::new(Expr::Literal(first)))),
            Decl::Stmt(Box::new(Stmt::Expr(Box::new(Expr::Assignment(y, Box::new(Expr::Literal(second))))))),
        ],
    ensures
        exec_stmt(block, env) == (Ok::<(), RuntimeError>(()), env),
{
    let ds = match block {
        Stmt::Block(ds) => ds,
        _ => arbitrary(),
    };
    let inner = env.push(Seq::<(Seq<char>, Value)>::empty());
    let defined = env_define(inner, x@, first);
    assert(scope_find(Seq::<(Seq<char>, Value)>::empty(), x@) == -1);
    assert(seq![(x@, first)].drop_last() =~= Seq::<(Seq<char>, Value)>::empty());
    assert(scope_find(seq![(x@, first)], x@) == 0);
    assert(defined == env.push(seq![(x@, first)]));
    let assigned = env_set(defined, x@, second);
    assert(defined.last() == seq![(x@, first)]);
    assert(env_find(defined, x@) == defined.len() - 1);
    assert(env_get(defined, x@) == Some(first));
    assert(seq![(x@, first)].update(0, (x@, second)) =~= seq![(x@, second)]);
    assert(scope_put(seq![(x@, first)], x@, second) == seq![(x@, second)]);
    assert(assigned =~= env.push(seq![(x@, second)]));
    let assign = Expr::Assignment(y, Box::new(Expr::Literal(second)));
    assert(eval_expr(Expr::Literal(second), defined) == (Ok::<Value, RuntimeError>(second), defined));
    assert(eval_expr(assign, defined) == (Ok::<Value, RuntimeError>(second), assigned));
    let st = Stmt::Expr(Box::new(assign));
    assert(exec_stmt(st, defined) == (Ok::<(), RuntimeError>(()), assigned));
    assert(exec_decl(Decl::Stmt(Box::new(st)), defined) == (Ok::<(), RuntimeError>(()), assigned));
    assert(ds@.drop_first()[0] == Decl::Stmt(Box::new(st)));
    assert(ds@.drop_first().drop_first() =~= Seq::<Decl>::empty());
    assert(exec_decls(ds@.drop_first().drop_first(), assigned) == (Ok::<(), RuntimeError>(()), assigned));
    assert(exec_decls(ds@.drop_first(), defined) == (Ok::<(), RuntimeError>(()), assigned));
    let var = Decl::Var(x, Some(Box::new(Expr::Literal(first))));
    assert(eval_expr(Expr::Literal(first), inner) == (Ok::<Value, RuntimeError>(first), inner));
    assert(exec_decl(var, inner) == (Ok::<(), RuntimeError>(()), defined));
    assert(ds@[0] == var);
    assert(exec_decls(ds@, inner) == (Ok::<(), RuntimeError>(()), assigned));
    assert(env.push(seq![(x@, second)]).drop_last() =~= env);
}

} // verus!
