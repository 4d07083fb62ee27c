//! Lexical scopes: a chain of name-to-value bindings, innermost last.
use vstd::prelude::*;

use super::value::Value;

verus! {

/// The bindings of one scope, in the order they were made.
pub type Bindings = Seq<(Seq<char>, Value)>;

/// The index of the last binding of `name` in a scope, or -1.
pub open spec fn scope_find(b: Bindings, name: Seq<char>) -> int
    decreases b.len(),
{
    if b.len() == 0 {
        -1
    } else if b.last().0 == name {
        b.len() - 1
    } else {
        scope_find(b.drop_last(), name)
    }
}

/// The value bound to `name` in one scope.
pub open spec fn scope_get(b: Bindings, name: Seq<char>) -> Option<Value> {
    let i = scope_find(b, name);
    if i < 0 {
        None
    } else {
        Some(b[i].1)
    }
}

/// A scope with `name` bound to `v`: its binding replaced in place, or a new one added.
pub open spec fn scope_put(b: Bindings, name: Seq<char>, v: Value) -> Bindings {
    let i = scope_find(b, name);
    if i < 0 {
        b.push((name, v))
    } else {
        b.update(i, (name, v))
    }
}

/// The index of the innermost scope (the last) that binds `name`, or -1.
pub open spec fn env_find(env: Seq<Bindings>, name: Seq<char>) -> int
    decreases env.len(),
{
    if env.len() == 0 {
        -1
    } else if scope_find(env.last(), name) >= 0 {
        env.len() - 1
    } else {
        env_find(env.drop_last(), name)
    }
}

/// The value bound to `name` by the innermost scope that binds it.
pub open spec fn env_get(env: Seq<Bindings>, name: Seq<char>) -> Option<Value> {
    let k = env_find(env, name);
    if k < 0 {
        None
    } else {
        scope_get(env[k], name)
    }
}

/// The scopes with `v` stored in the innermost binding of `name`; unchanged where no scope
/// binds it.
pub open spec fn env_set(env: Seq<Bindings>, name: Seq<char>, v: Value) -> Seq<Bindings> {
    let k = env_find(env, name);
    if k < 0 {
        env
    } else {
        env.update(k, scope_put(env[k], name, v))
    }
}

/// `name` bound to `v` in the innermost scope, whatever outer scopes hold.
pub open spec fn env_define(env: Seq<Bindings>, name: Seq<char>, v: Value) -> Seq<Bindings> {
    env.update(env.len() - 1, scope_put(env.last(), name, v))
}

/// No name is bound twice in one scope.
pub open spec fn scope_unique(b: Bindings) -> bool {
    forall|i: int, j: int| 0 <= i < j < b.len() ==> b[i].0 != b[j].0
}

/// No name is bound twice in any one scope.
pub open spec fn scopes_unique(env: Seq<Bindings>) -> bool {
    forall|k: int| 0 <= k < env.len() ==> scope_unique(#[trigger] env[k])
}

/// Binding a name in a scope keeps its names unique.
pub proof fn lemma_scope_put_unique(b: Bindings, name: Seq<char>, v: Value)
    requires
        scope_unique(b),
    ensures
        scope_unique(scope_put(b, name, v)),
{
    lemma_scope_find_bounds(b, name);
    let r = scope_put(b, name, v);
    assert forall|i: int, j: int| 0 <= i < j < r.len() implies r[i].0 != r[j].0 by {
        if scope_find(b, name) < 0 {
            if j == b.len() {
                assert(b[i].0 != name);
            } else {
                assert(r[i] == b[i] && r[j] == b[j]);
            }
        }
    }
}

/// Storing into scope `k` with `scope_put` keeps every scope's names unique.
proof fn lemma_update_unique(env: Seq<Bindings>, k: int, name: Seq<char>, v: Value)
    requires
        scopes_unique(env),
        0 <= k < env.len(),
    ensures
        scopes_unique(env.update(k, scope_put(env[k], name, v))),
{
    lemma_scope_put_unique(env[k], name, v);
}

/// The scopes after defining each of `bs`, in order, in the innermost scope.
pub open spec fn define_all(env: Seq<Bindings>, bs: Seq<(Seq<char>, Value)>) -> Seq<Bindings>
    decreases bs.len(),
{
    if bs.len() == 0 {
        env
    } else {
        define_all(env_define(env, bs[0].0, bs[0].1), bs.drop_first())
    }
}

proof fn lemma_define_all_outer(env: Seq<Bindings>, bs: Seq<(Seq<char>, Value)>)
    requires
        env.len() >= 1,
    ensures
        define_all(env, bs).len() == env.len(),
        define_all(env, bs).drop_last() == env.drop_last(),
    decreases bs.len(),
{
    if bs.len() > 0 {
        let next = env_define(env, bs[0].0, bs[0].1);
        assert(next.drop_last() =~= env.drop_last());
        lemma_define_all_outer(next, bs.drop_first());
    }
}

/// Scoping: whatever is defined in a block's own scope is gone when the block is left.
/// Entering a scope, defining any names in it and leaving it again gives back the scopes
/// as they were, so every name reads as before.
pub proof fn lemma_block_defines_vanish(env: Seq<Bindings>, bs: Seq<(Seq<char>, Value)>)
    ensures
        define_all(env.push(Seq::empty()), bs).drop_last() == env,
        forall|name: Seq<char>|
            env_get(#[trigger] define_all(env.push(Seq::empty()), bs).drop_last(), name)
                == env_get(env, name),
{
    lemma_define_all_outer(env.push(Seq::empty()), bs);
    assert(env.push(Seq::<(Seq<char>, Value)>::empty()).drop_last() =~= env);
}

pub open spec fn scope_view(s: Seq<(String, Value)>) -> Bindings {
    s.map_values(|e: (String, Value)| (e.0@, e.1))
}

proof fn lemma_scope_find_bounds(b: Bindings, name: Seq<char>)
    ensures
        -1 <= scope_find(b, name) < b.len(),
        scope_find(b, name) >= 0 ==> b[scope_find(b, name)].0 == name,
        forall|j: int| scope_find(b, name) < j < b.len() ==> b[j].0 != name,
    decreases b.len(),
{
    if b.len() > 0 && b.last().0 != name {
        lemma_scope_find_bounds(b.drop_last(), name);
        assert forall|j: int| scope_find(b, name) < j < b.len() implies b[j].0 != name by {
            if j < b.len() - 1 {
                assert(b.drop_last()[j] == b[j]);
            }
        }
    }
}

proof fn lemma_env_find_bounds(env: Seq<Bindings>, name: Seq<char>)
    ensures
        -1 <= env_find(env, name) < env.len(),
        env_find(env, name) >= 0 ==> scope_find(env[env_find(env, name)], name) >= 0,
        forall|k: int| env_find(env, name) < k < env.len() ==> scope_find(env[k], name) < 0,
    decreases env.len(),
{
    if env.len() > 0 && scope_find(env.last(), name) < 0 {
        lemma_env_find_bounds(env.drop_last(), name);
        assert forall|k: int| env_find(env, name) < k < env.len() implies scope_find(
            env[k],
            name,
        ) < 0 by {
            if k < env.len() - 1 {
                assert(env.drop_last()[k] == env[k]);
            }
        }
    }
}

/// The index of the last entry of `scope` named `name`.
fn find_in_scope(scope: &Vec<(String, Value)>, name: &str) -> (r: Option<usize>)
    ensures
        r is None <==> scope_find(scope_view(scope@), name@) < 0,
        r is Some ==> r->0 == scope_find(scope_view(scope@), name@),
        r is Some ==> r->0 < scope@.len(),
{
    let ghost b = scope_view(scope@);
    proof {
        lemma_scope_find_bounds(b, name@);
    }
    let key = name.to_owned();
    let mut i: usize = scope.len();
    while i > 0
        invariant
            key@ == name@,
            i <= scope.len(),
            b == scope_view(scope@),
            scope_find(b, name@) < i,
            -1 <= scope_find(b, name@) < b.len(),
            forall|j: int| scope_find(b, name@) < j < b.len() ==> b[j].0 != name@,
            scope_find(b, name@) >= 0 ==> b[scope_find(b, name@)].0 == name@,
        decreases i,
    {
        i -= 1;
        if scope[i].0 == key {
            assert(b[i as int] == (scope@[i as int].0@, scope@[i as int].1));
            return Some(i);
        } else {
            assert(b[i as int] == (scope@[i as int].0@, scope@[i as int].1));
        }
    }
    None
}

/// The index of the innermost scope that binds `name`.
fn find_scope(scopes: &Vec<Vec<(String, Value)>>, name: &str) -> (r: Option<usize>)
    ensures
        r is None <==> env_find(scopes@.map_values(|s: Vec<(String, Value)>| scope_view(s@)), name@) < 0,
        r is Some ==> r->0 == env_find(scopes@.map_values(|s: Vec<(String, Value)>| scope_view(s@)), name@),
        r is Some ==> r->0 < scopes@.len(),
        r is Some ==> scope_find(scope_view(scopes@[r->0 as int]@), name@) >= 0,
{
    let ghost env = scopes@.map_values(|s: Vec<(String, Value)>| scope_view(s@));
    proof {
        lemma_env_find_bounds(env, name@);
    }
    let mut k: usize = scopes.len();
    while k > 0
        invariant
            k <= scopes.len(),
            env == scopes@.map_values(|s: Vec<(String, Value)>| scope_view(s@)),
            env_find(env, name@) < k,
            -1 <= env_find(env, name@) < env.len(),
            forall|j: int| env_find(env, name@) < j < env.len() ==> scope_find(env[j], name@) < 0,
            env_find(env, name@) >= 0 ==> scope_find(env[env_find(env, name@)], name@) >= 0,
        decreases k,
    {
        k -= 1;
        assert(env[k as int] == scope_view(scopes@[k as int]@));
        if find_in_scope(&scopes[k], name).is_some() {
            return Some(k);
        }
    }
    None
}

/// A chain of scopes, innermost last. There is always at least the global scope.
#[derive(Debug)]
pub struct Environment {
    scopes: Vec<Vec<(String, Value)>>,
}

impl Environment {
    /// The scopes, outermost first.
    pub closed spec fn view(&self) -> Seq<Bindings> {
        self.scopes@.map_values(|s: Vec<(String, Value)>| scope_view(s@))
    }

    pub open spec fn wf(&self) -> bool {
        self.view().len() >= 1
    }

    /// An environment with one empty scope.
    pub fn new() -> (r: Self)
        ensures
            r.view() == seq![Seq::<(Seq<char>, Value)>::empty()],
            scopes_unique(r.view()),
    {
        let mut scopes: Vec<Vec<(String, Value)>> = Vec::new();
        scopes.push(Vec::new());
        let r = Environment { scopes };
        assert(r.view()[0] =~= Seq::<(Seq<char>, Value)>::empty());
        assert(r.view() =~= seq![Seq::<(Seq<char>, Value)>::empty()]);
        r
    }

    /// Binds `name` in the innermost scope, replacing a binding of it there.
    pub fn define(&mut self, name: &str, value: Value)
        requires
            old(self).wf(),
        ensures
            final(self).view() == env_define(old(self).view(), name@, value),
            final(self).view().len() == old(self).view().len(),
            scopes_unique(old(self).view()) ==> scopes_unique(final(self).view()),
    {
        proof {
            if scopes_unique(self.view()) {
                lemma_update_unique(self.view(), self.view().len() - 1, name@, value);
            }
        }
        let last = self.scopes.len() - 1;
        match find_in_scope(&self.scopes[last], name) {
            Some(j) => {
                self.scopes[last][j] = (name.to_owned(), value);
            },
            None => {
                self.scopes[last].push((name.to_owned(), value));
            },
        }
        assert(self.view()[last as int] =~= env_define(old(self).view(), name@, value)[last as int]);
        assert(self.view() =~= env_define(old(self).view(), name@, value));
    }

    /// The value of the innermost binding of `name`.
    pub fn get(&self, name: &str) -> (r: Option<Value>)
        ensures
            r == env_get(self.view(), name@),
    {
        match find_scope(&self.scopes, name) {
            Some(k) => {
                let j = find_in_scope(&self.scopes[k], name).unwrap();
                Some(self.scopes[k][j].1)
            },
            None => None,
        }
    }

    /// Stores `value` in the innermost binding of `name` and returns what it held; `None`,
    /// and no change, where no scope binds `name`.
    pub fn set(&mut self, name: &str, value: Value) -> (r: Option<Value>)
        ensures
            r == env_get(old(self).view(), name@),
            final(self).view() == env_set(old(self).view(), name@, value),
            r is None ==> final(self).view() == old(self).view(),
            final(self).view().len() == old(self).view().len(),
            scopes_unique(old(self).view()) ==> scopes_unique(final(self).view()),
    {
        proof {
            lemma_env_find_bounds(self.view(), name@);
            if scopes_unique(self.view()) && env_find(self.view(), name@) >= 0 {
                lemma_update_unique(self.view(), env_find(self.view(), name@), name@, value);
            }
        }
        match find_scope(&self.scopes, name) {
            Some(k) => {
                let j = find_in_scope(&self.scopes[k], name).unwrap();
                let previous = self.scopes[k][j].1;
                self.scopes[k][j] = (name.to_owned(), value);
                assert(self.view()[k as int] =~= env_set(old(self).view(), name@, value)[k as int]);
                assert(self.view() =~= env_set(old(self).view(), name@, value));
                Some(previous)
            },
            None => None,
        }
    }

    /// Enters a block: a new, empty innermost scope.
    pub fn push(&mut self)
        ensures
            final(self).view() == old(self).view().push(Seq::<(Seq<char>, Value)>::empty()),
            scopes_unique(old(self).view()) ==> scopes_unique(final(self).view()),
    {
        self.scopes.push(Vec::new());
        assert(self.view().last() =~= Seq::<(Seq<char>, Value)>::empty());
        assert(self.view() =~= old(self).view().push(Seq::<(Seq<char>, Value)>::empty()));
    }

    /// Leaves a block: drops the innermost scope. The global scope is never dropped.
    pub fn pop(&mut self)
        requires
            old(self).view().len() >= 2,
        ensures
            final(self).view() == old(self).view().drop_last(),
            scopes_unique(old(self).view()) ==> scopes_unique(final(self).view()),
    {
        self.scopes.pop();
        assert(self.view() =~= old(self).view().drop_last());
    }
}

impl Default for Environment {
    fn default() -> (r: Self)
        ensures
            r.view() == seq![Seq::<(Seq<char>, Value)>::empty()],
    {
        Environment::new()
    }
}

} // verus!
