use vstd::prelude::*;

use crate::error::{RuntimeError, SRuntimeError};
use crate::frontend::lexer::token::{LitVal, SLit, SToken, Token, string_of};

verus! {

/// The model of one scope: names bound to values, in the order first bound.
pub type SScope = Seq<(Seq<char>, SLit)>;

/// The index of `k` in scope `s` at or after `i`, or -1.
pub open spec fn find_from(s: SScope, k: Seq<char>, i: int) -> int
    decreases s.len() - i,
{
    if i < 0 || i >= s.len() {
        -1
    } else if s[i].0 == k {
        i
    } else {
        find_from(s, k, i + 1)
    }
}

pub open spec fn scope_find(s: SScope, k: Seq<char>) -> int {
    find_from(s, k, 0)
}

/// Binds `k` to `v` in scope `s`: replaces the binding of `k`, or adds one.
pub open spec fn scope_set(s: SScope, k: Seq<char>, v: SLit) -> SScope {
    let i = scope_find(s, k);
    if i >= 0 { s.update(i, (k, v)) } else { s.push((k, v)) }
}

/// The value of `k` in the innermost scope (first in `env`) that binds it.
pub open spec fn env_get(env: Seq<SScope>, k: Seq<char>) -> Option<SLit>
    decreases env.len(),
{
    if env.len() == 0 {
        None
    } else if scope_find(env[0], k) >= 0 {
        Some(env[0][scope_find(env[0], k)].1)
    } else {
        env_get(env.drop_first(), k)
    }
}

/// Rebinds `k` to `v` in the innermost scope that binds it; `None` when no
/// scope does.
pub open spec fn env_assign(env: Seq<SScope>, k: Seq<char>, v: SLit) -> Option<Seq<SScope>>
    decreases env.len(),
{
    if env.len() == 0 {
        None
    } else if scope_find(env[0], k) >= 0 {
        Some(env.update(0, env[0].update(scope_find(env[0], k), (k, v))))
    } else {
        match env_assign(env.drop_first(), k, v) {
            Some(rest) => Some(seq![env[0]] + rest),
            None => None,
        }
    }
}

/// Binds `k` to `v` in the innermost scope.
pub open spec fn env_define(env: Seq<SScope>, k: Seq<char>, v: SLit) -> Seq<SScope> {
    env.update(0, scope_set(env[0], k, v))
}

/// Rebinding keeps the number of scopes.
pub proof fn lemma_assign_len(env: Seq<SScope>, k: Seq<char>, v: SLit)
    ensures
        env_assign(env, k, v) matches Some(e) ==> e.len() == env.len(),
    decreases env.len(),
{
    if env.len() > 0 && scope_find(env[0], k) < 0 {
        lemma_assign_len(env.drop_first(), k, v);
    }
}

proof fn lemma_find_from(s: SScope, k: Seq<char>, i: int)
    requires
        0 <= i,
    ensures
        find_from(s, k, i) == -1 || (i <= find_from(s, k, i) < s.len() && s[find_from(s, k, i)].0 == k),
        find_from(s, k, i) == -1 ==> forall|j: int| i <= j < s.len() ==> s[j].0 != k,
    decreases s.len() - i,
{
    if i < s.len() && s[i].0 != k {
        lemma_find_from(s, k, i + 1);
    }
}

/// What `find_from` gives when `s[i]` is the first entry from `a` on that binds `k`.
proof fn lemma_find_is(s: SScope, k: Seq<char>, a: int, i: int)
    requires
        0 <= a <= i < s.len(),
        s[i].0 == k,
        forall|j: int| a <= j < i ==> s[j].0 != k,
    ensures
        find_from(s, k, a) == i,
    decreases i - a,
{
    if a < i {
        lemma_find_is(s, k, a + 1, i);
    }
}

/// No entry before the one `find_from` gives binds `k`.
proof fn lemma_find_before(s: SScope, k: Seq<char>, a: int)
    requires
        0 <= a,
        find_from(s, k, a) >= 0,
    ensures
        forall|j: int| a <= j < find_from(s, k, a) ==> s[j].0 != k,
    decreases s.len() - a,
{
    if a < s.len() && s[a].0 != k {
        lemma_find_before(s, k, a + 1);
    }
}

proof fn lemma_scope_set(s: SScope, k: Seq<char>, v: SLit, k2: Seq<char>)
    ensures
        scope_find(scope_set(s, k, v), k) >= 0,
        scope_set(s, k, v)[scope_find(scope_set(s, k, v), k)].1 == v,
        k2 != k ==> ((scope_find(scope_set(s, k, v), k2) >= 0) == (scope_find(s, k2) >= 0)),
        k2 != k && scope_find(s, k2) >= 0 ==>
            scope_set(s, k, v)[scope_find(scope_set(s, k, v), k2)].1 == s[scope_find(s, k2)].1,
{
    let s2 = scope_set(s, k, v);
    lemma_find_from(s, k, 0);
    lemma_find_from(s, k2, 0);
    let i = scope_find(s, k);
    if i >= 0 {
        lemma_find_before(s, k, 0);
        lemma_find_is(s2, k, 0, i);
    } else {
        lemma_find_is(s2, k, 0, s.len() as int);
    }
    if k2 != k {
        lemma_find_same(s, s2, k2, 0);
    }
}

/// Two scopes that agree on which entries bind `k` and on those entries find
/// the same binding for it.
proof fn lemma_find_same(s: SScope, s2: SScope, k: Seq<char>, i: int)
    requires
        0 <= i,
        s.len() <= s2.len(),
        forall|j: int| 0 <= j < s.len() ==> (s[j].0 == k) == (s2[j].0 == k),
        forall|j: int| 0 <= j < s.len() && s[j].0 == k ==> s2[j] == s[j],
        forall|j: int| s.len() <= j < s2.len() ==> s2[j].0 != k,
    ensures
        find_from(s2, k, i) == find_from(s, k, i),
    decreases s2.len() - i,
{
    if i < s2.len() {
        lemma_find_same(s, s2, k, i + 1);
    }
}

/// No name is bound twice in the scope.
pub open spec fn scope_unique(s: SScope) -> bool {
    forall|i: int, j: int| 0 <= i < j < s.len() ==> (#[trigger] s[i]).0 != (#[trigger] s[j]).0
}

/// No scope of the chain binds a name twice: the invariant of an environment,
/// which every operation on it keeps.
pub open spec fn env_unique(env: Seq<SScope>) -> bool {
    forall|k: int| 0 <= k < env.len() ==> scope_unique(#[trigger] env[k])
}

proof fn lemma_scope_set_unique(s: SScope, k: Seq<char>, v: SLit)
    requires
        scope_unique(s),
    ensures
        scope_unique(scope_set(s, k, v)),
{
    lemma_find_from(s, k, 0);
}

/// Defining a name keeps every scope free of repeated names.
pub proof fn law_define_unique(env: Seq<SScope>, k: Seq<char>, v: SLit)
    requires
        env.len() >= 1,
        env_unique(env),
    ensures
        env_unique(env_define(env, k, v)),
{
    lemma_scope_set_unique(env[0], k, v);
    let e2 = env_define(env, k, v);
    assert forall|j: int| 0 <= j < e2.len() implies scope_unique(#[trigger] e2[j]) by {
        if j > 0 {
            assert(e2[j] == env[j]);
        }
    }
}

/// A successful assignment keeps every scope free of repeated names.
pub proof fn law_assign_unique(env: Seq<SScope>, k: Seq<char>, v: SLit)
    requires
        env_unique(env),
    ensures
        env_assign(env, k, v) matches Some(e2) ==> env_unique(e2),
    decreases env.len(),
{
    if env.len() > 0 {
        if scope_find(env[0], k) >= 0 {
            let s = env[0];
            let i = scope_find(s, k);
            lemma_find_from(s, k, 0);
            let s2 = s.update(i, (k, v));
            assert(scope_unique(s2)) by {
                assert forall|a: int, b: int| 0 <= a < b < s2.len() implies (#[trigger] s2[a]).0 != (#[trigger] s2[b]).0 by {
                    assert(s2[a].0 == s[a].0);
                    assert(s2[b].0 == s[b].0);
                    assert(s[a].0 != s[b].0);
                }
            }
            let e2 = env.update(0, s2);
            assert forall|j: int| 0 <= j < e2.len() implies scope_unique(#[trigger] e2[j]) by {
                if j > 0 {
                    assert(e2[j] == env[j]);
                }
            }
        } else {
            let rest = env.drop_first();
            assert forall|j: int| 0 <= j < rest.len() implies scope_unique(#[trigger] rest[j]) by {
                assert(rest[j] == env[j + 1]);
            }
            law_assign_unique(rest, k, v);
            match env_assign(rest, k, v) {
                Some(r2) => {
                    let e2 = seq![env[0]] + r2;
                    assert forall|j: int| 0 <= j < e2.len() implies scope_unique(#[trigger] e2[j]) by {
                        if j == 0 {
                            assert(e2[0] == env[0]);
                        } else {
                            assert(e2[j] == r2[j - 1]);
                        }
                    }
                },
                None => {},
            }
        }
    }
}

/// A name bound by `define` reads back as the value given.
pub proof fn law_get_after_define(env: Seq<SScope>, k: Seq<char>, v: SLit)
    requires
        env.len() >= 1,
    ensures
        env_get(env_define(env, k, v), k) == Some(v),
{
    lemma_scope_set(env[0], k, v, k);
}

/// Defining a name leaves every other name as it was.
pub proof fn law_define_keeps_others(env: Seq<SScope>, k: Seq<char>, v: SLit, k2: Seq<char>)
    requires
        env.len() >= 1,
        k2 != k,
    ensures
        env_get(env_define(env, k, v), k2) == env_get(env, k2),
{
    lemma_scope_set(env[0], k, v, k2);
    assert(env_define(env, k, v).drop_first() =~= env.drop_first());
}

/// Defining a name touches only the innermost scope.
pub proof fn law_define_inner_only(env: Seq<SScope>, k: Seq<char>, v: SLit)
    requires
        env.len() >= 1,
    ensures
        env_define(env, k, v).len() == env.len(),
        env_define(env, k, v).drop_first() == env.drop_first(),
{
    assert(env_define(env, k, v).drop_first() =~= env.drop_first());
}

/// Assignment fails exactly when no scope binds the name.
pub proof fn law_assign_fails_iff_undefined(env: Seq<SScope>, k: Seq<char>, v: SLit)
    ensures
        env_assign(env, k, v) is None <==> env_get(env, k) is None,
    decreases env.len(),
{
    if env.len() > 0 && scope_find(env[0], k) < 0 {
        law_assign_fails_iff_undefined(env.drop_first(), k, v);
    }
}

/// After a successful assignment the name reads back as the value assigned.
pub proof fn law_get_after_assign(env: Seq<SScope>, k: Seq<char>, v: SLit)
    ensures
        env_assign(env, k, v) matches Some(e2) ==> env_get(e2, k) == Some(v),
    decreases env.len(),
{
    if env.len() > 0 {
        if scope_find(env[0], k) >= 0 {
            let s = env[0];
            let i = scope_find(s, k);
            let s2 = s.update(i, (k, v));
            lemma_find_from(s, k, 0);
            lemma_find_before(s, k, 0);
            lemma_find_is(s2, k, 0, i);
            let e2 = env.update(0, s2);
            assert(e2[0] == s2);
        } else {
            law_get_after_assign(env.drop_first(), k, v);
            match env_assign(env.drop_first(), k, v) {
                Some(rest) => {
                    let e2 = seq![env[0]] + rest;
                    assert(e2[0] == env[0]);
                    assert(e2.drop_first() =~= rest);
                },
                None => {},
            }
        }
    }
}

/// The error for a name that no scope binds.
pub open spec fn undefined_error(name: SToken) -> SRuntimeError {
    SRuntimeError { tkn: name, msg: "Undefined variable '"@ + name.lex + "'."@ }
}

/// A chain of scopes: the bindings of this scope and the enclosing chain.
#[derive(Debug)]
pub struct Environment {
    vals: Vec<(String, LitVal)>,
    enclosing: Option<Box<Environment>>,
}

pub open spec fn scope_view(v: Seq<(String, LitVal)>) -> SScope {
    Seq::new(v.len(), |i: int| (v[i].0@, v[i].1@))
}

pub closed spec fn env_view(e: Environment) -> Seq<SScope>
    decreases e,
{
    match e.enclosing {
        Some(b) => seq![scope_view(e.vals@)] + env_view(*b),
        None => seq![scope_view(e.vals@)],
    }
}

impl View for Environment {
    type V = Seq<SScope>;

    open spec fn view(&self) -> Seq<SScope> {
        env_view(*self)
    }
}

proof fn lemma_env_nonempty(e: Environment)
    ensures
        env_view(e).len() >= 1,
        env_view(e)[0] == scope_view(e.vals@),
{
}

/// A chain of scopes always has at least one.
pub proof fn lemma_env_len(e: Environment)
    ensures
        e@.len() >= 1,
{
    lemma_env_nonempty(e);
}

impl Environment {
    /// The outermost scope, with no bindings.
    pub fn global() -> (r: Environment)
        ensures
            r@ == seq![Seq::<(Seq<char>, SLit)>::empty()],
            env_unique(r@),
    {
        let r = Environment { vals: Vec::new(), enclosing: None };
        assert(scope_view(r.vals@) =~= Seq::<(Seq<char>, SLit)>::empty());
        assert(r@[0] == Seq::<(Seq<char>, SLit)>::empty());
        r
    }

    /// A new empty scope inside `enclosing`.
    pub fn enclose(enclosing: Environment) -> (r: Environment)
        ensures
            r@ == seq![Seq::<(Seq<char>, SLit)>::empty()] + enclosing@,
            env_unique(enclosing@) ==> env_unique(r@),
    {
        let ghost e0 = enclosing@;
        let r = Environment { vals: Vec::new(), enclosing: Some(Box::new(enclosing)) };
        assert(scope_view(r.vals@) =~= Seq::<(Seq<char>, SLit)>::empty());
        proof {
            if env_unique(e0) {
                assert forall|j: int| 0 <= j < r@.len() implies scope_unique(#[trigger] r@[j]) by {
                    if j > 0 {
                        assert(r@[j] == e0[j - 1]);
                    }
                }
            }
        }
        r
    }

    /// Takes out the enclosing chain, if any.
    pub fn take_enc(&mut self) -> (r: Option<Environment>)
        ensures
            old(self)@.len() > 1 ==> (r matches Some(e) && e@ == old(self)@.drop_first()),
            env_unique(old(self)@) ==> (r matches Some(e) ==> env_unique(e@)),
            old(self)@.len() == 1 ==> r is None,
    {
        proof { lemma_env_nonempty(*self); }
        match self.enclosing.take() {
            Some(b) => {
                proof { lemma_env_nonempty(*b); }
                assert(old(self)@.drop_first() =~= b@);
                Some(*b)
            },
            None => None,
        }
    }

    fn find(&self, name: &String) -> (r: Option<usize>)
        ensures
            match r {
                Some(i) => scope_find(scope_view(self.vals@), name@) == i as int && i < self.vals.len(),
                None => scope_find(scope_view(self.vals@), name@) == -1,
            },
    {
        let ghost s = scope_view(self.vals@);
        let mut i: usize = 0;
        while i < self.vals.len()
            invariant
                i <= self.vals.len(),
                s == scope_view(self.vals@),
                find_from(s, name@, 0) == find_from(s, name@, i as int),
            decreases self.vals.len() - i,
        {
            if self.vals[i].0 == *name {
                return Some(i);
            }
            i += 1;
        }
        None
    }

    /// Binds `name` to `val` in this scope, replacing a binding of the same name.
    pub fn define(&mut self, name: &String, val: LitVal)
        ensures
            final(self)@ == env_define(old(self)@, name@, val@),
            env_unique(old(self)@) ==> env_unique(final(self)@),
    {
        proof {
            lemma_env_nonempty(*self);
            if env_unique(self@) {
                law_define_unique(self@, name@, val@);
            }
        }
        let ghost s = scope_view(self.vals@);
        let ghost vv = val@;
        match self.find(name) {
            Some(i) => {
                self.vals.set(i, (name.clone(), val));
                assert(scope_view(self.vals@) =~= s.update(i as int, (name@, vv)));
            },
            None => {
                self.vals.push((name.clone(), val));
                assert(scope_view(self.vals@) =~= s.push((name@, vv)));
            },
        }
        proof { lemma_env_nonempty(*self); }
        assert(self@ =~= env_define(old(self)@, name@, vv));
    }

    /// Rebinds `name` in the innermost scope that binds it, or gives the
    /// error that no scope does.
    pub fn assign(&mut self, name: &Token, val: LitVal) -> (r: Result<(), RuntimeError>)
        ensures
            match env_assign(old(self)@, name@.lex, val@) {
                Some(env) => r is Ok && final(self)@ == env,
                None => r matches Err(e) && e@ == undefined_error(name@) && final(self)@ == old(self)@,
            },
            env_unique(old(self)@) ==> env_unique(final(self)@),
        decreases old(self)@.len(),
    {
        proof {
            lemma_env_nonempty(*self);
            if env_unique(self@) {
                law_assign_unique(self@, name@.lex, val@);
            }
        }
        let ghost vv = val@;
        let ghost s = scope_view(self.vals@);
        match self.find(&name.lex) {
            Some(i) => {
                self.vals.set(i, (name.lex.clone(), val));
                assert(scope_view(self.vals@) =~= s.update(i as int, (name@.lex, vv)));
                proof { lemma_env_nonempty(*self); }
                assert(self@ =~= old(self)@.update(0, s.update(i as int, (name@.lex, vv))));
                return Ok(());
            },
            None => {},
        }
        match self.enclosing.take() {
            Some(b) => {
                let mut enc = *b;
                proof { lemma_env_nonempty(enc); }
                assert(old(self)@.drop_first() =~= enc@);
                let r = enc.assign(name, val);
                self.enclosing = Some(Box::new(enc));
                proof { lemma_env_nonempty(*self); }
                if r.is_ok() {
                    assert(self@ =~= seq![s] + enc@);
                } else {
                    assert(self@ =~= old(self)@);
                }
                r
            },
            None => {
                assert(self@.drop_first() =~= Seq::<SScope>::empty());
                assert(env_get(self@.drop_first(), name@.lex) is None);
                assert(env_assign(self@.drop_first(), name@.lex, vv) is None);
                let mut m = string_of("Undefined variable '");
                m.append(name.lex.as_str());
                m.append("'.");
                Err(RuntimeError::with_msg(name, m))
            },
        }
    }

    /// The value bound to `name` in the innermost scope that binds it, or
    /// the error that no scope does.
    pub fn get(&self, name: &Token) -> (r: Result<LitVal, RuntimeError>)
        ensures
            match env_get(self@, name@.lex) {
                Some(v) => r matches Ok(x) && x@ == v,
                None => r matches Err(e) && e@ == undefined_error(name@),
            },
        decreases self@.len(),
    {
        proof { lemma_env_nonempty(*self); }
        match self.find(&name.lex) {
            Some(i) => return Ok(self.vals[i].1.copy()),
            None => {},
        }
        match &self.enclosing {
            Some(b) => {
                proof { lemma_env_nonempty(**b); }
                assert(self@.drop_first() =~= b@);
                b.get(name)
            },
            None => {
                assert(self@.drop_first() =~= Seq::<SScope>::empty());
                assert(env_get(self@.drop_first(), name@.lex) is None);
                let mut m = string_of("Undefined variable '");
                m.append(name.lex.as_str());
                m.append("'.");
                Err(RuntimeError::with_msg(name, m))
            },
        }
    }
}

} // verus!
