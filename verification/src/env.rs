//! The environment: a chain of scopes mapping symbol names to expressions.
//!
//! Scopes live in one arena vector and point to their enclosing scope by
//! index, so a child scope created for a lambda call can be pushed and
//! popped without borrowing across the evaluation of the body.

use vstd::prelude::*;

use crate::exp::exp_model;
use crate::exp::str_eq;
use crate::exp::ExpModel;
use crate::exp::RispBuiltin;
use crate::exp::RispExp;

verus! {

/// One scope: its bindings in insertion order, and the arena index of the
/// enclosing scope (`None` for the root scope).
pub struct RispScope {
    entries: Vec<(String, RispExp)>,
    outer: Option<usize>,
}

/// The model of one scope.
pub struct ScopeModel {
    pub table: Seq<(Seq<char>, ExpModel)>,
    pub outer: Option<int>,
}

/// An environment: the arena of scopes and the index of the innermost
/// (current) scope.
pub struct RispEnv {
    scopes: Vec<RispScope>,
    cur: usize,
}

/// The model of an environment.
pub struct EnvModel {
    pub scopes: Seq<ScopeModel>,
    pub cur: int,
}

/// The model of a scope: each binding as a pair of name and value model.
pub closed spec fn scope_model(s: RispScope) -> ScopeModel {
    ScopeModel {
        table: Seq::new(
            s.entries@.len(),
            |i: int| (s.entries@[i].0@, exp_model(s.entries@[i].1)),
        ),
        outer: match s.outer {
            Option::Some(j) => Option::Some(j as int),
            Option::None => Option::None,
        },
    }
}

/// A well-formed environment model: the current index is in range and
/// every scope's outer pointer goes to an earlier slot of the arena.
pub open spec fn env_wf_model(m: EnvModel) -> bool {
    &&& 0 <= m.cur < m.scopes.len()
    &&& forall|i: int|
        0 <= i < m.scopes.len() ==> (#[trigger] m.scopes[i].outer matches Option::Some(j) ==> 0
            <= j < i)
}

/// The value bound to `k` in the scope's own table: the binding written
/// last wins.
pub open spec fn table_find(table: Seq<(Seq<char>, ExpModel)>, k: Seq<char>) -> Option<ExpModel>
    decreases table.len(),
{
    if table.len() == 0 {
        Option::None
    } else if table.last().0 == k {
        Option::Some(table.last().1)
    } else {
        table_find(table.drop_last(), k)
    }
}

/// Chain lookup starting at scope `i`: the innermost scope that binds `k`
/// wins; an out-of-range or cyclic outer pointer ends the search.
pub open spec fn env_lookup_at(m: EnvModel, i: int, k: Seq<char>) -> Option<ExpModel>
    decreases i,
{
    if i < 0 || i >= m.scopes.len() {
        Option::None
    } else {
        match table_find(m.scopes[i].table, k) {
            Option::Some(v) => Option::Some(v),
            Option::None => match m.scopes[i].outer {
                Option::Some(j) => if 0 <= j < i {
                    env_lookup_at(m, j, k)
                } else {
                    Option::None
                },
                Option::None => Option::None,
            },
        }
    }
}

/// The value bound to `k`, searching from the current scope outwards.
pub open spec fn env_lookup(m: EnvModel, k: Seq<char>) -> Option<ExpModel> {
    env_lookup_at(m, m.cur, k)
}

/// The environment after `def`: one binding appended to the current
/// scope's table; every other scope is untouched.
pub open spec fn env_bind_model(m: EnvModel, k: Seq<char>, v: ExpModel) -> EnvModel {
    EnvModel {
        scopes: m.scopes.update(
            m.cur,
            ScopeModel { table: m.scopes[m.cur].table.push((k, v)), outer: m.scopes[m.cur].outer },
        ),
        cur: m.cur,
    }
}

/// The table of a child scope: each parameter name bound to the matching
/// argument value.
pub open spec fn zip_table(names: Seq<Seq<char>>, vals: Seq<ExpModel>) -> Seq<
    (Seq<char>, ExpModel),
> {
    Seq::new(names.len(), |i: int| (names[i], vals[i]))
}

/// The environment after entering a lambda call: a fresh scope holding the
/// parameter bindings, whose outer pointer is the scope current at the
/// call site, becomes current.
pub open spec fn env_push_model(m: EnvModel, names: Seq<Seq<char>>, vals: Seq<ExpModel>) -> EnvModel {
    EnvModel {
        scopes: m.scopes.push(ScopeModel { table: zip_table(names, vals), outer: Option::Some(m.cur) }),
        cur: m.scopes.len() as int,
    }
}

/// The environment after leaving a lambda call: the child scope is
/// discarded and `prev` becomes current again.
pub open spec fn env_pop_model(m: EnvModel, prev: int) -> EnvModel {
    EnvModel { scopes: m.scopes.drop_last(), cur: prev }
}

/// The bindings of the default environment: the builtin table.
pub open spec fn builtins_table() -> Seq<(Seq<char>, ExpModel)> {
    seq![
        ("+"@, ExpModel::Func(RispBuiltin::Add)),
        ("-"@, ExpModel::Func(RispBuiltin::Sub)),
        ("="@, ExpModel::Func(RispBuiltin::NumEq)),
        (">"@, ExpModel::Func(RispBuiltin::Gt)),
        (">="@, ExpModel::Func(RispBuiltin::Gte)),
        ("<"@, ExpModel::Func(RispBuiltin::Lt)),
        ("<="@, ExpModel::Func(RispBuiltin::Lte)),
    ]
}

/// The model of the default environment: one root scope holding exactly
/// the builtins.
pub open spec fn default_env_model() -> EnvModel {
    EnvModel {
        scopes: seq![ScopeModel { table: builtins_table(), outer: Option::None }],
        cur: 0,
    }
}

impl RispEnv {
    /// The model of this environment.
    pub closed spec fn model(&self) -> EnvModel {
        EnvModel {
            scopes: Seq::new(self.scopes@.len(), |i: int| scope_model(self.scopes@[i])),
            cur: self.cur as int,
        }
    }

    /// A well-formed environment.
    pub open spec fn wf(&self) -> bool {
        env_wf_model(self.model())
    }

    /// The arena index of the current scope.
    pub fn cur_index(&self) -> (i: usize)
        ensures
            i as int == self.model().cur,
    {
        self.cur
    }

    /// Looks `key` up along the scope chain, innermost first; returns a
    /// copy of the first binding found, exactly as `env_lookup` states.
    pub fn get(&self, key: &str) -> (r: Option<RispExp>)
        requires
            self.wf(),
        ensures
            match r {
                Option::Some(v) => env_lookup(self.model(), key@) == Option::Some(v.deep_view()),
                Option::None => env_lookup(self.model(), key@) is None,
            },
    {
        let mut i: usize = self.cur;
        loop
            invariant
                self.wf(),
                i < self.scopes.len(),
                env_lookup(self.model(), key@) == env_lookup_at(self.model(), i as int, key@),
            decreases i,
        {
            let sc = &self.scopes[i];
            let ghost tbl = self.model().scopes[i as int].table;
            let mut j: usize = sc.entries.len();
            proof {
                assert(tbl.take(j as int) =~= tbl);
            }
            while j > 0
                invariant
                    self.wf(),
                    i < self.scopes.len(),
                    *sc == self.scopes@[i as int],
                    tbl == self.model().scopes[i as int].table,
                    env_lookup(self.model(), key@) == env_lookup_at(
                        self.model(),
                        i as int,
                        key@,
                    ),
                    j <= sc.entries@.len(),
                    tbl.len() == sc.entries@.len(),
                    table_find(tbl, key@) == table_find(tbl.take(j as int), key@),
                decreases j,
            {
                if str_eq(sc.entries[j - 1].0.as_str(), key) {
                    let v = sc.entries[j - 1].1.clone();
                    proof {
                        assert(tbl[j - 1] == (sc.entries@[j - 1].0@, exp_model(
                            sc.entries@[j - 1].1,
                        )));
                        assert(tbl.take(j as int).last() == tbl[j - 1]);
                        assert(tbl.take(j as int).last().0 == key@);
                        assert(table_find(tbl, key@) == Option::Some(exp_model(
                            sc.entries@[j - 1].1,
                        )));
                        assert(env_lookup_at(self.model(), i as int, key@) == Option::Some(
                            v.deep_view(),
                        ));
                    }
                    return Option::Some(v);
                }
                proof {
                    assert(tbl.take(j as int).drop_last() =~= tbl.take(j - 1));
                    assert(tbl.take(j as int).last() == tbl[j - 1]);
                }
                j = j - 1;
            }
            proof {
                assert(tbl.take(0) =~= Seq::<(Seq<char>, ExpModel)>::empty());
            }
            match sc.outer {
                Option::Some(o) => {
                    i = o;
                },
                Option::None => {
                    return Option::None;
                },
            }
        }
    }

    /// Builds the root environment, holding exactly the builtin table.
    pub fn default_env() -> (env: RispEnv)
        ensures
            env.wf(),
            env.model() == default_env_model(),
    {
        let mut entries: Vec<(String, RispExp)> = Vec::new();
        entries.push(("+".to_owned(), RispExp::Func(RispBuiltin::Add)));
        entries.push(("-".to_owned(), RispExp::Func(RispBuiltin::Sub)));
        entries.push(("=".to_owned(), RispExp::Func(RispBuiltin::NumEq)));
        entries.push((">".to_owned(), RispExp::Func(RispBuiltin::Gt)));
        entries.push((">=".to_owned(), RispExp::Func(RispBuiltin::Gte)));
        entries.push(("<".to_owned(), RispExp::Func(RispBuiltin::Lt)));
        entries.push(("<=".to_owned(), RispExp::Func(RispBuiltin::Lte)));
        let root = RispScope { entries, outer: Option::None };
        let mut scopes: Vec<RispScope> = Vec::new();
        scopes.push(root);
        let env = RispEnv { scopes, cur: 0 };
        proof {
            assert(scope_model(env.scopes@[0]).table =~= builtins_table());
            assert(env.model().scopes =~= default_env_model().scopes);
            assert(env.model() == default_env_model());
        }
        env
    }

    /// Appends one binding to the current scope, as `env_bind_model`
    /// states; this is the effect of `def`.
    pub fn bind(&mut self, name: String, value: RispExp)
        requires
            old(self).wf(),
        ensures
            final(self).wf(),
            final(self).model() == env_bind_model(old(self).model(), name@, value.deep_view()),
    {
        let ghost before = self.model();
        let ghost v = value.deep_view();
        let c = self.cur;
        let sc = &mut self.scopes[c];
        sc.entries.push((name, value));
        proof {
            assert(scope_model(self.scopes@[c as int]).table =~= before.scopes[c as int].table.push(
                (name@, v),
            ));
            assert(self.model().scopes =~= env_bind_model(before, name@, v).scopes);
            assert(self.model() == env_bind_model(before, name@, v));
        }
    }

    /// Enters a child scope binding each name to the matching value, with
    /// the current scope as its outer scope, as `env_push_model` states.
    pub fn push_scope(&mut self, names: Vec<String>, vals: Vec<RispExp>)
        requires
            old(self).wf(),
            names@.len() == vals@.len(),
        ensures
            final(self).wf(),
            final(self).model() == env_push_model(
                old(self).model(),
                names.deep_view(),
                vals.deep_view(),
            ),
    {
        let ghost before = self.model();
        let ghost ns = names.deep_view();
        let ghost vs = vals.deep_view();
        let mut entries: Vec<(String, RispExp)> = Vec::new();
        let n = names.len();
        let mut k: usize = 0;
        while k < n
            invariant
                n == names@.len(),
                names@.len() == vals@.len(),
                ns == names.deep_view(),
                vs == vals.deep_view(),
                k <= n,
                entries@.len() == k as int,
                forall|t: int|
                    0 <= t < k as int ==> (#[trigger] entries@[t]).0@ == ns[t] && exp_model(
                        entries@[t].1,
                    ) == vs[t],
            decreases n - k,
        {
            let name = names[k].clone();
            let val = vals[k].clone();
            entries.push((name, val));
            k = k + 1;
        }
        let child = RispScope { entries, outer: Option::Some(self.cur) };
        self.scopes.push(child);
        self.cur = self.scopes.len() - 1;
        proof {
            assert(scope_model(self.scopes@[before.scopes.len() as int]).table =~= zip_table(
                ns,
                vs,
            ));
            assert(self.model().scopes =~= env_push_model(before, ns, vs).scopes);
            assert(self.model() == env_push_model(before, ns, vs));
        }
    }

    /// Leaves a child scope: drops the newest scope and makes `prev` the
    /// current scope again, as `env_pop_model` states.
    pub fn pop_scope(&mut self, prev: usize)
        requires
            old(self).wf(),
            old(self).model().scopes.len() >= 2,
            (prev as int) < old(self).model().scopes.len() - 1,
        ensures
            final(self).wf(),
            final(self).model() == env_pop_model(old(self).model(), prev as int),
    {
        let ghost before = self.model();
        self.scopes.pop();
        self.cur = prev;
        proof {
            assert(self.model().scopes =~= env_pop_model(before, prev as int).scopes);
            assert(self.model() == env_pop_model(before, prev as int));
        }
    }
}

impl Default for RispEnv {
    /// The root environment, pre-populated with the builtins.
    fn default() -> (env: RispEnv)
        ensures
            env.wf(),
            env.model() == default_env_model(),
    {
        RispEnv::default_env()
    }
}

} // verus!
