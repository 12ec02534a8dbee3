//! CSS custom properties in scope while the styling pass walks the tree.
//!
//! Each node may bring a scope of variable bindings; a variable's value is the one bound
//! last, by the innermost scope that binds it. Scopes are left in the reverse order in
//! which they were entered.

use vstd::prelude::*;

use crate::css::rules::vars_view;
use crate::interner::strings_view;

verus! {

/// The values that one scope binds to `name`, in binding order.
pub open spec fn scope_values(sc: Seq<(Seq<char>, Seq<char>)>, name: Seq<char>) -> Seq<Seq<char>>
    decreases sc.len(),
{
    if sc.len() == 0 {
        Seq::empty()
    } else {
        let rest = scope_values(sc.drop_last(), name);
        if sc.last().0 == name {
            rest.push(sc.last().1)
        } else {
            rest
        }
    }
}

/// All values bound to `name` by a stack of scopes, outermost scope first.
pub open spec fn values_for(scopes: Seq<(usize, Seq<(Seq<char>, Seq<char>)>)>, name: Seq<char>) -> Seq<Seq<char>>
    decreases scopes.len(),
{
    if scopes.len() == 0 {
        Seq::empty()
    } else {
        values_for(scopes.drop_last(), name) + scope_values(scopes.last().1, name)
    }
}

/// The current value of `name`: the last value bound to it, if any.
pub open spec fn lookup(scopes: Seq<(usize, Seq<(Seq<char>, Seq<char>)>)>, name: Seq<char>) -> Option<Seq<char>> {
    let vs = values_for(scopes, name);
    if vs.len() == 0 {
        Option::None
    } else {
        Option::Some(vs.last())
    }
}

/// `scopes` without its innermost scopes that were entered at a node after `limit`.
pub open spec fn prune_scopes(scopes: Seq<(usize, Seq<(Seq<char>, Seq<char>)>)>, limit: usize) -> Seq<(usize, Seq<(Seq<char>, Seq<char>)>)>
    decreases scopes.len(),
{
    if scopes.len() > 0 && scopes.last().0 > limit {
        prune_scopes(scopes.drop_last(), limit)
    } else {
        scopes
    }
}

/// The variables in scope, with a stack of values for each name and the history of
/// scopes that lets the innermost one be left.
pub struct VariableContext {
    /// For each variable name, its values from outermost to innermost binding.
    css_vars: Vec<(String, Vec<String>)>,
    /// For each scope, the node that entered it and the names it bound.
    scope_history: Vec<(usize, Vec<String>)>,
    /// The scopes, outermost first, each with its node and bindings.
    scopes: Ghost<Seq<(usize, Seq<(Seq<char>, Seq<char>)>)>>,
}

impl View for VariableContext {
    type V = Seq<(usize, Seq<(Seq<char>, Seq<char>)>)>;

    closed spec fn view(&self) -> Seq<(usize, Seq<(Seq<char>, Seq<char>)>)> {
        self.scopes@
    }
}

/// The values bound to `m` by the first `j` bindings of the innermost scope have been
/// removed from its stack.
spec fn remaining(full: Seq<Seq<char>>, sc: Seq<(Seq<char>, Seq<char>)>, j: int, m: Seq<char>) -> Seq<Seq<char>> {
    full.take(full.len() - scope_values(sc.take(j), m).len())
}

proof fn lemma_scope_values_step(sc: Seq<(Seq<char>, Seq<char>)>, j: int, m: Seq<char>)
    requires
        0 <= j < sc.len(),
    ensures
        scope_values(sc.take(j + 1), m) == if sc[j].0 == m {
            scope_values(sc.take(j), m).push(sc[j].1)
        } else {
            scope_values(sc.take(j), m)
        },
{
    assert(sc.take(j + 1).drop_last() =~= sc.take(j));
}

proof fn lemma_scope_values_prefix(sc: Seq<(Seq<char>, Seq<char>)>, j: int, m: Seq<char>)
    requires
        0 <= j <= sc.len(),
    ensures
        scope_values(sc.take(j), m).len() <= scope_values(sc, m).len(),
    decreases sc.len() - j,
{
    if j < sc.len() {
        lemma_scope_values_step(sc, j, m);
        lemma_scope_values_prefix(sc, j + 1, m);
    } else {
        assert(sc.take(j) =~= sc);
    }
}

proof fn lemma_values_for_push(scopes: Seq<(usize, Seq<(Seq<char>, Seq<char>)>)>, s: (usize, Seq<(Seq<char>, Seq<char>)>), m: Seq<char>)
    ensures
        values_for(scopes.push(s), m) == values_for(scopes, m) + scope_values(s.1, m),
{
    assert(scopes.push(s).drop_last() =~= scopes);
}

/// The history records, for each scope, its node and the names it binds; no scope is empty.
spec fn history_ok(history: Seq<(usize, Vec<String>)>, scopes: Seq<(usize, Seq<(Seq<char>, Seq<char>)>)>) -> bool {
    &&& history.len() == scopes.len()
    &&& forall|i: int| #![trigger history[i]] 0 <= i < scopes.len() ==> {
        &&& history[i].0 == scopes[i].0
        &&& history[i].1@.len() == scopes[i].1.len()
        &&& scopes[i].1.len() > 0
        &&& forall|k: int| 0 <= k < scopes[i].1.len() ==> #[trigger] history[i].1@[k]@ == scopes[i].1[k].0
    }
}

/// Each name has one entry, whose stack is `f` of the name and is not empty, and every
/// name for which `f` is not empty has an entry.
spec fn stacks_ok(css_vars: Seq<(String, Vec<String>)>, f: spec_fn(Seq<char>) -> Seq<Seq<char>>) -> bool {
    &&& forall|i: int, j: int| 0 <= i < css_vars.len() && 0 <= j < css_vars.len() && i != j
        ==> #[trigger] css_vars[i].0@ != #[trigger] css_vars[j].0@
    &&& forall|i: int| #![trigger css_vars[i]] 0 <= i < css_vars.len() ==> {
        &&& strings_view(css_vars[i].1@) == f(css_vars[i].0@)
        &&& css_vars[i].1@.len() > 0
    }
    &&& forall|m: Seq<char>| #[trigger] f(m).len() > 0
        ==> exists|i: int| 0 <= i < css_vars.len() && #[trigger] css_vars[i].0@ == m
}

impl VariableContext {
    /// The stacks agree with the scopes, every name has one non-empty stack, and the
    /// history records each scope's node and names.
    pub closed spec fn wf(&self) -> bool {
        &&& history_ok(self.scope_history@, self.scopes@)
        &&& stacks_ok(self.css_vars@, |m: Seq<char>| values_for(self.scopes@, m))
    }

    /// Creates an empty context.
    pub fn new() -> (r: Self)
        ensures
            r.wf(),
            r@ == Seq::<(usize, Seq<(Seq<char>, Seq<char>)>)>::empty(),
    {
        Self { css_vars: Vec::new(), scope_history: Vec::new(), scopes: Ghost(Seq::empty()) }
    }

    /// Empties the context.
    pub fn clear(&mut self)
        ensures
            final(self).wf(),
            final(self)@ == Seq::<(usize, Seq<(Seq<char>, Seq<char>)>)>::empty(),
    {
        self.css_vars.clear();
        self.scope_history.clear();
        self.scopes = Ghost(Seq::empty());
    }

    /// The number of scopes entered and not yet left.
    pub fn depth(&self) -> (r: usize)
        requires
            self.wf(),
        ensures
            r == self@.len(),
    {
        self.scope_history.len()
    }

    fn find(&self, name: &String) -> (r: Option<usize>)
        ensures
            match r {
                Option::Some(i) => i < self.css_vars@.len() && self.css_vars@[i as int].0@ == name@,
                Option::None => forall|i: int| 0 <= i < self.css_vars@.len() ==> #[trigger] self.css_vars@[i].0@ != name@,
            },
    {
        let n = self.css_vars.len();
        let mut i: usize = 0;
        while i < n
            invariant
                n == self.css_vars@.len(),
                0 <= i <= n,
                forall|k: int| 0 <= k < i ==> #[trigger] self.css_vars@[k].0@ != name@,
            decreases n - i,
        {
            if self.css_vars[i].0 == *name {
                return Option::Some(i);
            }
            i += 1;
        }
        Option::None
    }

    /// Get the current value of a variable.
    pub fn get(&self, name: &str) -> (r: Option<&str>)
        requires
            self.wf(),
        ensures
            match r {
                Option::Some(v) => lookup(self@, name@) == Option::Some(v@),
                Option::None => lookup(self@, name@) is None,
            },
    {
        let key: String = name.to_owned();
        match self.find(&key) {
            Option::Some(i) => {
                let stack = &self.css_vars[i].1;
                let last = stack.len() - 1;
                proof {
                    let _ = self.css_vars@[i as int];
                    assert(strings_view(stack@) == values_for(self@, name@));
                    assert(strings_view(stack@)[last as int] == stack@[last as int]@);
                }
                Option::Some(stack[last].as_str())
            },
            Option::None => {
                proof {
                    let f = |m: Seq<char>| values_for(self.scopes@, m);
                    assert(f(name@) == values_for(self@, name@));
                    if values_for(self@, name@).len() > 0 {
                        let i = choose|i: int| 0 <= i < self.css_vars@.len() && #[trigger] self.css_vars@[i].0@ == name@;
                    }
                }
                Option::None
            },
        }
    }

    /// Enters a scope that binds `vars` in order, for node `node_idx`. No scope is entered
    /// when `vars` is empty.
    pub fn push_vars(&mut self, node_idx: usize, vars: &[(String, String)])
        requires
            old(self).wf(),
        ensures
            final(self).wf(),
            final(self)@ == if vars@.len() == 0 {
                old(self)@
            } else {
                old(self)@.push((node_idx, vars_view(vars@)))
            },
    {
        if vars.len() == 0 {
            return;
        }
        let n = vars.len();
        let ghost outer = self.scopes@;
        let ghost sc = vars_view(vars@);
        let mut keys_added: Vec<String> = Vec::new();
        let mut j: usize = 0;
        proof {
            assert forall|m: Seq<char>| values_for(outer.push((node_idx, sc.take(0))), m) == values_for(outer, m) by {
                lemma_values_for_push(outer, (node_idx, sc.take(0)), m);
                assert(scope_values(sc.take(0), m) =~= Seq::<Seq<char>>::empty());
                assert(values_for(outer, m) + Seq::<Seq<char>>::empty() =~= values_for(outer, m));
            }
            assert((|m: Seq<char>| values_for(outer.push((node_idx, sc.take(0))), m)) =~= (|m: Seq<char>| values_for(outer, m)));
        }
        while j < n
            invariant
                n == vars@.len(),
                0 <= j <= n,
                sc == vars_view(vars@),
                self.scopes@ == outer,
                history_ok(self.scope_history@, outer),
                self.scope_history@ == old(self).scope_history@,
                stacks_ok(self.css_vars@, |m: Seq<char>| values_for(outer.push((node_idx, sc.take(j as int))), m)),
                keys_added@.len() == j,
                forall|k: int| 0 <= k < j ==> #[trigger] keys_added@[k]@ == sc[k].0,
            decreases n - j,
        {
            let name: String = vars[j].0.clone();
            let value: String = vars[j].1.clone();
            let ghost before = self.css_vars@;
            let ghost f_old = |m: Seq<char>| values_for(outer.push((node_idx, sc.take(j as int))), m);
            let ghost f_new = |m: Seq<char>| values_for(outer.push((node_idx, sc.take(j + 1))), m);
            proof {
                assert(sc[j as int] == (name@, value@));
                assert forall|m: Seq<char>| #[trigger] f_new(m) == if m == name@ { f_old(m).push(value@) } else { f_old(m) } by {
                    lemma_values_for_push(outer, (node_idx, sc.take(j as int)), m);
                    lemma_values_for_push(outer, (node_idx, sc.take(j + 1)), m);
                    lemma_scope_values_step(sc, j as int, m);
                    if m == name@ {
                        assert(values_for(outer, m) + scope_values(sc.take(j as int), m).push(value@) =~= (values_for(
                            outer,
                            m,
                        ) + scope_values(sc.take(j as int), m)).push(value@));
                    }
                }
            }
            match self.find(&name) {
                Option::Some(i) => {
                    let ghost old_stack = self.css_vars@[i as int].1@;
                    self.css_vars[i].1.push(value.clone());
                    proof {
                        let _ = before[i as int];
                        assert(strings_view(self.css_vars@[i as int].1@) =~= strings_view(old_stack).push(value@));
                        assert forall|a: int| #![trigger self.css_vars@[a]] 0 <= a < self.css_vars@.len() && a != i implies
                            strings_view(self.css_vars@[a].1@) == f_new(self.css_vars@[a].0@) && self.css_vars@[a].1@.len() > 0 by {
                            let _ = before[a];
                        }
                        assert forall|a: int, b: int| 0 <= a < self.css_vars@.len() && 0 <= b < self.css_vars@.len() && a != b
                            implies #[trigger] self.css_vars@[a].0@ != #[trigger] self.css_vars@[b].0@ by {
                            assert(before[a].0@ != before[b].0@);
                        }
                        assert forall|m: Seq<char>| #[trigger] f_new(m).len() > 0 implies exists|a: int|
                            0 <= a < self.css_vars@.len() && #[trigger] self.css_vars@[a].0@ == m by {
                            if m == name@ {
                                assert(self.css_vars@[i as int].0@ == m);
                            } else {
                                assert(f_old(m).len() > 0);
                                let a = choose|a: int| 0 <= a < before.len() && #[trigger] before[a].0@ == m;
                                assert(self.css_vars@[a].0@ == m);
                            }
                        }
                    }
                },
                Option::None => {
                    let stack: Vec<String> = vec![value.clone()];
                    self.css_vars.push((name.clone(), stack));
                    proof {
                        let last = before.len() as int;
                        assert(f_old(name@).len() == 0) by {
                            if f_old(name@).len() > 0 {
                                let a = choose|a: int| 0 <= a < before.len() && #[trigger] before[a].0@ == name@;
                            }
                        }
                        assert(f_old(name@) =~= Seq::<Seq<char>>::empty());
                        assert(strings_view(self.css_vars@[last].1@) =~= seq![value@]);
                        assert(Seq::<Seq<char>>::empty().push(value@) =~= seq![value@]);
                        assert forall|a: int| #![trigger self.css_vars@[a]] 0 <= a < self.css_vars@.len() implies
                            strings_view(self.css_vars@[a].1@) == f_new(self.css_vars@[a].0@) && self.css_vars@[a].1@.len() > 0 by {
                            if a < last {
                                let _ = before[a];
                                assert(self.css_vars@[a] == before[a]);
                            }
                        }
                        assert forall|a: int, b: int| 0 <= a < self.css_vars@.len() && 0 <= b < self.css_vars@.len() && a != b
                            implies #[trigger] self.css_vars@[a].0@ != #[trigger] self.css_vars@[b].0@ by {
                            if a < last && b < last {
                                assert(before[a].0@ != before[b].0@);
                            } else if a < last {
                                assert(before[a].0@ != name@);
                            } else if b < last {
                                assert(before[b].0@ != name@);
                            }
                        }
                        assert forall|m: Seq<char>| #[trigger] f_new(m).len() > 0 implies exists|a: int|
                            0 <= a < self.css_vars@.len() && #[trigger] self.css_vars@[a].0@ == m by {
                            if m == name@ {
                                assert(self.css_vars@[last].0@ == m);
                            } else {
                                assert(f_old(m).len() > 0);
                                let a = choose|a: int| 0 <= a < before.len() && #[trigger] before[a].0@ == m;
                                assert(self.css_vars@[a].0@ == m);
                            }
                        }
                    }
                },
            }
            keys_added.push(name);
            j += 1;
        }
        self.scope_history.push((node_idx, keys_added));
        self.scopes = Ghost(outer.push((node_idx, sc)));
        proof {
            assert(sc.take(n as int) =~= sc);
            let h = self.scope_history@;
            assert forall|i: int| #![trigger h[i]] 0 <= i < self.scopes@.len() implies {
                &&& h[i].0 == self.scopes@[i].0
                &&& h[i].1@.len() == self.scopes@[i].1.len()
                &&& self.scopes@[i].1.len() > 0
                &&& forall|k: int| 0 <= k < self.scopes@[i].1.len() ==> #[trigger] h[i].1@[k]@ == self.scopes@[i].1[k].0
            } by {
                if i < outer.len() {
                    let _ = old(self).scope_history@[i];
                }
            }
            assert((|m: Seq<char>| values_for(outer.push((node_idx, sc.take(n as int))), m)) =~= (|m: Seq<char>| values_for(self.scopes@, m)));
        }
    }

    /// Leaves the innermost scope, if any: its variables get back the values they had
    /// before it was entered.
    pub fn pop_vars(&mut self)
        requires
            old(self).wf(),
        ensures
            final(self).wf(),
            final(self)@ == if old(self)@.len() == 0 {
                old(self)@
            } else {
                old(self)@.drop_last()
            },
    {
        let ghost full_scopes = self.scopes@;
        let ghost old_history = self.scope_history@;
        match self.scope_history.pop() {
            Option::None => {},
            Option::Some((_, keys)) => {
                let ghost last = full_scopes.len() - 1;
                let ghost outer = full_scopes.drop_last();
                let ghost sc = full_scopes[last].1;
                proof {
                    let _ = old_history[last];
                    assert(full_scopes =~= outer.push(full_scopes[last]));
                    assert forall|m: Seq<char>| remaining(values_for(full_scopes, m), sc, 0, m) == values_for(full_scopes, m) by {
                        assert(scope_values(sc.take(0), m) =~= Seq::<Seq<char>>::empty());
                        assert(values_for(full_scopes, m).take(values_for(full_scopes, m).len() as int) =~= values_for(full_scopes, m));
                    }
                    assert((|m: Seq<char>| remaining(values_for(full_scopes, m), sc, 0, m)) =~= (|m: Seq<char>| values_for(full_scopes, m)));
                }
                let n = keys.len();
                let mut j: usize = 0;
                while j < n
                    invariant
                        n == keys@.len(),
                        n == sc.len(),
                        0 <= j <= n,
                        full_scopes.len() > 0,
                        sc == full_scopes.last().1,
                        outer == full_scopes.drop_last(),
                        full_scopes == outer.push(full_scopes.last()),
                        forall|k: int| 0 <= k < n ==> #[trigger] keys@[k]@ == sc[k].0,
                        self.scopes@ == full_scopes,
                        self.scope_history@ == old_history.drop_last(),
                        history_ok(old_history, full_scopes),
                        stacks_ok(self.css_vars@, |m: Seq<char>| remaining(values_for(full_scopes, m), sc, j as int, m)),
                    decreases n - j,
                {
                    let ghost before = self.css_vars@;
                    let ghost k = keys@[j as int]@;
                    let ghost g_old = |m: Seq<char>| remaining(values_for(full_scopes, m), sc, j as int, m);
                    let ghost g_new = |m: Seq<char>| remaining(values_for(full_scopes, m), sc, j + 1, m);
                    proof {
                        assert forall|m: Seq<char>| #[trigger] g_new(m) == if m == k { g_old(m).drop_last() } else { g_old(m) } by {
                            lemma_scope_values_step(sc, j as int, m);
                            if m == k {
                                lemma_scope_values_prefix(sc, j + 1, m);
                                lemma_values_for_push(outer, full_scopes.last(), m);
                                let full = values_for(full_scopes, m);
                                let p = scope_values(sc.take(j as int), m).len();
                                assert(full.take(full.len() - p).drop_last() =~= full.take(full.len() - p - 1));
                            }
                        }
                        lemma_scope_values_step(sc, j as int, k);
                        lemma_scope_values_prefix(sc, j + 1, k);
                        lemma_values_for_push(outer, full_scopes.last(), k);
                        assert(g_old(k).len() > 0);
                    }
                    match self.find(&keys[j]) {
                        Option::Some(i) => {
                            let ghost old_stack = self.css_vars@[i as int].1@;
                            self.css_vars[i].1.pop();
                            proof {
                                let _ = before[i as int];
                                assert(strings_view(self.css_vars@[i as int].1@) =~= strings_view(old_stack).drop_last());
                            }
                            if self.css_vars[i].1.len() == 0 {
                                let ghost mid = self.css_vars@;
                                self.css_vars.remove(i);
                                proof {
                                    assert(g_new(k).len() == 0);
                                    assert forall|a: int| #![trigger self.css_vars@[a]] 0 <= a < self.css_vars@.len() implies
                                        strings_view(self.css_vars@[a].1@) == g_new(self.css_vars@[a].0@) && self.css_vars@[a].1@.len() > 0 by {
                                        let b = if a < i { a } else { a + 1 };
                                        assert(self.css_vars@[a] == mid[b]);
                                        let _ = before[b];
                                        assert(before[b].0@ != before[i as int].0@);
                                    }
                                    assert forall|a: int, b: int| 0 <= a < self.css_vars@.len() && 0 <= b < self.css_vars@.len() && a != b
                                        implies #[trigger] self.css_vars@[a].0@ != #[trigger] self.css_vars@[b].0@ by {
                                        let a2 = if a < i { a } else { a + 1 };
                                        let b2 = if b < i { b } else { b + 1 };
                                        assert(before[a2].0@ != before[b2].0@);
                                    }
                                    assert forall|m: Seq<char>| #[trigger] g_new(m).len() > 0 implies exists|a: int|
                                        0 <= a < self.css_vars@.len() && #[trigger] self.css_vars@[a].0@ == m by {
                                        assert(m != k);
                                        assert(g_old(m).len() > 0);
                                        let a = choose|a: int| 0 <= a < before.len() && #[trigger] before[a].0@ == m;
                                        assert(a != i);
                                        let a2 = if a < i { a } else { a - 1 };
                                        assert(self.css_vars@[a2] == before[a]);
                                    }
                                }
                            } else {
                                proof {
                                    assert forall|a: int| #![trigger self.css_vars@[a]] 0 <= a < self.css_vars@.len() && a != i implies
                                        strings_view(self.css_vars@[a].1@) == g_new(self.css_vars@[a].0@) && self.css_vars@[a].1@.len() > 0 by {
                                        let _ = before[a];
                                        assert(before[a].0@ != before[i as int].0@);
                                    }
                                    assert forall|a: int, b: int| 0 <= a < self.css_vars@.len() && 0 <= b < self.css_vars@.len() && a != b
                                        implies #[trigger] self.css_vars@[a].0@ != #[trigger] self.css_vars@[b].0@ by {
                                        assert(before[a].0@ != before[b].0@);
                                    }
                                    assert forall|m: Seq<char>| #[trigger] g_new(m).len() > 0 implies exists|a: int|
                                        0 <= a < self.css_vars@.len() && #[trigger] self.css_vars@[a].0@ == m by {
                                        if m == k {
                                            assert(self.css_vars@[i as int].0@ == m);
                                        } else {
                                            assert(g_old(m).len() > 0);
                                            let a = choose|a: int| 0 <= a < before.len() && #[trigger] before[a].0@ == m;
                                            assert(self.css_vars@[a].0@ == m);
                                        }
                                    }
                                }
                            }
                        },
                        Option::None => {
                            proof {
                                let a = choose|a: int| 0 <= a < before.len() && #[trigger] before[a].0@ == k;
                                assert(self.css_vars@[a].0@ != keys@[j as int]@);
                            }
                        },
                    }
                    j += 1;
                }
                self.scopes = Ghost(outer);
                proof {
                    assert(sc.take(n as int) =~= sc);
                    assert forall|m: Seq<char>| remaining(values_for(full_scopes, m), sc, n as int, m) == values_for(outer, m) by {
                        lemma_values_for_push(outer, full_scopes.last(), m);
                        assert((values_for(outer, m) + scope_values(sc, m)).take(values_for(outer, m).len() as int) =~= values_for(outer, m));
                    }
                    assert((|m: Seq<char>| remaining(values_for(full_scopes, m), sc, n as int, m)) =~= (|m: Seq<char>| values_for(self.scopes@, m)));
                    let h = self.scope_history@;
                    assert forall|i: int| #![trigger h[i]] 0 <= i < outer.len() implies {
                        &&& h[i].0 == outer[i].0
                        &&& h[i].1@.len() == outer[i].1.len()
                        &&& outer[i].1.len() > 0
                        &&& forall|k: int| 0 <= k < outer[i].1.len() ==> #[trigger] h[i].1@[k]@ == outer[i].1[k].0
                    } by {
                        let _ = old_history[i];
                    }
                }
            },
        }
    }

    /// Leaves the scopes entered at nodes after `current_parent_idx`: those that are not
    /// ancestors of the node being styled.
    pub fn prune(&mut self, current_parent_idx: usize)
        requires
            old(self).wf(),
        ensures
            final(self).wf(),
            final(self)@ == prune_scopes(old(self)@, current_parent_idx),
    {
        loop
            invariant
                self.wf(),
                prune_scopes(old(self)@, current_parent_idx) == prune_scopes(self@, current_parent_idx),
            ensures
                self.wf(),
                prune_scopes(old(self)@, current_parent_idx) == self@,
            decreases self@.len(),
        {
            let n = self.scope_history.len();
            proof {
                if n > 0 {
                    let _ = self.scope_history@[n - 1];
                }
            }
            if n == 0 || self.scope_history[n - 1].0 <= current_parent_idx {
                break;
            }
            self.pop_vars();
        }
    }
}

/// After a scope is entered, a variable it binds has the last value it binds there;
/// any other variable keeps its value.
pub proof fn law_lookup_after_push(
    scopes: Seq<(usize, Seq<(Seq<char>, Seq<char>)>)>,
    node_idx: usize,
    sc: Seq<(Seq<char>, Seq<char>)>,
    name: Seq<char>,
)
    ensures
        lookup(scopes.push((node_idx, sc)), name) == if scope_values(sc, name).len() > 0 {
            Option::Some(scope_values(sc, name).last())
        } else {
            lookup(scopes, name)
        },
{
    lemma_values_for_push(scopes, (node_idx, sc), name);
    if scope_values(sc, name).len() == 0 {
        assert(values_for(scopes, name) + scope_values(sc, name) =~= values_for(scopes, name));
    }
}

/// Leaving the scope just entered gives every variable back the value it had before.
pub proof fn law_pop_undoes_push(
    scopes: Seq<(usize, Seq<(Seq<char>, Seq<char>)>)>,
    node_idx: usize,
    sc: Seq<(Seq<char>, Seq<char>)>,
    name: Seq<char>,
)
    ensures
        scopes.push((node_idx, sc)).drop_last() == scopes,
        lookup(scopes.push((node_idx, sc)).drop_last(), name) == lookup(scopes, name),
{
    assert(scopes.push((node_idx, sc)).drop_last() =~= scopes);
}

/// Pruning keeps a prefix of the scopes, leaves none entered after the limit on top, and
/// removes only scopes entered after the limit.
pub proof fn law_prune_keeps_ancestor_scopes(scopes: Seq<(usize, Seq<(Seq<char>, Seq<char>)>)>, limit: usize)
    ensures
        prune_scopes(scopes, limit).len() <= scopes.len(),
        prune_scopes(scopes, limit) == scopes.take(prune_scopes(scopes, limit).len() as int),
        prune_scopes(scopes, limit).len() > 0 ==> prune_scopes(scopes, limit).last().0 <= limit,
        forall|k: int| prune_scopes(scopes, limit).len() <= k < scopes.len() ==> #[trigger] scopes[k].0 > limit,
    decreases scopes.len(),
{
    if scopes.len() > 0 && scopes.last().0 > limit {
        law_prune_keeps_ancestor_scopes(scopes.drop_last(), limit);
        let p = prune_scopes(scopes.drop_last(), limit);
        assert(scopes.drop_last().take(p.len() as int) =~= scopes.take(p.len() as int));
        assert forall|k: int| p.len() <= k < scopes.len() implies #[trigger] scopes[k].0 > limit by {
            if k < scopes.len() - 1 {
                assert(scopes.drop_last()[k] == scopes[k]);
            }
        }
    } else {
        assert(scopes.take(scopes.len() as int) =~= scopes);
    }
}

} // verus!
