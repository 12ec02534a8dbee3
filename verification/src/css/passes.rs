//! The styling passes over the tree, in pre-order: which rules of which stylesheets are
//! tried on each node, in which order, and what the pre-pass derives from them (the
//! pseudo-class states each node depends on, and the variables each node binds).

use vstd::prelude::*;

use qfilter::Filter;

use crate::css::filter::{filter_clear, filter_fingerprints, filter_fp};
use crate::css::matching::{filter_covers_ancestors, match_from, pseudo_kind, rule_matches_opt, rule_pseudo_dependencies_opt, spec_rule_matches, PseudoKind, PseudoState};
use crate::css::rules::{
    candidate_rules, index_key, indexes_keys, is_candidate, positions_with, rule_keys, strictly_increasing, vars_view, Rule,
    StylesheetRules,
};
use crate::css::traversal::{ancestor_bag, holds_ancestors, lemma_bag_covers, sheet_stack, update_ancestors, update_sheets};
use crate::css::selector::Selector;
use crate::css::tree::{preorder, tree_wf, StyleNode, NO_PARENT};
use crate::css::{ACTIVE_DIRTY, ENABLED_DIRTY, FOCUS_DIRTY, HOVER_DIRTY};
use crate::interner::StrId;
use crate::nodeid::NodeId;

verus! {

/// The stylesheet's indexes are those of its rules.
pub open spec fn sheet_wf(s: StylesheetRules) -> bool {
    indexes_keys(s.index, rule_keys(s.rules@))
}

/// Rule `x` may match a node with these classes: it is a wildcard rule or it is keyed by
/// one of the classes.
pub open spec fn rule_is_candidate(rules: Seq<Rule>, classes: Seq<StrId>, x: int) -> bool {
    &&& 0 <= x < rules.len()
    &&& match index_key(rules[x].selectors@) {
        Option::None => true,
        Option::Some(c) => classes.contains(c),
    }
}

/// The candidate rules among the first `n`, in increasing order.
pub open spec fn candidates_upto(rules: Seq<Rule>, classes: Seq<StrId>, n: int) -> Seq<usize>
    decreases n,
{
    if n <= 0 {
        Seq::empty()
    } else if rule_is_candidate(rules, classes, n - 1) {
        candidates_upto(rules, classes, n - 1).push((n - 1) as usize)
    } else {
        candidates_upto(rules, classes, n - 1)
    }
}

/// The candidate rules of a stylesheet for a node with these classes, in stylesheet order.
pub open spec fn candidates(rules: Seq<Rule>, classes: Seq<StrId>) -> Seq<usize> {
    candidates_upto(rules, classes, rules.len() as int)
}

/// The (stack position, rule) pairs tried on a node: the stylesheets in scope from the
/// nearest to the farthest, and in each its candidate rules in stylesheet order.
pub open spec fn visit_order(sheets: Seq<StylesheetRules>, stack: Seq<(usize, usize)>, classes: Seq<StrId>) -> Seq<(usize, usize)>
    decreases stack.len(),
{
    if stack.len() == 0 {
        Seq::empty()
    } else {
        let t = stack.len() - 1;
        candidates(sheets[stack[t].1 as int].rules@, classes).map_values(|x: usize| (t as usize, x)) + visit_order(
            sheets,
            stack.drop_last(),
            classes,
        )
    }
}

/// The rule that a visit names.
pub open spec fn rule_at(sheets: Seq<StylesheetRules>, stack: Seq<(usize, usize)>, v: (usize, usize)) -> Rule {
    sheets[stack[v.0 as int].1 as int].rules@[v.1 as int]
}

/// Every stylesheet handle in the stack names a well-formed stylesheet.
pub open spec fn stack_ok(sheets: Seq<StylesheetRules>, stack: Seq<(usize, usize)>) -> bool {
    forall|t: int| 0 <= t < stack.len() ==> (#[trigger] stack[t]).1 < sheets.len() && sheet_wf(sheets[stack[t].1 as int])
}

proof fn lemma_positions_with_contains(keys: Seq<Option<StrId>>, target: Option<StrId>, x: usize)
    requires
        keys.len() <= usize::MAX,
    ensures
        positions_with(keys, target).contains(x) <==> (x < keys.len() && keys[x as int] == target),
    decreases keys.len(),
{
    if keys.len() > 0 {
        lemma_positions_with_contains(keys.drop_last(), target, x);
        let rest = positions_with(keys.drop_last(), target);
        if keys.last() == target {
            let s = rest.push((keys.len() - 1) as usize);
            if s.contains(x) {
                let k = choose|k: int| 0 <= k < s.len() && s[k] == x;
                if k < rest.len() {
                    assert(rest[k] == x);
                }
            }
            if rest.contains(x) {
                let k = choose|k: int| 0 <= k < rest.len() && rest[k] == x;
                assert(s[k] == x);
            }
            if x == keys.len() - 1 {
                assert(s[rest.len() as int] == x);
            }
        }
    }
}

proof fn lemma_candidate_iff(s: StylesheetRules, classes: Seq<StrId>, x: usize)
    requires
        sheet_wf(s),
    ensures
        is_candidate(s.index.wildcard@, s.index.index@, classes, x) <==> rule_is_candidate(s.rules@, classes, x as int),
{
    let keys = rule_keys(s.rules@);
    assert(s.rules.len() == s.rules@.len());
    lemma_positions_with_contains(keys, Option::None, x);
    if is_candidate(s.index.wildcard@, s.index.index@, classes, x) && !s.index.wildcard@.contains(x) {
        let c = choose|c: StrId|
            #![trigger classes.contains(c)]
            classes.contains(c) && s.index.index@.contains_key(c.0) && s.index.index@[c.0]@.contains(x);
        lemma_positions_with_contains(keys, Some(StrId(c.0)), x);
        assert(StrId(c.0) == c);
    }
    if rule_is_candidate(s.rules@, classes, x as int) {
        assert(keys[x as int] == index_key(s.rules@[x as int].selectors@));
        match index_key(s.rules@[x as int].selectors@) {
            Option::None => {},
            Option::Some(c) => {
                assert(StrId(c.0) == c);
                assert(keys[x as int] == Some(StrId(c.0)));
                assert(keys.contains(Some(StrId(c.0))));
                assert(s.index.index@.contains_key(c.0));
                assert(s.index.index@[c.0]@ == positions_with(keys, Some(StrId(c.0))));
                lemma_positions_with_contains(keys, Some(StrId(c.0)), x);
                assert(StrId(c.0) == c);
                assert(classes.contains(c) && s.index.index@.contains_key(c.0) && s.index.index@[c.0]@.contains(x));
            },
        }
    }
}

/// An increasing list holding exactly the candidates below `n` is their ordered list.
proof fn lemma_sorted_is_candidates(s: Seq<usize>, rules: Seq<Rule>, classes: Seq<StrId>, n: int)
    requires
        0 <= n <= rules.len(),
        rules.len() <= usize::MAX,
        strictly_increasing(s),
        forall|x: usize| s.contains(x) <==> (x < n && rule_is_candidate(rules, classes, x as int)),
    ensures
        s == candidates_upto(rules, classes, n),
    decreases n,
{
    if n == 0 {
        if s.len() > 0 {
            assert(s.contains(s[0]));
        }
        assert(s =~= Seq::<usize>::empty());
    } else {
        let top = (n - 1) as usize;
        if rule_is_candidate(rules, classes, n - 1) {
            assert(s.contains(top));
            let k = choose|k: int| 0 <= k < s.len() && s[k] == top;
            if k < s.len() - 1 {
                assert(s.contains(s[s.len() - 1]));
                assert(s[k] < s[s.len() - 1]);
            }
            let d = s.drop_last();
            assert forall|x: usize| d.contains(x) <==> (x < n - 1 && rule_is_candidate(rules, classes, x as int)) by {
                if d.contains(x) {
                    let j = choose|j: int| 0 <= j < d.len() && d[j] == x;
                    assert(s[j] == x);
                    assert(s.contains(x));
                    assert(s[j] < s[s.len() - 1]);
                }
                if x < n - 1 && rule_is_candidate(rules, classes, x as int) {
                    assert(s.contains(x));
                    let j = choose|j: int| 0 <= j < s.len() && s[j] == x;
                    assert(j != s.len() - 1);
                    assert(d[j] == x);
                }
            }
            lemma_sorted_is_candidates(d, rules, classes, n - 1);
            assert(s =~= d.push(top));
        } else {
            assert forall|x: usize| s.contains(x) <==> (x < n - 1 && rule_is_candidate(rules, classes, x as int)) by {
                if s.contains(x) {
                    assert(x != top);
                }
            }
            lemma_sorted_is_candidates(s, rules, classes, n - 1);
        }
    }
}

/// The candidate rules of a stylesheet for a node with these classes, in stylesheet order.
pub fn sheet_candidates(sheet: &StylesheetRules, classes: &[StrId]) -> (r: Vec<usize>)
    requires
        sheet_wf(*sheet),
    ensures
        r@ == candidates(sheet.rules@, classes@),
{
    let r = candidate_rules(&sheet.index, classes);
    proof {
        assert forall|x: usize| r@.contains(x) <==> (x < sheet.rules@.len() && rule_is_candidate(sheet.rules@, classes@, x as int)) by {
            lemma_candidate_iff(*sheet, classes@, x);
        }
        assert(sheet.rules.len() == sheet.rules@.len());
        lemma_sorted_is_candidates(r@, sheet.rules@, classes@, sheet.rules@.len() as int);
    }
    r
}

/// The (stack position, rule) pairs to try on a node with these classes, given the
/// stylesheets in scope (farthest first): nearest stylesheet first, and in each the
/// candidate rules in stylesheet order.
pub fn collect_candidates(sheets: &[StylesheetRules], active_sheets: &[(usize, usize)], classes: &[StrId]) -> (r: Vec<(usize, usize)>)
    requires
        stack_ok(sheets@, active_sheets@),
    ensures
        r@ == visit_order(sheets@, active_sheets@, classes@),
{
    let mut out: Vec<(usize, usize)> = Vec::new();
    let mut t = active_sheets.len();
    proof {
        assert(active_sheets@.take(t as int) =~= active_sheets@);
        assert(out@ + active_sheets@ == out@ + active_sheets@);
        assert(Seq::<(usize, usize)>::empty() + visit_order(sheets@, active_sheets@, classes@) =~= visit_order(sheets@, active_sheets@, classes@));
    }
    while t > 0
        invariant
            0 <= t <= active_sheets@.len(),
            stack_ok(sheets@, active_sheets@),
            out@ + visit_order(sheets@, active_sheets@.take(t as int), classes@) == visit_order(sheets@, active_sheets@, classes@),
        decreases t,
    {
        let pos = t - 1;
        let handle = active_sheets[pos].1;
        proof {
            let _ = active_sheets@[pos as int];
        }
        let cands = sheet_candidates(&sheets[handle], classes);
        let ghost before = out@;
        let m = cands.len();
        let mut k: usize = 0;
        while k < m
            invariant
                m == cands@.len(),
                0 <= k <= m,
                out@ == before + cands@.take(k as int).map_values(|x: usize| (pos, x)),
            decreases m - k,
        {
            out.push((pos, cands[k]));
            proof {
                assert(cands@.take(k + 1) =~= cands@.take(k as int).push(cands@[k as int]));
                assert(out@ =~= before + cands@.take(k + 1).map_values(|x: usize| (pos, x)));
            }
            k += 1;
        }
        proof {
            let pre = active_sheets@.take(t as int);
            assert(pre.drop_last() =~= active_sheets@.take(pos as int));
            assert(pre[pos as int] == active_sheets@[pos as int]);
            assert(cands@.take(m as int) =~= cands@);
            let part = cands@.map_values(|x: usize| (pos, x));
            assert(visit_order(sheets@, pre, classes@) == part + visit_order(sheets@, active_sheets@.take(pos as int), classes@));
            assert(before + (part + visit_order(sheets@, active_sheets@.take(pos as int), classes@)) =~= (before + part)
                + visit_order(sheets@, active_sheets@.take(pos as int), classes@));
        }
        t = pos;
    }
    proof {
        assert(active_sheets@.take(0) =~= Seq::<(usize, usize)>::empty());
        assert(out@ + Seq::<(usize, usize)>::empty() =~= out@);
    }
    out
}

/// The flag bit of a kind of pseudo-class state.
pub open spec fn kind_bit(k: PseudoKind) -> u8 {
    match k {
        PseudoKind::Hover => HOVER_DIRTY,
        PseudoKind::Focus => FOCUS_DIRTY,
        PseudoKind::Active => ACTIVE_DIRTY,
        PseudoKind::Enabled => ENABLED_DIRTY,
    }
}

/// Whether the flag bit is set.
pub open spec fn has_bit(flags: u8, bit: u8) -> bool {
    flags & bit != 0
}

proof fn lemma_or_bit(b: u8, m: u8, q: u8)
    by (bit_vector)
    ensures
        ((b | m) & q != 0) == ((b & q != 0) || (m & q != 0)),
        b < 16 && m < 16 ==> (b | m) < 16,
        0u8 & q == 0,
{
}

proof fn lemma_kind_bit_constants()
    by (bit_vector)
    ensures
        1u8 & 1u8 != 0 && 1u8 & 2u8 == 0 && 1u8 & 4u8 == 0 && 1u8 & 8u8 == 0,
        2u8 & 1u8 == 0 && 2u8 & 2u8 != 0 && 2u8 & 4u8 == 0 && 2u8 & 8u8 == 0,
        4u8 & 1u8 == 0 && 4u8 & 2u8 == 0 && 4u8 & 4u8 != 0 && 4u8 & 8u8 == 0,
        8u8 & 1u8 == 0 && 8u8 & 2u8 == 0 && 8u8 & 4u8 == 0 && 8u8 & 8u8 != 0,
{
}

proof fn lemma_kind_bits(k: PseudoKind, k2: PseudoKind)
    ensures
        has_bit(kind_bit(k), kind_bit(k2)) == (k == k2),
        kind_bit(k) < 16,
{
    lemma_kind_bit_constants();
}

/// Matching `r` at node `idx` whatever the interaction state: whether it can match, and
/// the pseudo-classes it depends on with the nodes they are checked on.
pub open spec fn pseudo_match(r: Rule, nodes: Seq<StyleNode>, idx: usize) -> (bool, Seq<(PseudoKind, usize)>) {
    match_from(r.selectors@, r.selectors@.len() as int, nodes, idx, true, false, false, Option::None, Option::None, Seq::empty(), true)
}

/// Rule `r`, tried on node `idx`, makes node `j` depend on the state of `kind`: the rule
/// has pseudo-classes, can match, and checks a pseudo-class of that kind on `j`.
pub open spec fn rule_marks(r: Rule, nodes: Seq<StyleNode>, idx: usize, j: int, kind: PseudoKind) -> bool {
    &&& r.has_pseudos
    &&& pseudo_match(r, nodes, idx).0
    &&& pseudo_match(r, nodes, idx).1.contains((kind, j as usize))
}

/// Rule `r` has no pseudo-class and matches node `idx`.
pub open spec fn static_match(r: Rule, nodes: Seq<StyleNode>, idx: usize) -> bool {
    !r.has_pseudos && spec_rule_matches(r.selectors@, nodes, idx, Option::None, Option::None, Seq::empty())
}

/// The variable bindings of the static rules among `visits` that match node `idx`, in
/// visiting order.
pub open spec fn static_vars(
    sheets: Seq<StylesheetRules>,
    stack: Seq<(usize, usize)>,
    visits: Seq<(usize, usize)>,
    nodes: Seq<StyleNode>,
    idx: usize,
) -> Seq<(Seq<char>, Seq<char>)>
    decreases visits.len(),
{
    if visits.len() == 0 {
        Seq::empty()
    } else {
        let r = rule_at(sheets, stack, visits.last());
        static_vars(sheets, stack, visits.drop_last(), nodes, idx) + if static_match(r, nodes, idx) {
            vars_view(r.variables@)
        } else {
            Seq::empty()
        }
    }
}

/// The position of the last binding of `name` in `delta`, or -1.
pub open spec fn find_name(delta: Seq<(Seq<char>, Seq<char>)>, name: Seq<char>) -> int
    decreases delta.len(),
{
    if delta.len() == 0 {
        -1
    } else if delta.last().0 == name {
        delta.len() - 1
    } else {
        find_name(delta.drop_last(), name)
    }
}

/// Binds `p.0` to `p.1`: an existing binding of the name is replaced in place, a new
/// name is added at the end.
pub open spec fn upsert(delta: Seq<(Seq<char>, Seq<char>)>, p: (Seq<char>, Seq<char>)) -> Seq<(Seq<char>, Seq<char>)> {
    let i = find_name(delta, p.0);
    if i < 0 {
        delta.push(p)
    } else {
        delta.update(i, p)
    }
}

/// Binds each pair of `ps` in order: a later binding of a name overwrites an earlier one.
pub open spec fn upsert_all(delta: Seq<(Seq<char>, Seq<char>)>, ps: Seq<(Seq<char>, Seq<char>)>) -> Seq<(Seq<char>, Seq<char>)>
    decreases ps.len(),
{
    if ps.len() == 0 {
        delta
    } else {
        upsert(upsert_all(delta, ps.drop_last()), ps.last())
    }
}

proof fn lemma_find_name(s: Seq<(Seq<char>, Seq<char>)>, name: Seq<char>, i: int)
    requires
        -1 <= i < s.len(),
        i >= 0 ==> s[i].0 == name,
        forall|k: int| i < k < s.len() ==> #[trigger] s[k].0 != name,
    ensures
        find_name(s, name) == i,
    decreases s.len(),
{
    if s.len() > 0 && i < s.len() - 1 {
        assert(s[s.len() - 1].0 != name);
        assert forall|k: int| i < k < s.drop_last().len() implies #[trigger] s.drop_last()[k].0 != name by {
            assert(s[k].0 != name);
        }
        lemma_find_name(s.drop_last(), name, i);
    }
}

/// Binds `name` to `value` in `delta`, replacing its last binding if there is one.
fn upsert_var(delta: &mut Vec<(String, String)>, name: &String, value: &String)
    ensures
        vars_view(final(delta)@) == upsert(vars_view(old(delta)@), (name@, value@)),
{
    let ghost v = vars_view(delta@);
    let mut i = delta.len();
    while i > 0
        invariant
            0 <= i <= delta@.len(),
            delta@ == old(delta)@,
            v == vars_view(delta@),
            forall|k: int| i <= k < delta@.len() ==> #[trigger] v[k].0 != name@,
        decreases i,
    {
        if delta[i - 1].0 == *name {
            proof {
                lemma_find_name(v, name@, i - 1);
            }
            delta.set(i - 1, (name.clone(), value.clone()));
            proof {
                assert(vars_view(delta@) =~= v.update(i - 1, (name@, value@)));
            }
            return;
        }
        i -= 1;
    }
    proof {
        lemma_find_name(v, name@, -1);
    }
    delta.push((name.clone(), value.clone()));
    proof {
        assert(vars_view(delta@) =~= v.push((name@, value@)));
    }
}

proof fn lemma_records_in_range(sels: Seq<Selector>, k: int, nodes: Seq<StyleNode>, cur: usize, first: bool, prev_class: bool, prev_child: bool)
    ensures
        forall|q: int|
            0 <= q < match_from(sels, k, nodes, cur, first, prev_class, prev_child, Option::None, Option::None, Seq::empty(), true).1.len()
                ==> (#[trigger] match_from(sels, k, nodes, cur, first, prev_class, prev_child, Option::None, Option::None, Seq::empty(), true).1[q]).1
                < nodes.len(),
    decreases k, cur,
{
    let all = match_from(sels, k, nodes, cur, first, prev_class, prev_child, Option::None, Option::None, Seq::empty(), true);
    if k <= 0 || cur == NO_PARENT || cur as int >= nodes.len() || k > sels.len() {
        assert(all.1.len() == 0);
    } else {
        let parent = nodes[cur as int].parent;
        let (k2, cur2, f2, pc2, ch2) = match sels[k - 1] {
            Selector::Class(c) => {
                if nodes[cur as int].classes@.contains(c) {
                    (k - 1, cur, false, true, false)
                } else if first || prev_class || prev_child || parent == NO_PARENT || parent >= cur {
                    (0int, cur, false, false, false)
                } else {
                    (k, parent, false, false, false)
                }
            },
            Selector::Wildcard => (k - 1, cur, false, false, false),
            Selector::Child => (k - 1, parent, first, false, true),
            Selector::Descendant => (k - 1, parent, first, false, false),
            _ => (k - 1, cur, first, false, false),
        };
        let rest = match_from(sels, k2, nodes, cur2, f2, pc2, ch2, Option::None, Option::None, Seq::empty(), true);
        if k2 < k || cur2 < cur {
            lemma_records_in_range(sels, k2, nodes, cur2, f2, pc2, ch2);
        }
        assert forall|q: int| 0 <= q < all.1.len() implies (#[trigger] all.1[q]).1 < nodes.len() by {
            match sels[k - 1] {
                Selector::Class(c) => {
                    if !nodes[cur as int].classes@.contains(c) && (first || prev_class || prev_child || parent == NO_PARENT || parent >= cur) {
                        assert(all.1.len() == 0);
                    } else {
                        assert(all.1 == rest.1);
                    }
                },
                Selector::Wildcard | Selector::Child | Selector::Descendant => {
                    assert(all.1 == rest.1);
                },
                _ => {
                    assert(all.1 == seq![(pseudo_kind(sels[k - 1]), cur)] + rest.1);
                    if q > 0 {
                        assert(all.1[q] == rest.1[q - 1]);
                    }
                },
            }
        }
    }
}

/// Sets the flag bits of the pseudo-class states that rule `rule` (with pseudo-classes),
/// tried on node `idx`, depends on.
fn mark_rule_pseudos(rule: &Rule, nodes: &[StyleNode], idx: usize, ancestor_classes: Option<&Filter>, flags: &mut Vec<u8>)
    requires
        tree_wf(nodes@),
        idx < nodes@.len(),
        ancestor_classes matches Some(f) ==> filter_covers_ancestors(*f, nodes@, idx as int),
        old(flags)@.len() == nodes@.len(),
        forall|j: int| 0 <= j < nodes@.len() ==> #[trigger] old(flags)@[j] < 16,
    ensures
        final(flags)@.len() == nodes@.len(),
        forall|j: int| 0 <= j < nodes@.len() ==> #[trigger] final(flags)@[j] < 16,
        forall|j: int, k: PseudoKind|
            0 <= j < nodes@.len() ==> #[trigger] has_bit(final(flags)@[j], kind_bit(k)) == (has_bit(old(flags)@[j], kind_bit(k))
                || rule_marks(*rule, nodes@, idx, j, k)),
{
    let mut pseudos: Vec<(PseudoKind, usize)> = Vec::new();
    let matched = rule_pseudo_dependencies_opt(rule, nodes, idx, ancestor_classes, &mut pseudos);
    proof {
        assert(pseudos@ =~= pseudo_match(*rule, nodes@, idx).1);
        lemma_records_in_range(rule.selectors@, rule.selectors@.len() as int, nodes@, idx, true, false, false);
    }
    if !(rule.has_pseudos && matched) {
        return;
    }
    proof {
        assert(nodes@.len() == nodes.len());
    }
    let n = pseudos.len();
    let mut p: usize = 0;
    while p < n
        invariant
            n == pseudos@.len(),
            0 <= p <= n,
            nodes@.len() <= usize::MAX,
            old(flags)@.len() == nodes@.len(),
            flags@.len() == nodes@.len(),
            forall|q: int| 0 <= q < n ==> (#[trigger] pseudos@[q]).1 < nodes@.len(),
            forall|j: int| 0 <= j < nodes@.len() ==> #[trigger] flags@[j] < 16,
            forall|j: int, k: PseudoKind|
                0 <= j < nodes@.len() ==> #[trigger] has_bit(flags@[j], kind_bit(k)) == (has_bit(old(flags)@[j], kind_bit(k))
                    || pseudos@.take(p as int).contains((k, j as usize))),
        decreases n - p,
    {
        let (kind, node) = pseudos[p];
        let bit = match kind {
            PseudoKind::Hover => HOVER_DIRTY,
            PseudoKind::Focus => FOCUS_DIRTY,
            PseudoKind::Active => ACTIVE_DIRTY,
            PseudoKind::Enabled => ENABLED_DIRTY,
        };
        let ghost before = flags@;
        let cur = flags[node];
        flags.set(node, cur | bit);
        proof {
            let _ = pseudos@[p as int];
            assert(pseudos@.take(p + 1) =~= pseudos@.take(p as int).push((kind, node)));
            assert forall|j: int| 0 <= j < nodes@.len() implies #[trigger] flags@[j] < 16 by {
                if j == node as int {
                    lemma_kind_bits(kind, kind);
                    lemma_or_bit(cur, bit, 0);
                }
            }
            assert forall|j: int, k: PseudoKind| 0 <= j < nodes@.len() implies #[trigger] has_bit(flags@[j], kind_bit(k)) == (has_bit(
                old(flags)@[j],
                kind_bit(k),
            ) || pseudos@.take(p + 1).contains((k, j as usize))) by {
                let _ = has_bit(before[j], kind_bit(k));
                if pseudos@.take(p + 1).contains((k, j as usize)) && !pseudos@.take(p as int).contains((k, j as usize)) {
                    let w = choose|w: int| 0 <= w < p + 1 && #[trigger] pseudos@.take(p + 1)[w] == (k, j as usize);
                    if w < p {
                        assert(pseudos@.take(p as int)[w] == (k, j as usize));
                    }
                }
                if pseudos@.take(p as int).contains((k, j as usize)) {
                    let w = choose|w: int| 0 <= w < p && #[trigger] pseudos@.take(p as int)[w] == (k, j as usize);
                    assert(pseudos@.take(p + 1)[w] == (k, j as usize));
                }
                if j == node as int {
                    lemma_kind_bits(kind, k);
                    lemma_or_bit(cur, bit, kind_bit(k));
                    if k == kind {
                        assert(pseudos@.take(p + 1)[p as int] == (k, j as usize));
                    }
                }
            }
        }
        p += 1;
    }
    proof {
        assert(pseudos@.take(n as int) =~= pseudos@);
    }
}

/// Some rule among `visits`, tried on node `idx`, makes node `j` depend on `kind`.
pub open spec fn visits_mark(
    sheets: Seq<StylesheetRules>,
    stack: Seq<(usize, usize)>,
    visits: Seq<(usize, usize)>,
    nodes: Seq<StyleNode>,
    idx: usize,
    j: int,
    kind: PseudoKind,
) -> bool {
    exists|v: int| 0 <= v < visits.len() && #[trigger] rule_marks(rule_at(sheets, stack, visits[v]), nodes, idx, j, kind)
}

proof fn lemma_candidates_bound(rules: Seq<Rule>, classes: Seq<StrId>, n: int)
    requires
        0 <= n <= rules.len(),
        rules.len() <= usize::MAX,
    ensures
        forall|i: int| 0 <= i < candidates_upto(rules, classes, n).len() ==> (#[trigger] candidates_upto(rules, classes, n)[i]) < n,
    decreases n,
{
    if n > 0 {
        lemma_candidates_bound(rules, classes, n - 1);
        let prev = candidates_upto(rules, classes, n - 1);
        let cur = candidates_upto(rules, classes, n);
        assert forall|i: int| 0 <= i < cur.len() implies (#[trigger] cur[i]) < n by {
            if i < prev.len() {
                assert(cur[i] == prev[i]);
            }
        }
    }
}

/// Every visit names a position of the stack and a rule of that stylesheet.
pub(crate) proof fn lemma_visits_valid(sheets: Seq<StylesheetRules>, stack: Seq<(usize, usize)>, classes: Seq<StrId>)
    requires
        stack_ok(sheets, stack),
        stack.len() <= usize::MAX,
    ensures
        forall|v: int| #![trigger visit_order(sheets, stack, classes)[v]] 0 <= v < visit_order(sheets, stack, classes).len() ==> {
            let p = visit_order(sheets, stack, classes)[v];
            &&& p.0 < stack.len()
            &&& p.1 < sheets[stack[p.0 as int].1 as int].rules@.len()
        },
    decreases stack.len(),
{
    if stack.len() > 0 {
        let t = stack.len() - 1;
        let rest = stack.drop_last();
        assert(stack_ok(sheets, rest)) by {
            assert forall|u: int| 0 <= u < rest.len() implies (#[trigger] rest[u]).1 < sheets.len() && sheet_wf(sheets[rest[u].1 as int]) by {
                let _ = stack[u];
            }
        }
        lemma_visits_valid(sheets, rest, classes);
        let _ = stack[t];
        let rules = sheets[stack[t].1 as int].rules;
        assert(rules.len() == rules@.len());
        lemma_candidates_bound(rules@, classes, rules@.len() as int);
        let part = candidates(rules@, classes).map_values(|x: usize| (t as usize, x));
        let all = visit_order(sheets, stack, classes);
        assert forall|v: int| #![trigger all[v]] 0 <= v < all.len() implies {
            &&& all[v].0 < stack.len()
            &&& all[v].1 < sheets[stack[all[v].0 as int].1 as int].rules@.len()
        } by {
            if v < part.len() {
                assert(all[v] == part[v]);
                let cands = candidates_upto(rules@, classes, rules@.len() as int);
                assert(part[v] == (t as usize, cands[v]));
                assert(cands[v] < rules@.len());
            } else {
                let w = v - part.len();
                assert(all[v] == visit_order(sheets, rest, classes)[w]);
                assert(rest[all[v].0 as int] == stack[all[v].0 as int]);
            }
        }
    }
}

proof fn lemma_upsert_all_push(d: Seq<(Seq<char>, Seq<char>)>, ps: Seq<(Seq<char>, Seq<char>)>, p: (Seq<char>, Seq<char>))
    ensures
        upsert_all(d, ps.push(p)) == upsert(upsert_all(d, ps), p),
{
    assert(ps.push(p).drop_last() =~= ps);
}

/// Tries the rules of the stylesheets in scope (`active_sheets`, farthest first) on
/// node `idx` whatever the interaction state: sets the flag bits of the pseudo-class
/// states that nodes' styles depend on, and returns the variables that the matching rules
/// without pseudo-classes bind (a later binding of a name overwrites an earlier one).
fn pre_pass_node(
    nodes: &[StyleNode],
    sheets: &[StylesheetRules],
    active_sheets: &[(usize, usize)],
    idx: usize,
    ancestor_classes: Option<&Filter>,
    flags: &mut Vec<u8>,
) -> (delta: Vec<(String, String)>)
    requires
        tree_wf(nodes@),
        idx < nodes@.len(),
        ancestor_classes matches Some(f) ==> filter_covers_ancestors(*f, nodes@, idx as int),
        stack_ok(sheets@, active_sheets@),
        old(flags)@.len() == nodes@.len(),
        forall|j: int| 0 <= j < nodes@.len() ==> #[trigger] old(flags)@[j] < 16,
    ensures
        final(flags)@.len() == nodes@.len(),
        forall|j: int| 0 <= j < nodes@.len() ==> #[trigger] final(flags)@[j] < 16,
        forall|j: int, k: PseudoKind|
            0 <= j < nodes@.len() ==> #[trigger] has_bit(final(flags)@[j], kind_bit(k)) == (has_bit(old(flags)@[j], kind_bit(k))
                || visits_mark(sheets@, active_sheets@, visit_order(sheets@, active_sheets@, nodes@[idx as int].classes@), nodes@, idx, j, k)),
        vars_view(delta@) == upsert_all(
            Seq::empty(),
            static_vars(sheets@, active_sheets@, visit_order(sheets@, active_sheets@, nodes@[idx as int].classes@), nodes@, idx),
        ),
{
    let visits = collect_candidates(sheets, active_sheets, nodes[idx].classes.as_slice());
    let ghost vis = visits@;
    let ghost stack = active_sheets@;
    proof {
        assert(active_sheets@.len() == active_sheets.len());
        lemma_visits_valid(sheets@, stack, nodes@[idx as int].classes@);
    }
    let state = PseudoState { focused_node: Option::None, active_node: Option::None, hot_nodes: Vec::new() };
    let mut delta: Vec<(String, String)> = Vec::new();
    let m = visits.len();
    let mut v: usize = 0;
    proof {
        assert(vars_view(delta@) =~= Seq::<(Seq<char>, Seq<char>)>::empty());
        assert(vis.take(0) =~= Seq::<(usize, usize)>::empty());
    }
    while v < m
        invariant
            m == vis.len(),
            0 <= v <= m,
            vis == visits@,
            stack == active_sheets@,
            vis == visit_order(sheets@, stack, nodes@[idx as int].classes@),
            forall|w: int| #![trigger vis[w]] 0 <= w < vis.len() ==> vis[w].0 < stack.len() && vis[w].1 < sheets@[stack[vis[w].0 as int].1 as int].rules@.len(),
            stack_ok(sheets@, stack),
            tree_wf(nodes@),
            idx < nodes@.len(),
            ancestor_classes matches Some(f) ==> filter_covers_ancestors(*f, nodes@, idx as int),
            state.focused_node is None,
            state.active_node is None,
            state.hot_nodes@ == Seq::<usize>::empty(),
            old(flags)@.len() == nodes@.len(),
            flags@.len() == nodes@.len(),
            forall|j: int| 0 <= j < nodes@.len() ==> #[trigger] flags@[j] < 16,
            forall|j: int, k: PseudoKind|
                0 <= j < nodes@.len() ==> #[trigger] has_bit(flags@[j], kind_bit(k)) == (has_bit(old(flags)@[j], kind_bit(k))
                    || visits_mark(sheets@, stack, vis.take(v as int), nodes@, idx, j, k)),
            vars_view(delta@) == upsert_all(Seq::empty(), static_vars(sheets@, stack, vis.take(v as int), nodes@, idx)),
        decreases m - v,
    {
        let (t, x) = visits[v];
        proof {
            let _ = vis[v as int];
            let _ = stack[t as int];
        }
        let rule = &sheets[active_sheets[t].1].rules[x];
        let ghost r = rule_at(sheets@, stack, vis[v as int]);
        assert(*rule == r);
        let ghost before_flags = flags@;
        let ghost prefix = static_vars(sheets@, stack, vis.take(v as int), nodes@, idx);
        proof {
            assert(vis.take(v + 1).drop_last() =~= vis.take(v as int));
            assert(vis.take(v + 1).last() == vis[v as int]);
        }
        if !rule.has_pseudos {
            if rule_matches_opt(rule, nodes, idx, &state, ancestor_classes) {
                let nv = rule.variables.len();
                let mut w: usize = 0;
                proof {
                    assert(vars_view(rule.variables@).take(0) =~= Seq::<(Seq<char>, Seq<char>)>::empty());
                    assert(prefix + Seq::<(Seq<char>, Seq<char>)>::empty() =~= prefix);
                }
                while w < nv
                    invariant
                        nv == rule.variables@.len(),
                        0 <= w <= nv,
                        vars_view(delta@) == upsert_all(Seq::empty(), prefix + vars_view(rule.variables@).take(w as int)),
                    decreases nv - w,
                {
                    let ghost pre = prefix + vars_view(rule.variables@).take(w as int);
                    upsert_var(&mut delta, &rule.variables[w].0, &rule.variables[w].1);
                    proof {
                        let p = (rule.variables@[w as int].0@, rule.variables@[w as int].1@);
                        assert(prefix + vars_view(rule.variables@).take(w + 1) =~= pre.push(p));
                        lemma_upsert_all_push(Seq::empty(), pre, p);
                    }
                    w += 1;
                }
                proof {
                    assert(vars_view(rule.variables@).take(nv as int) =~= vars_view(rule.variables@));
                }
            } else {
                proof {
                    assert(prefix + Seq::<(Seq<char>, Seq<char>)>::empty() =~= prefix);
                }
            }
        } else {
            mark_rule_pseudos(rule, nodes, idx, ancestor_classes, flags);
            proof {
                assert(prefix + Seq::<(Seq<char>, Seq<char>)>::empty() =~= prefix);
            }
        }
        proof {
            let pre = vis.take(v as int);
            let post = vis.take(v + 1);
            assert forall|j: int, k: PseudoKind| 0 <= j < nodes@.len() implies #[trigger] has_bit(flags@[j], kind_bit(k)) == (has_bit(
                old(flags)@[j],
                kind_bit(k),
            ) || visits_mark(sheets@, stack, post, nodes@, idx, j, k)) by {
                let _ = has_bit(before_flags[j], kind_bit(k));
                if visits_mark(sheets@, stack, pre, nodes@, idx, j, k) {
                    let w = choose|w: int| 0 <= w < pre.len() && #[trigger] rule_marks(rule_at(sheets@, stack, pre[w]), nodes@, idx, j, k);
                    assert(post[w] == pre[w]);
                    assert(rule_marks(rule_at(sheets@, stack, post[w]), nodes@, idx, j, k));
                }
                if visits_mark(sheets@, stack, post, nodes@, idx, j, k) {
                    let w = choose|w: int| 0 <= w < post.len() && #[trigger] rule_marks(rule_at(sheets@, stack, post[w]), nodes@, idx, j, k);
                    if w < v {
                        assert(post[w] == pre[w]);
                        assert(rule_marks(rule_at(sheets@, stack, pre[w]), nodes@, idx, j, k));
                    } else {
                        assert(post[w] == vis[v as int]);
                    }
                }
                if rule_marks(r, nodes@, idx, j, k) {
                    assert(post[v as int] == vis[v as int]);
                    assert(rule_marks(rule_at(sheets@, stack, post[v as int]), nodes@, idx, j, k));
                }
            }
        }
        v += 1;
    }
    proof {
        assert(vis.take(m as int) =~= vis);
    }
    delta
}

/// Every stylesheet handle of a node names a stylesheet, and every stylesheet's indexes
/// are those of its rules.
pub open spec fn handles_ok(nodes: Seq<StyleNode>, sheets: Seq<StylesheetRules>) -> bool {
    &&& forall|i: int| 0 <= i < nodes.len() && (#[trigger] nodes[i]).style_sheet is Some ==> nodes[i].style_sheet.unwrap() < sheets.len()
    &&& forall|h: int| 0 <= h < sheets.len() ==> sheet_wf(#[trigger] sheets[h])
}

/// The (stack position, rule) pairs tried on node `i`.
pub open spec fn node_visits(nodes: Seq<StyleNode>, sheets: Seq<StylesheetRules>, i: int) -> Seq<(usize, usize)> {
    visit_order(sheets, sheet_stack(nodes, i), nodes[i].classes@)
}

/// Node `j`'s style depends on the state of `kind`: some rule with pseudo-classes that can
/// match some node checks a pseudo-class of that kind on `j`.
pub open spec fn dirty(nodes: Seq<StyleNode>, sheets: Seq<StylesheetRules>, j: int, kind: PseudoKind) -> bool {
    exists|i: int|
        0 <= i < nodes.len() && #[trigger] visits_mark(sheets, sheet_stack(nodes, i), node_visits(nodes, sheets, i), nodes, i as usize, j, kind)
}

/// The variables that the rules without pseudo-classes matching node `i` bind, each with
/// its last value, in order of first binding.
pub open spec fn node_var_delta(nodes: Seq<StyleNode>, sheets: Seq<StylesheetRules>, i: int) -> Seq<(Seq<char>, Seq<char>)> {
    upsert_all(Seq::empty(), static_vars(sheets, sheet_stack(nodes, i), node_visits(nodes, sheets, i), nodes, i as usize))
}

pub(crate) proof fn lemma_stack_handles(nodes: Seq<StyleNode>, sheets: Seq<StylesheetRules>, i: int)
    requires
        handles_ok(nodes, sheets),
    ensures
        stack_ok(sheets, sheet_stack(nodes, i)),
    decreases i,
{
    let rest = if 0 <= i < nodes.len() && nodes[i].parent != NO_PARENT && (nodes[i].parent as int) < i {
        lemma_stack_handles(nodes, sheets, nodes[i].parent as int);
        sheet_stack(nodes, nodes[i].parent as int)
    } else {
        Seq::empty()
    };
    let st = sheet_stack(nodes, i);
    assert forall|t: int| 0 <= t < st.len() implies (#[trigger] st[t]).1 < sheets.len() && sheet_wf(sheets[st[t].1 as int]) by {
        if t < rest.len() {
            assert(st[t] == rest[t]);
        } else {
            let _ = nodes[i];
        }
    }
}

/// The pre-pass: walks the nodes in pre-order and, for each, tries the rules of the
/// stylesheets in scope whatever the interaction state. Returns, for each node, its
/// style flags (the kinds of pseudo-class state its style depends on) and the variables
/// that matching rules without pseudo-classes bind on it.
///
/// The filter of ancestor classes is cleared and then maintained along the walk; if an
/// insertion into it fails, the rest of the walk searches ancestors without it.
pub fn style_pre_pass(nodes: &[StyleNode], sheets: &[StylesheetRules], ancestor_classes: &mut Filter) -> (r: (
    Vec<u8>,
    Vec<Vec<(String, String)>>,
))
    requires
        preorder(nodes@),
        handles_ok(nodes@, sheets@),
    ensures
        r.0@.len() == nodes@.len(),
        r.1@.len() == nodes@.len(),
        forall|j: int| 0 <= j < nodes@.len() ==> #[trigger] r.0@[j] < 16,
        forall|j: int, k: PseudoKind| 0 <= j < nodes@.len() ==> #[trigger] has_bit(r.0@[j], kind_bit(k)) == dirty(nodes@, sheets@, j, k),
        forall|i: int| 0 <= i < nodes@.len() ==> vars_view((#[trigger] r.1@[i])@) == node_var_delta(nodes@, sheets@, i),
{
    filter_clear(ancestor_classes);
    let n = nodes.len();
    let mut flags: Vec<u8> = Vec::new();
    let mut z: usize = 0;
    while z < n
        invariant
            0 <= z <= n,
            flags@.len() == z,
            forall|j: int| 0 <= j < z ==> #[trigger] flags@[j] == 0,
        decreases n - z,
    {
        flags.push(0);
        z += 1;
    }
    proof {
        assert forall|q: u8| 0u8 & q == 0 by {
            lemma_or_bit(0, 0, q);
        }
    }
    let mut caches: Vec<Vec<(String, String)>> = Vec::new();
    let mut active_sheets: Vec<(usize, usize)> = Vec::new();
    let mut covered = true;
    let mut idx: usize = 0;
    while idx < n
        invariant
            n == nodes@.len(),
            0 <= idx <= n,
            preorder(nodes@),
            handles_ok(nodes@, sheets@),
            idx == 0 ==> active_sheets@ == Seq::<(usize, usize)>::empty(),
            idx > 0 ==> active_sheets@ == sheet_stack(nodes@, idx - 1),
            covered && idx == 0 ==> filter_fingerprints(*ancestor_classes) == vstd::multiset::Multiset::<u64>::empty(),
            covered && idx > 0 ==> holds_ancestors(*ancestor_classes, nodes@, idx - 1),
            flags@.len() == n,
            forall|j: int| 0 <= j < n ==> #[trigger] flags@[j] < 16,
            forall|j: int, k: PseudoKind|
                0 <= j < n ==> #[trigger] has_bit(flags@[j], kind_bit(k)) == exists|i: int|
                    0 <= i < idx && #[trigger] visits_mark(sheets@, sheet_stack(nodes@, i), node_visits(nodes@, sheets@, i), nodes@, i as usize, j, k),
            caches@.len() == idx,
            forall|i: int| 0 <= i < idx ==> vars_view((#[trigger] caches@[i])@) == node_var_delta(nodes@, sheets@, i),
        decreases n - idx,
    {
        update_sheets(nodes, idx, &mut active_sheets);
        if covered {
            proof {
                if idx == 0 {
                    assert(nodes@[0].parent == NO_PARENT);
                    assert(ancestor_bag(filter_fp(*ancestor_classes), nodes@, 0) == vstd::multiset::Multiset::<u64>::empty());
                }
            }
            covered = update_ancestors(nodes, idx, ancestor_classes);
        }
        proof {
            lemma_stack_handles(nodes@, sheets@, idx as int);
            if covered {
                if idx == 0 {
                    assert(nodes@[0].parent == NO_PARENT);
                    assert(ancestor_bag(filter_fp(*ancestor_classes), nodes@, 0) == vstd::multiset::Multiset::<u64>::empty());
                }
                lemma_bag_covers(nodes@, idx as int, *ancestor_classes);
            }
        }
        let ghost before = flags@;
        let delta = if covered {
            pre_pass_node(nodes, sheets, active_sheets.as_slice(), idx, Some(&*ancestor_classes), &mut flags)
        } else {
            pre_pass_node(nodes, sheets, active_sheets.as_slice(), idx, Option::None, &mut flags)
        };
        caches.push(delta);
        proof {
            assert forall|j: int, k: PseudoKind| 0 <= j < n implies #[trigger] has_bit(flags@[j], kind_bit(k)) == exists|i: int|
                0 <= i < idx + 1 && #[trigger] visits_mark(sheets@, sheet_stack(nodes@, i), node_visits(nodes@, sheets@, i), nodes@, i as usize, j, k) by {
                let _ = has_bit(before[j], kind_bit(k));
                let here = visits_mark(sheets@, sheet_stack(nodes@, idx as int), node_visits(nodes@, sheets@, idx as int), nodes@, idx, j, k);
                if exists|i: int| 0 <= i < idx + 1 && #[trigger] visits_mark(sheets@, sheet_stack(nodes@, i), node_visits(nodes@, sheets@, i), nodes@, i as usize, j, k) {
                    let i = choose|i: int| 0 <= i < idx + 1 && #[trigger] visits_mark(sheets@, sheet_stack(nodes@, i), node_visits(nodes@, sheets@, i), nodes@, i as usize, j, k);
                    if i < idx {
                        assert(exists|i2: int| 0 <= i2 < idx && #[trigger] visits_mark(sheets@, sheet_stack(nodes@, i2), node_visits(nodes@, sheets@, i2), nodes@, i2 as usize, j, k));
                    } else {
                        assert(here);
                    }
                }
                if here {
                    assert(visits_mark(sheets@, sheet_stack(nodes@, idx as int), node_visits(nodes@, sheets@, idx as int), nodes@, (idx as int) as usize, j, k));
                }
            }
        }
        idx += 1;
    }
    proof {
        assert forall|j: int, k: PseudoKind| 0 <= j < n implies #[trigger] has_bit(flags@[j], kind_bit(k)) == dirty(nodes@, sheets@, j, k) by {
            let _ = has_bit(flags@[j], kind_bit(k));
        }
    }
    (flags, caches)
}

} // verus!
