//! State kept while the styling passes walk the tree in pre-order: the stack of
//! stylesheets in scope and the filter of ancestor classes.

use vstd::prelude::*;

use qfilter::Filter;
use vstd::multiset::Multiset;

use crate::css::filter::{filter_fingerprint, filter_fingerprints, filter_fp, filter_insert_duplicated, filter_remove};
use crate::css::matching::filter_covers_ancestors;
use crate::css::tree::{
    is_ancestor, lemma_ancestor_before, lemma_ancestor_trans, lemma_parent_is_ancestor, on_path,
    preorder, tree_wf, StyleNode, NO_PARENT,
};
use crate::interner::StrId;

verus! {

/// The stylesheets attached on the path from the root to node `i`, root first,
/// each with the index of its node.
pub open spec fn sheet_stack(nodes: Seq<StyleNode>, i: int) -> Seq<(usize, usize)>
    decreases i,
{
    let rest = if 0 <= i < nodes.len() && nodes[i].parent != NO_PARENT && (nodes[i].parent as int) < i {
        sheet_stack(nodes, nodes[i].parent as int)
    } else {
        Seq::empty()
    };
    if 0 <= i < nodes.len() && nodes[i].style_sheet is Some {
        rest.push((i as usize, nodes[i].style_sheet.unwrap()))
    } else {
        rest
    }
}

/// `s` without its trailing entries whose node index exceeds `limit`.
pub open spec fn pop_above(s: Seq<(usize, usize)>, limit: usize) -> Seq<(usize, usize)>
    decreases s.len(),
{
    if s.len() > 0 && s.last().0 > limit {
        pop_above(s.drop_last(), limit)
    } else {
        s
    }
}

proof fn lemma_stack_bounded(nodes: Seq<StyleNode>, i: int)
    requires
        tree_wf(nodes),
        0 <= i < nodes.len(),
    ensures
        forall|k: int| 0 <= k < sheet_stack(nodes, i).len() ==> sheet_stack(nodes, i)[k].0 <= i,
    decreases i,
{
    let p = nodes[i].parent;
    if p != NO_PARENT && (p as int) < i {
        lemma_stack_bounded(nodes, p as int);
        let rest = sheet_stack(nodes, p as int);
        assert forall|k: int| 0 <= k < sheet_stack(nodes, i).len() implies sheet_stack(nodes, i)[k].0 <= i by {
            if k < rest.len() {
                assert(rest[k].0 <= p);
            }
        }
    }
}

proof fn lemma_pop_none(s: Seq<(usize, usize)>, limit: usize)
    requires
        forall|k: int| 0 <= k < s.len() ==> s[k].0 <= limit,
    ensures
        pop_above(s, limit) == s,
{
}

proof fn lemma_pop_to_ancestor(nodes: Seq<StyleNode>, p: int, j: int)
    requires
        tree_wf(nodes),
        nodes.len() <= usize::MAX,
        0 <= j < nodes.len(),
        on_path(nodes, p, j),
    ensures
        pop_above(sheet_stack(nodes, j), p as usize) == sheet_stack(nodes, p),
    decreases j,
{
    if p == j {
        lemma_stack_bounded(nodes, j);
        lemma_pop_none(sheet_stack(nodes, j), p as usize);
    } else {
        lemma_ancestor_before(nodes, p, j);
        let q = nodes[j].parent as int;
        if j > 0 {
            assert(q < j);
        }
        assert(on_path(nodes, p, q));
        lemma_pop_to_ancestor(nodes, p, q);
        let rest = sheet_stack(nodes, q);
        if nodes[j].style_sheet is Some {
            assert(sheet_stack(nodes, j).drop_last() == rest);
        }
    }
}

/// Brings the stack of stylesheets in scope from the previous node to node `idx`:
/// entries of nodes after `idx`'s parent are dropped, and `idx`'s own stylesheet is pushed.
///
/// Walking the nodes in pre-order, this keeps the stack equal to the stylesheets on the
/// path from the root to the current node.
pub fn update_sheets(nodes: &[StyleNode], idx: usize, active_sheets: &mut Vec<(usize, usize)>)
    requires
        idx < nodes@.len(),
    ensures
        final(active_sheets)@ == (match nodes@[idx as int].style_sheet {
            Some(sheet) => pop_above(old(active_sheets)@, nodes@[idx as int].parent).push((idx, sheet)),
            Option::None => pop_above(old(active_sheets)@, nodes@[idx as int].parent),
        }),
        preorder(nodes@) && ((idx == 0 && old(active_sheets)@ == Seq::<(usize, usize)>::empty()) || (
        idx > 0 && old(active_sheets)@ == sheet_stack(nodes@, idx - 1))) ==> final(active_sheets)@
            == sheet_stack(nodes@, idx as int),
{
    let parent = nodes[idx].parent;
    let ghost start = active_sheets@;
    loop
        invariant
            pop_above(start, parent) == pop_above(active_sheets@, parent),
        ensures
            pop_above(start, parent) == active_sheets@,
        decreases active_sheets@.len(),
    {
        let n = active_sheets.len();
        if n == 0 || active_sheets[n - 1].0 <= parent {
            break;
        }
        proof {
            assert(active_sheets@.last() == active_sheets@[n - 1]);
        }
        active_sheets.pop();
    }
    if let Some(sheet) = nodes[idx].style_sheet {
        active_sheets.push((idx, sheet));
    }
    proof {
        if preorder(nodes@) {
            if idx > 0 && start == sheet_stack(nodes@, idx - 1) {
                assert(on_path(nodes@, nodes@[idx as int].parent as int, idx - 1));
                lemma_pop_to_ancestor(nodes@, parent as int, idx - 1);
                assert((parent as int) < idx);
            }
        }
    }
}

/// The fingerprints (under `fp`) of the class ids of `s`, as a multiset.
pub open spec fn ids_bag(fp: spec_fn(u32) -> u64, s: Seq<StrId>) -> Multiset<u64>
    decreases s.len(),
{
    if s.len() == 0 {
        Multiset::empty()
    } else {
        ids_bag(fp, s.drop_first()).insert(fp(s[0].0))
    }
}

/// The fingerprints (under `fp`) of the classes of all proper ancestors of node `i`, with
/// multiplicity.
pub open spec fn ancestor_bag(fp: spec_fn(u32) -> u64, nodes: Seq<StyleNode>, i: int) -> Multiset<u64>
    decreases i,
{
    if 0 <= i < nodes.len() && nodes[i].parent != NO_PARENT && (nodes[i].parent as int) < i {
        let p = nodes[i].parent as int;
        ids_bag(fp, nodes[p].classes@).add(ancestor_bag(fp, nodes, p))
    } else {
        Multiset::empty()
    }
}

/// The filter holds exactly the fingerprints of the classes of the ancestors of node `i`.
pub open spec fn holds_ancestors(f: Filter, nodes: Seq<StyleNode>, i: int) -> bool {
    filter_fingerprints(f) == ancestor_bag(filter_fp(f), nodes, i)
}

proof fn lemma_ids_bag_push(fp: spec_fn(u32) -> u64, s: Seq<StrId>, x: StrId)
    ensures
        ids_bag(fp, s.push(x)) == ids_bag(fp, s).insert(fp(x.0)),
    decreases s.len(),
{
    if s.len() == 0 {
        assert(s.push(x).drop_first() =~= s);
    } else {
        assert(s.push(x).drop_first() =~= s.drop_first().push(x));
        lemma_ids_bag_push(fp, s.drop_first(), x);
    }
}

proof fn lemma_ids_bag_contains(fp: spec_fn(u32) -> u64, s: Seq<StrId>, k: int)
    requires
        0 <= k < s.len(),
    ensures
        ids_bag(fp, s).count(fp(s[k].0)) > 0,
    decreases s.len(),
{
    if k > 0 {
        assert(s.drop_first()[k - 1] == s[k]);
        lemma_ids_bag_contains(fp, s.drop_first(), k - 1);
    }
}

/// A filter that holds the fingerprints of the ancestors' classes of `idx` holds the
/// fingerprint of every class of every ancestor of `idx`.
pub proof fn lemma_bag_covers(nodes: Seq<StyleNode>, idx: int, f: Filter)
    requires
        tree_wf(nodes),
        holds_ancestors(f, nodes, idx),
    ensures
        filter_covers_ancestors(f, nodes, idx),
{
    assert forall|a: int, c: StrId| is_ancestor(nodes, a, idx) && #[trigger] nodes[a].classes@.contains(c) implies #[trigger] filter_fingerprints(f).count(
        filter_fingerprint(f, c.0),
    ) > 0 by {
        lemma_ancestor_in_bag(filter_fp(f), nodes, a, idx, c);
    }
}

proof fn lemma_ancestor_in_bag(fp: spec_fn(u32) -> u64, nodes: Seq<StyleNode>, a: int, i: int, c: StrId)
    requires
        is_ancestor(nodes, a, i),
        nodes[a].classes@.contains(c),
    ensures
        ancestor_bag(fp, nodes, i).count(fp(c.0)) > 0,
    decreases i,
{
    let p = nodes[i].parent as int;
    if p == a {
        let k = choose|k: int| 0 <= k < nodes[a].classes@.len() && nodes[a].classes@[k] == c;
        lemma_ids_bag_contains(fp, nodes[a].classes@, k);
    } else {
        lemma_ancestor_in_bag(fp, nodes, a, p, c);
    }
}

/// Adds the fingerprints of a node's classes to the filter; returns whether every
/// insertion succeeded. An insertion that fails leaves the filter as it was, so the
/// filter gains some of them, and all of them exactly when the result is `true`.
pub(crate) fn insert_classes(classes: &[StrId], ancestor_classes: &mut Filter) -> (r: bool)
    ensures
        filter_fp(*final(ancestor_classes)) == filter_fp(*old(ancestor_classes)),
        r ==> filter_fingerprints(*final(ancestor_classes)) == filter_fingerprints(*old(ancestor_classes)).add(
            ids_bag(filter_fp(*old(ancestor_classes)), classes@),
        ),
        exists|added: Multiset<u64>|
            #![trigger filter_fingerprints(*old(ancestor_classes)).add(added)]
            added.subset_of(ids_bag(filter_fp(*old(ancestor_classes)), classes@)) && filter_fingerprints(*final(ancestor_classes))
                == filter_fingerprints(*old(ancestor_classes)).add(added) && (r <==> added == ids_bag(
                filter_fp(*old(ancestor_classes)),
                classes@,
            )),
{
    let ghost fp = filter_fp(*ancestor_classes);
    let ghost start = filter_fingerprints(*ancestor_classes);
    let n = classes.len();
    let mut all_ok = true;
    let mut j: usize = 0;
    let ghost mut added: Multiset<u64> = Multiset::empty();
    assert(classes@.take(0) =~= Seq::<StrId>::empty());
    assert(filter_fingerprints(*ancestor_classes) =~= start.add(added));
    while j < n
        invariant
            n == classes@.len(),
            0 <= j <= n,
            fp == filter_fp(*old(ancestor_classes)),
            start == filter_fingerprints(*old(ancestor_classes)),
            filter_fp(*ancestor_classes) == fp,
            added.subset_of(ids_bag(fp, classes@.take(j as int))),
            filter_fingerprints(*ancestor_classes) == start.add(added),
            all_ok <==> added == ids_bag(fp, classes@.take(j as int)),
        decreases n - j,
    {
        let x = classes[j].0;
        let ghost b = ids_bag(fp, classes@.take(j as int));
        let ghost before = *ancestor_classes;
        let ok = filter_insert_duplicated(ancestor_classes, x);
        proof {
            assert(filter_fp(before)(x) == fp(x));
            assert(filter_fingerprint(before, x) == fp(x));
            assert(classes@.take(j + 1) =~= classes@.take(j as int).push(classes@[j as int]));
            lemma_ids_bag_push(fp, classes@.take(j as int), classes@[j as int]);
            let b2 = b.insert(fp(x));
            if ok {
                let a2 = added.insert(fp(x));
                assert(start.add(added).insert(fp(x)) =~= start.add(a2));
                assert(a2.subset_of(b2));
                if a2 == b2 {
                    assert forall|v: u64| added.count(v) == b.count(v) by {
                        assert(a2.count(v) == b2.count(v));
                    }
                    assert(added =~= b);
                }
                added = a2;
            } else {
                assert(added.count(fp(x)) < b2.count(fp(x)));
                assert(added != b2);
                assert(added.subset_of(b2));
            }
        }
        if !ok {
            all_ok = false;
        }
        j += 1;
    }
    assert(classes@.take(n as int) =~= classes@);
    all_ok
}

/// Removes the fingerprints of a node's classes from a filter that holds them.
fn remove_classes(classes: &[StrId], ancestor_classes: &mut Filter, Ghost(rest): Ghost<Multiset<u64>>)
    requires
        filter_fingerprints(*old(ancestor_classes)) == ids_bag(filter_fp(*old(ancestor_classes)), classes@).add(rest),
    ensures
        filter_fp(*final(ancestor_classes)) == filter_fp(*old(ancestor_classes)),
        filter_fingerprints(*final(ancestor_classes)) == rest,
{
    let ghost fp = filter_fp(*ancestor_classes);
    let n = classes.len();
    let mut j: usize = 0;
    assert(classes@.skip(0) =~= classes@);
    while j < n
        invariant
            n == classes@.len(),
            0 <= j <= n,
            fp == filter_fp(*old(ancestor_classes)),
            filter_fp(*ancestor_classes) == fp,
            filter_fingerprints(*ancestor_classes) == ids_bag(fp, classes@.skip(j as int)).add(rest),
        decreases n - j,
    {
        let x = classes[j].0;
        let ghost before = *ancestor_classes;
        proof {
            assert(classes@.skip(j as int).drop_first() =~= classes@.skip(j + 1));
            assert(classes@.skip(j as int)[0] == classes@[j as int]);
            assert(filter_fp(before)(x) == fp(x));
        }
        filter_remove(ancestor_classes, x);
        proof {
            let b = ids_bag(fp, classes@.skip(j + 1));
            assert(b.insert(fp(x)).add(rest).remove(fp(x)) =~= b.add(rest));
        }
        j += 1;
    }
    assert(classes@.skip(n as int) =~= Seq::<StrId>::empty());
    assert(ids_bag(fp, Seq::<StrId>::empty()).add(rest) =~= rest);
}

/// Updates the filter of ancestor classes when the walk moves from node `idx - 1` to node
/// `idx`: going down, the parent's classes are added; going up, the classes of the nodes
/// left behind are removed. Returns whether every insertion into the filter succeeded.
///
/// Walking the nodes in pre-order, this keeps the filter equal to the classes of the
/// ancestors of the current node.
pub fn update_ancestors(nodes: &[StyleNode], idx: usize, ancestor_classes: &mut Filter) -> (r: bool)
    requires
        preorder(nodes@),
        idx < nodes@.len(),
        idx > 0 ==> holds_ancestors(*old(ancestor_classes), nodes@, idx - 1),
    ensures
        filter_fp(*final(ancestor_classes)) == filter_fp(*old(ancestor_classes)),
        idx == 0 ==> *final(ancestor_classes) == *old(ancestor_classes) && r,
        idx > 0 ==> (r <==> holds_ancestors(*final(ancestor_classes), nodes@, idx as int)),
{
    if idx == 0 {
        return true;
    }
    let parent = nodes[idx].parent;
    let prev_parent = nodes[idx - 1].parent;
    proof {
        assert((parent as int) < idx);
        assert(on_path(nodes@, parent as int, idx - 1));
    }
    if parent == prev_parent {
        proof {
            if idx - 1 > 0 {
                assert((prev_parent as int) < idx - 1);
            } else {
                assert(nodes@[0].parent == NO_PARENT);
            }
        }
        return true;
    }
    if parent > prev_parent || prev_parent == NO_PARENT {
        proof {
            if parent as int != idx - 1 {
                lemma_ancestor_before(nodes@, parent as int, idx - 1);
            }
            assert(parent as int == idx - 1);
        }
        let ghost fp = filter_fp(*ancestor_classes);
        let ghost old_fps = filter_fingerprints(*ancestor_classes);
        let ok = insert_classes(nodes[parent].classes.as_slice(), ancestor_classes);
        proof {
            let bp = ids_bag(fp, nodes@[parent as int].classes@);
            let added = choose|added: Multiset<u64>|
                #![trigger old_fps.add(added)]
                added.subset_of(bp) && filter_fingerprints(*ancestor_classes) == old_fps.add(added) && (ok <==> added == bp);
            if !ok && filter_fingerprints(*ancestor_classes) == old_fps.add(bp) {
                assert forall|v: u64| added.count(v) == bp.count(v) by {
                    assert(old_fps.add(added).count(v) == old_fps.add(bp).count(v));
                }
                assert(added =~= bp);
            }
            assert(ancestor_bag(fp, nodes@, idx - 1).add(ids_bag(fp, nodes@[parent as int].classes@)) =~= ids_bag(
                fp,
                nodes@[parent as int].classes@,
            ).add(ancestor_bag(fp, nodes@, idx - 1)));
        }
        ok
    } else {
        // Moving up: remove the classes of the nodes between the previous parent and the new one.
        let mut curr = prev_parent;
        let ghost fp = filter_fp(*ancestor_classes);
        proof {
            assert(parent as int != idx - 1);
            assert(is_ancestor(nodes@, parent as int, idx - 1));
            assert((prev_parent as int) < idx - 1);
        }
        while curr != parent
            invariant
                preorder(nodes@),
                idx < nodes@.len(),
                (parent as int) < idx,
                parent == nodes@[idx as int].parent,
                (curr as int) < nodes@.len(),
                on_path(nodes@, parent as int, curr as int),
                fp == filter_fp(*old(ancestor_classes)),
                filter_fp(*ancestor_classes) == fp,
                filter_fingerprints(*ancestor_classes) == ids_bag(fp, nodes@[curr as int].classes@).add(ancestor_bag(fp, nodes@, curr as int)),
            decreases curr,
        {
            proof {
                lemma_ancestor_before(nodes@, parent as int, curr as int);
            }
            let next = nodes[curr].parent;
            proof {
                if curr > 0 {
                    assert((next as int) < curr);
                }
            }
            remove_classes(nodes[curr].classes.as_slice(), ancestor_classes, Ghost(ancestor_bag(fp, nodes@, curr as int)));
            curr = next;
        }
        true
    }
}

} // verus!
