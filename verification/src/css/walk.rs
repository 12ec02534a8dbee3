//! The decisions of the styling pass over the dirty regions of the tree: which rules
//! match each node in the current interaction state, the variables in scope there, and
//! how far a region of dirty nodes extends. Applying the matched rules' properties is
//! left to the caller, which runs the walk.

use vstd::prelude::*;

use qfilter::Filter;
use vstd::multiset::Multiset;

use crate::css::filter::{filter_clear, filter_fingerprints, filter_fp};
use crate::css::matching::{filter_covers_ancestors, rule_matches_opt, spec_rule_matches, PseudoState};
use crate::css::passes::{collect_candidates, handles_ok, lemma_stack_handles, node_visits, rule_at, stack_ok, visit_order};
use crate::css::rules::{vars_view, StylesheetRules};
use crate::css::traversal::{ancestor_bag, holds_ancestors, ids_bag, insert_classes, lemma_bag_covers, sheet_stack, update_ancestors, update_sheets, pop_above};
use crate::css::tree::{is_ancestor, lemma_ancestor_before, on_path, preorder, tree_wf, StyleNode, NO_PARENT};
use crate::css::variables::{prune_scopes, VariableContext};
use crate::nodeid::NodeId;

verus! {

/// The rules among `visits` that match node `i` in the given state, as (stylesheet handle,
/// rule index) pairs, in visiting order.
pub open spec fn matched_rules(
    sheets: Seq<StylesheetRules>,
    stack: Seq<(usize, usize)>,
    visits: Seq<(usize, usize)>,
    nodes: Seq<StyleNode>,
    i: usize,
    focused: Option<NodeId>,
    active: Option<NodeId>,
    hot: Seq<usize>,
) -> Seq<(usize, usize)>
    decreases visits.len(),
{
    if visits.len() == 0 {
        Seq::empty()
    } else {
        let v = visits.last();
        let r = rule_at(sheets, stack, v);
        let rest = matched_rules(sheets, stack, visits.drop_last(), nodes, i, focused, active, hot);
        if spec_rule_matches(r.selectors@, nodes, i, focused, active, hot) {
            rest.push((stack[v.0 as int].1, v.1))
        } else {
            rest
        }
    }
}

/// The variable scopes that the matching rules among `visits` with pseudo-classes and
/// variables open at node `i`, in visiting order.
pub open spec fn pseudo_var_scopes(
    sheets: Seq<StylesheetRules>,
    stack: Seq<(usize, usize)>,
    visits: Seq<(usize, usize)>,
    nodes: Seq<StyleNode>,
    i: usize,
    focused: Option<NodeId>,
    active: Option<NodeId>,
    hot: Seq<usize>,
) -> Seq<(usize, Seq<(Seq<char>, Seq<char>)>)>
    decreases visits.len(),
{
    if visits.len() == 0 {
        Seq::empty()
    } else {
        let r = rule_at(sheets, stack, visits.last());
        let rest = pseudo_var_scopes(sheets, stack, visits.drop_last(), nodes, i, focused, active, hot);
        if r.has_pseudos && r.variables@.len() > 0 && spec_rule_matches(r.selectors@, nodes, i, focused, active, hot) {
            rest.push((i, vars_view(r.variables@)))
        } else {
            rest
        }
    }
}

/// Tries the rules of the stylesheets in scope (`active_sheets`, farthest first) on node
/// `idx` in the given interaction state. Returns the matching rules as (stylesheet handle,
/// rule index) pairs, nearest stylesheet first and in stylesheet order within each, and
/// opens a variable scope for each matching rule with pseudo-classes and variables.
pub fn match_node(
    nodes: &[StyleNode],
    sheets: &[StylesheetRules],
    active_sheets: &[(usize, usize)],
    idx: usize,
    state: &PseudoState,
    ancestor_classes: Option<&Filter>,
    var_ctx: &mut VariableContext,
) -> (r: Vec<(usize, usize)>)
    requires
        tree_wf(nodes@),
        idx < nodes@.len(),
        ancestor_classes matches Some(f) ==> filter_covers_ancestors(*f, nodes@, idx as int),
        stack_ok(sheets@, active_sheets@),
        old(var_ctx).wf(),
    ensures
        final(var_ctx).wf(),
        r@ == matched_rules(sheets@, active_sheets@, visit_order(sheets@, active_sheets@, nodes@[idx as int].classes@), nodes@, idx,
            state.focused_node, state.active_node, state.hot_nodes@),
        final(var_ctx)@ == old(var_ctx)@ + pseudo_var_scopes(sheets@, active_sheets@, visit_order(sheets@, active_sheets@, nodes@[idx as int].classes@),
            nodes@, idx, state.focused_node, state.active_node, state.hot_nodes@),
{
    let visits = collect_candidates(sheets, active_sheets, nodes[idx].classes.as_slice());
    let ghost vis = visits@;
    let ghost stack = active_sheets@;
    let ghost (fo, ac, ho) = (state.focused_node, state.active_node, state.hot_nodes@);
    proof {
        assert(active_sheets@.len() == active_sheets.len());
        crate::css::passes::lemma_visits_valid(sheets@, stack, nodes@[idx as int].classes@);
        assert(vis.take(0) =~= Seq::<(usize, usize)>::empty());
        assert(var_ctx@ + Seq::<(usize, Seq<(Seq<char>, Seq<char>)>)>::empty() =~= var_ctx@);
    }
    let mut out: Vec<(usize, usize)> = Vec::new();
    let m = visits.len();
    let mut v: usize = 0;
    while v < m
        invariant
            m == vis.len(),
            0 <= v <= m,
            vis == visits@,
            stack == active_sheets@,
            vis == visit_order(sheets@, stack, nodes@[idx as int].classes@),
            forall|w: int| #![trigger vis[w]] 0 <= w < vis.len() ==> vis[w].0 < stack.len() && vis[w].1 < sheets@[stack[vis[w].0 as int].1 as int].rules@.len(),
            stack_ok(sheets@, stack),
            tree_wf(nodes@),
            idx < nodes@.len(),
            ancestor_classes matches Some(f) ==> filter_covers_ancestors(*f, nodes@, idx as int),
            fo == state.focused_node,
            ac == state.active_node,
            ho == state.hot_nodes@,
            var_ctx.wf(),
            out@ == matched_rules(sheets@, stack, vis.take(v as int), nodes@, idx, fo, ac, ho),
            var_ctx@ == old(var_ctx)@ + pseudo_var_scopes(sheets@, stack, vis.take(v as int), nodes@, idx, fo, ac, ho),
        decreases m - v,
    {
        let (t, x) = visits[v];
        proof {
            let _ = vis[v as int];
            let _ = stack[t as int];
            assert(vis.take(v + 1).drop_last() =~= vis.take(v as int));
            assert(vis.take(v + 1).last() == vis[v as int]);
        }
        let handle = active_sheets[t].1;
        let rule = &sheets[handle].rules[x];
        let ghost before = var_ctx@;
        if rule_matches_opt(rule, nodes, idx, state, ancestor_classes) {
            out.push((handle, x));
            if rule.has_pseudos && rule.variables.len() > 0 {
                var_ctx.push_vars(idx, rule.variables.as_slice());
                proof {
                    assert(var_ctx@ =~= old(var_ctx)@ + pseudo_var_scopes(sheets@, stack, vis.take(v + 1), nodes@, idx, fo, ac, ho));
                }
            } else {
                proof {
                    assert(var_ctx@ =~= old(var_ctx)@ + pseudo_var_scopes(sheets@, stack, vis.take(v + 1), nodes@, idx, fo, ac, ho));
                }
            }
        }
        v += 1;
    }
    proof {
        assert(vis.take(m as int) =~= vis);
    }
    out
}

/// The variable bindings cached for each node by the pre-pass.
pub open spec fn cache_view(cache: Seq<Vec<(String, String)>>) -> Seq<Seq<(Seq<char>, Seq<char>)>> {
    cache.map_values(|c: Vec<(String, String)>| vars_view(c@))
}

/// The scope that node `i`'s cached bindings open, if it has any.
pub open spec fn cache_scope(cache: Seq<Seq<(Seq<char>, Seq<char>)>>, i: int) -> Seq<(usize, Seq<(Seq<char>, Seq<char>)>)> {
    if 0 <= i < cache.len() && cache[i].len() > 0 {
        seq![(i as usize, cache[i])]
    } else {
        Seq::empty()
    }
}

/// The scopes that node `i` opens: its cached bindings, then the bindings of its matching
/// rules with pseudo-classes.
pub open spec fn own_scopes(
    nodes: Seq<StyleNode>,
    sheets: Seq<StylesheetRules>,
    cache: Seq<Seq<(Seq<char>, Seq<char>)>>,
    i: int,
    focused: Option<NodeId>,
    active: Option<NodeId>,
    hot: Seq<usize>,
) -> Seq<(usize, Seq<(Seq<char>, Seq<char>)>)> {
    cache_scope(cache, i) + pseudo_var_scopes(sheets, sheet_stack(nodes, i), node_visits(nodes, sheets, i), nodes, i as usize, focused, active, hot)
}

/// The scopes opened by the nodes on the path from the root to node `i`, root first.
pub open spec fn chain_to(
    nodes: Seq<StyleNode>,
    sheets: Seq<StylesheetRules>,
    cache: Seq<Seq<(Seq<char>, Seq<char>)>>,
    i: int,
    focused: Option<NodeId>,
    active: Option<NodeId>,
    hot: Seq<usize>,
) -> Seq<(usize, Seq<(Seq<char>, Seq<char>)>)>
    decreases i,
{
    let rest = if 0 <= i < nodes.len() && nodes[i].parent != NO_PARENT && (nodes[i].parent as int) < i {
        chain_to(nodes, sheets, cache, nodes[i].parent as int, focused, active, hot)
    } else {
        Seq::empty()
    };
    rest + own_scopes(nodes, sheets, cache, i, focused, active, hot)
}

/// Node `i` has a parent, which comes before it.
pub open spec fn has_parent(nodes: Seq<StyleNode>, i: int) -> bool {
    0 <= i < nodes.len() && nodes[i].parent != NO_PARENT && (nodes[i].parent as int) < i
}

/// Brings the walk's state from node `a`'s parent (or from nothing, at the root) to `a`:
/// pushes its stylesheet and opens its variable scopes.
fn enter_node(
    nodes: &[StyleNode],
    sheets: &[StylesheetRules],
    var_scope_cache: &[Vec<(String, String)>],
    a: usize,
    state: &PseudoState,
    covered: bool,
    active_sheets: &mut Vec<(usize, usize)>,
    ancestor_classes: &Filter,
    var_ctx: &mut VariableContext,
)
    requires
        tree_wf(nodes@),
        a < nodes@.len(),
        handles_ok(nodes@, sheets@),
        old(var_ctx).wf(),
        has_parent(nodes@, a as int) ==> old(active_sheets)@ == sheet_stack(nodes@, nodes@[a as int].parent as int),
        !has_parent(nodes@, a as int) ==> old(active_sheets)@ == Seq::<(usize, usize)>::empty(),
        has_parent(nodes@, a as int) ==> old(var_ctx)@ == chain_to(nodes@, sheets@, cache_view(var_scope_cache@), nodes@[a as int].parent as int,
            state.focused_node, state.active_node, state.hot_nodes@),
        !has_parent(nodes@, a as int) ==> old(var_ctx)@ == Seq::<(usize, Seq<(Seq<char>, Seq<char>)>)>::empty(),
        covered ==> holds_ancestors(*ancestor_classes, nodes@, a as int),
    ensures
        final(active_sheets)@ == sheet_stack(nodes@, a as int),
        final(var_ctx).wf(),
        final(var_ctx)@ == chain_to(nodes@, sheets@, cache_view(var_scope_cache@), a as int, state.focused_node, state.active_node,
            state.hot_nodes@),
{
    let ghost cache = cache_view(var_scope_cache@);
    let ghost parent_chain = old(var_ctx)@;
    if let Some(h) = nodes[a].style_sheet {
        active_sheets.push((a, h));
    }
    proof {
        assert(active_sheets@ =~= sheet_stack(nodes@, a as int));
    }
    if a < var_scope_cache.len() {
        var_ctx.push_vars(a, var_scope_cache[a].as_slice());
    }
    proof {
        assert(var_ctx@ =~= parent_chain + cache_scope(cache, a as int));
        lemma_stack_handles(nodes@, sheets@, a as int);
        if covered {
            lemma_bag_covers(nodes@, a as int, *ancestor_classes);
        }
    }
    let ghost mid = var_ctx@;
    let _ = if covered {
        match_node(nodes, sheets, active_sheets.as_slice(), a, state, Some(ancestor_classes), var_ctx)
    } else {
        match_node(nodes, sheets, active_sheets.as_slice(), a, state, Option::None, var_ctx)
    };
    proof {
        let own = own_scopes(nodes@, sheets@, cache, a as int, state.focused_node, state.active_node, state.hot_nodes@);
        assert(var_ctx@ =~= parent_chain + own);
    }
}

/// `x` is held within `t` but is not all of it.
pub open spec fn strictly_within(x: Multiset<u64>, t: Multiset<u64>) -> bool {
    x.subset_of(t) && x != t
}

proof fn lemma_strict_grow(x: Multiset<u64>, a: Multiset<u64>, b: Multiset<u64>)
    requires
        strictly_within(x, a),
    ensures
        strictly_within(x, a.add(b)),
{
    if x == a.add(b) {
        assert forall|v: u64| x.count(v) == a.count(v) by {
            assert(x.count(v) <= a.count(v));
        }
        assert(x =~= a);
    }
}

proof fn lemma_strict_add(a: Multiset<u64>, added: Multiset<u64>, b: Multiset<u64>)
    requires
        added.subset_of(b),
        added != b,
    ensures
        strictly_within(a.add(added), b.add(a)),
{
    if a.add(added) == b.add(a) {
        assert forall|v: u64| added.count(v) == b.count(v) by {
            assert(a.add(added).count(v) == b.add(a).count(v));
        }
        assert(added =~= b);
    }
}

/// Rebuilds, for the first node `idx` of a dirty region, the state that the walk keeps:
/// the stylesheets in scope, the filter of ancestor classes, and the variables in scope
/// (each node on the path from the root opens its cached bindings and those of its
/// matching rules with pseudo-classes). Returns whether the filter holds exactly the
/// classes of the ancestors of `idx` (false when an insertion into it failed).
pub fn rebuild_ancestor_state(
    nodes: &[StyleNode],
    sheets: &[StylesheetRules],
    var_scope_cache: &[Vec<(String, String)>],
    idx: usize,
    state: &PseudoState,
    active_sheets: &mut Vec<(usize, usize)>,
    ancestor_classes: &mut Filter,
    var_ctx: &mut VariableContext,
) -> (covered: bool)
    requires
        tree_wf(nodes@),
        idx < nodes@.len(),
        handles_ok(nodes@, sheets@),
        old(var_ctx).wf(),
    ensures
        final(active_sheets)@ == sheet_stack(nodes@, idx as int),
        covered <==> holds_ancestors(*final(ancestor_classes), nodes@, idx as int),
        final(var_ctx).wf(),
        final(var_ctx)@ == chain_to(nodes@, sheets@, cache_view(var_scope_cache@), idx as int, state.focused_node, state.active_node,
            state.hot_nodes@),
{
    let ghost cache = cache_view(var_scope_cache@);
    let ghost (fo, ac, ho) = (state.focused_node, state.active_node, state.hot_nodes@);
    active_sheets.clear();
    filter_clear(ancestor_classes);
    var_ctx.clear();
    proof {
        assert(nodes@.len() == nodes.len());
    }
    let mut path: Vec<usize> = Vec::new();
    let mut curr = idx;
    while curr != NO_PARENT
        invariant
            tree_wf(nodes@),
            idx < nodes@.len(),
            nodes@.len() <= usize::MAX,
            curr == NO_PARENT || curr < nodes@.len(),
            path@.len() == 0 ==> curr == idx,
            path@.len() > 0 ==> path@[0] == idx,
            forall|j: int| 0 <= j < path@.len() ==> #[trigger] path@[j] < nodes@.len(),
            forall|j: int| 0 <= j < path@.len() - 1 ==> (#[trigger] nodes@[path@[j] as int].parent) == path@[j + 1] && path@[j + 1] < path@[j],
            path@.len() > 0 ==> curr == nodes@[path@.last() as int].parent,
            path@.len() > 0 && curr != NO_PARENT ==> curr < path@.last(),
        decreases (if curr == NO_PARENT { 0 } else { curr + 1 }),
    {
        let ghost old_path = path@;
        path.push(curr);
        proof {
            if old_path.len() > 0 {
                assert(path@[old_path.len() - 1] == old_path.last());
                assert(nodes@[path@[old_path.len() - 1] as int].parent == path@[old_path.len() as int]);
            }
            assert forall|j: int| 0 <= j < path@.len() - 1 implies (#[trigger] nodes@[path@[j] as int].parent) == path@[j + 1] && path@[j + 1] < path@[j] by {
                if j < old_path.len() - 1 {
                    assert(path@[j] == old_path[j] && path@[j + 1] == old_path[j + 1]);
                    assert(nodes@[old_path[j] as int].parent == old_path[j + 1]);
                }
            }
        }
        let next = nodes[curr].parent;
        proof {
            if curr > 0 {
                assert((nodes@[curr as int].parent as int) < curr);
            } else {
                assert(nodes@[0].parent == NO_PARENT);
            }
        }
        curr = next;
    }
    assert(forall|j: int| 0 <= j < path@.len() - 1 ==> (#[trigger] nodes@[path@[j] as int].parent) == path@[j + 1]);
    let mut covered = true;
    let mut k = path.len();
    let ghost fp = filter_fp(*ancestor_classes);
    proof {
        assert(active_sheets@ =~= Seq::<(usize, usize)>::empty());
    }
    while k > 0
        invariant
            tree_wf(nodes@),
            idx < nodes@.len(),
            handles_ok(nodes@, sheets@),
            cache == cache_view(var_scope_cache@),
            fo == state.focused_node,
            ac == state.active_node,
            ho == state.hot_nodes@,
            0 <= k <= path@.len(),
            path@.len() > 0,
            path@[0] == idx,
            nodes@[path@.last() as int].parent == NO_PARENT,
            forall|j: int| 0 <= j < path@.len() ==> #[trigger] path@[j] < nodes@.len(),
            forall|j: int| 0 <= j < path@.len() - 1 ==> (#[trigger] nodes@[path@[j] as int].parent) == path@[j + 1] && path@[j + 1] < path@[j],
            var_ctx.wf(),
            k == path@.len() ==> active_sheets@ == Seq::<(usize, usize)>::empty(),
            k == path@.len() ==> filter_fingerprints(*ancestor_classes) == vstd::multiset::Multiset::<u64>::empty(),
            k == path@.len() ==> var_ctx@ == Seq::<(usize, Seq<(Seq<char>, Seq<char>)>)>::empty(),
            k < path@.len() ==> active_sheets@ == sheet_stack(nodes@, path@[k as int] as int),
            k < path@.len() ==> var_ctx@ == chain_to(nodes@, sheets@, cache, path@[k as int] as int, fo, ac, ho),
            0 < k < path@.len() && covered ==> holds_ancestors(*ancestor_classes, nodes@, path@[k - 1] as int),
            k == 0 && covered ==> holds_ancestors(*ancestor_classes, nodes@, idx as int),
            fp == filter_fp(*ancestor_classes),
            k == path@.len() ==> covered,
            0 < k < path@.len() && !covered ==> strictly_within(filter_fingerprints(*ancestor_classes), ancestor_bag(fp, nodes@, path@[k - 1] as int)),
            k == 0 && !covered ==> strictly_within(filter_fingerprints(*ancestor_classes), ancestor_bag(fp, nodes@, idx as int)),
        decreases k,
    {
        let a = path[k - 1];
        proof {
            let _ = path@[k - 1];
            if k < path@.len() {
                assert(nodes@[path@[k - 1] as int].parent == path@[k as int]);
                assert(has_parent(nodes@, a as int));
            } else {
                assert(!has_parent(nodes@, a as int));
            }
            if k == path@.len() {
                assert(ancestor_bag(filter_fp(*ancestor_classes), nodes@, a as int) =~= vstd::multiset::Multiset::<u64>::empty());
            }
        }
        enter_node(nodes, sheets, var_scope_cache, a, state, covered, active_sheets, ancestor_classes, var_ctx);
        // Every node of the path but `idx` itself is an ancestor of `idx`.
        let ghost before_fps = filter_fingerprints(*ancestor_classes);
        let ghost was_covered = covered;
        if k > 1 && covered {
            covered = insert_classes(nodes[a].classes.as_slice(), ancestor_classes);
            proof {
                let c = path@[k - 2] as int;
                assert(nodes@[c].parent == path@[k - 1]);
                assert(has_parent(nodes@, c));
                let bp = ids_bag(fp, nodes@[a as int].classes@);
                assert(ancestor_bag(fp, nodes@, c) == bp.add(ancestor_bag(fp, nodes@, a as int)));
                if !covered {
                    let added = choose|added: Multiset<u64>|
                        #![trigger before_fps.add(added)]
                        added.subset_of(bp) && filter_fingerprints(*ancestor_classes) == before_fps.add(added) && (covered <==> added == bp);
                    if k == path@.len() {
                        assert(ancestor_bag(fp, nodes@, a as int) =~= Multiset::<u64>::empty());
                    }
                    assert(before_fps == ancestor_bag(fp, nodes@, a as int));
                    lemma_strict_add(before_fps, added, bp);
                }
                if covered {
                    let c = path@[k - 2] as int;
                    assert(nodes@[c].parent == path@[k - 1]);
                    assert(has_parent(nodes@, c));
                    assert(ancestor_bag(fp, nodes@, c) == ids_bag(fp, nodes@[a as int].classes@).add(ancestor_bag(fp, nodes@, a as int)));
                    assert(filter_fingerprints(*ancestor_classes) =~= ids_bag(fp, nodes@[a as int].classes@).add(ancestor_bag(fp, nodes@, a as int)));
                }
            }
        } else if k > 1 {
            proof {
                let c = path@[k - 2] as int;
                assert(nodes@[c].parent == path@[k - 1]);
                assert(has_parent(nodes@, c));
                let bp = ids_bag(fp, nodes@[a as int].classes@);
                assert(ancestor_bag(fp, nodes@, c) == bp.add(ancestor_bag(fp, nodes@, a as int)));
                if k < path@.len() {
                    lemma_strict_grow(before_fps, ancestor_bag(fp, nodes@, a as int), bp);
                    assert(ancestor_bag(fp, nodes@, a as int).add(bp) =~= bp.add(ancestor_bag(fp, nodes@, a as int)));
                }
            }
        }
        k -= 1;
    }
    covered
}

/// Brings the walk's state from node `idx - 1` to node `idx`, in pre-order: the
/// stylesheets in scope, the filter of ancestor classes (while it is maintained), and the
/// variables in scope (the scopes of nodes after `idx`'s parent are left, and `idx`'s
/// cached bindings open a scope). Returns whether the filter is still maintained.
pub fn advance_to_node(
    nodes: &[StyleNode],
    var_scope_cache: &[Vec<(String, String)>],
    idx: usize,
    covered: bool,
    active_sheets: &mut Vec<(usize, usize)>,
    ancestor_classes: &mut Filter,
    var_ctx: &mut VariableContext,
) -> (still_covered: bool)
    requires
        preorder(nodes@),
        0 < idx < nodes@.len(),
        old(var_ctx).wf(),
        covered ==> holds_ancestors(*old(ancestor_classes), nodes@, idx - 1),
    ensures
        final(active_sheets)@ == (match nodes@[idx as int].style_sheet {
            Some(sheet) => pop_above(old(active_sheets)@, nodes@[idx as int].parent).push((idx, sheet)),
            Option::None => pop_above(old(active_sheets)@, nodes@[idx as int].parent),
        }),
        old(active_sheets)@ == sheet_stack(nodes@, idx - 1) ==> final(active_sheets)@ == sheet_stack(nodes@, idx as int),
        still_covered <==> covered && holds_ancestors(*final(ancestor_classes), nodes@, idx as int),
        final(var_ctx).wf(),
        final(var_ctx)@ == prune_scopes(old(var_ctx)@, nodes@[idx as int].parent) + cache_scope(cache_view(var_scope_cache@), idx as int),
{
    update_sheets(nodes, idx, active_sheets);
    let still_covered = if covered {
        update_ancestors(nodes, idx, ancestor_classes)
    } else {
        false
    };
    let parent_idx = nodes[idx].parent;
    var_ctx.prune(parent_idx);
    let ghost pruned = var_ctx@;
    if idx < var_scope_cache.len() {
        var_ctx.push_vars(idx, var_scope_cache[idx].as_slice());
    }
    proof {
        assert(var_ctx@ =~= pruned + cache_scope(cache_view(var_scope_cache@), idx as int));
    }
    still_covered
}

/// Where the styling of a region of dirty nodes stops: `root` and its subtree.
pub open spec fn subtree_end(nodes: Seq<StyleNode>, root: usize) -> int {
    root + nodes[root as int].subtree_size + 1
}

/// The end of a region that starts out ending at `end` and takes in the subtrees of
/// `roots[lo..hi]`.
pub open spec fn region_extent(nodes: Seq<StyleNode>, roots: Seq<usize>, lo: int, hi: int, end: int) -> int
    decreases hi - lo,
{
    if hi <= lo {
        end
    } else {
        let e = region_extent(nodes, roots, lo, hi - 1, end);
        let s = subtree_end(nodes, roots[hi - 1]);
        if s > e {
            s
        } else {
            e
        }
    }
}

/// What holds of the dirty roots after [`consume_dirty_roots`] from `dirty_i` with a
/// region ending at `end`: `next` is the first root left, `new_end` the region's end.
pub open spec fn roots_consumed(nodes: Seq<StyleNode>, roots: Seq<usize>, dirty_i: int, end: int, next: int, new_end: int) -> bool {
    &&& dirty_i <= next <= roots.len()
    &&& new_end == region_extent(nodes, roots, dirty_i, next, end)
    &&& new_end <= nodes.len()
    &&& forall|k: int| dirty_i <= k < next ==> #[trigger] roots[k] < region_extent(nodes, roots, dirty_i, k, end)
    &&& (next == roots.len() || roots[next] >= new_end)
}

/// Starts the region of the dirty root at `dirty_i`: its first node is the root, it
/// ends after the root's subtree, and it takes in the dirty roots that it reaches (see
/// [`consume_dirty_roots`]). Gives the first node, the region's end, and the first dirty
/// root left.
pub fn region_start(nodes: &[StyleNode], dirty_roots: &[usize], dirty_i: usize) -> (r: (usize, usize, usize))
    requires
        subtrees_ok(nodes@),
        dirty_i < dirty_roots@.len(),
        forall|k: int| 0 <= k < dirty_roots@.len() ==> (#[trigger] dirty_roots@[k]) < nodes@.len(),
    ensures
        r.0 == dirty_roots@[dirty_i as int],
        roots_consumed(nodes@, dirty_roots@, dirty_i as int, subtree_end(nodes@, r.0), r.2 as int, r.1 as int),
        r.0 < r.1,
{
    let root = dirty_roots[dirty_i];
    proof {
        let _ = dirty_roots@[dirty_i as int];
        let _ = nodes@[root as int];
    }
    let end = root + nodes[root].subtree_size + 1;
    let (next, new_end) = consume_dirty_roots(nodes, dirty_roots, dirty_i, end);
    proof {
        lemma_region_extent_grows(nodes@, dirty_roots@, dirty_i as int, next as int, end as int);
    }
    (root, new_end, next)
}

/// The end of a region after its node `idx` was styled: it grows over `idx`'s subtree
/// when a style callback of the node ran.
pub open spec fn grown_end(nodes: Seq<StyleNode>, idx: int, end: int, callback_ran: bool) -> int {
    if callback_ran && subtree_end(nodes, idx as usize) > end {
        subtree_end(nodes, idx as usize)
    } else {
        end
    }
}

/// The step of the walk after node `idx` of a region (ending at `region_end`) was
/// styled: the region grows as [`grown_end`] says, the walk moves to the next node, and
/// the region takes in the dirty roots, from `dirty_i` on, that it now reaches. Gives the
/// next node, the region's end, the first dirty root left, and whether the region goes
/// on (the next node is inside it).
pub fn region_step(
    nodes: &[StyleNode],
    dirty_roots: &[usize],
    dirty_i: usize,
    idx: usize,
    region_end: usize,
    callback_ran: bool,
) -> (r: (usize, usize, usize, bool))
    requires
        subtrees_ok(nodes@),
        idx < nodes@.len(),
        region_end <= nodes@.len(),
        dirty_i <= dirty_roots@.len(),
        forall|k: int| 0 <= k < dirty_roots@.len() ==> (#[trigger] dirty_roots@[k]) < nodes@.len(),
    ensures
        r.0 == idx + 1,
        roots_consumed(
            nodes@,
            dirty_roots@,
            dirty_i as int,
            grown_end(nodes@, idx as int, region_end as int, callback_ran),
            r.2 as int,
            r.1 as int,
        ),
        r.3 == (r.0 < r.1),
{
    proof {
        let _ = nodes@[idx as int];
    }
    let sub_end = idx + nodes[idx].subtree_size + 1;
    let end = if callback_ran && sub_end > region_end {
        sub_end
    } else {
        region_end
    };
    let (next, new_end) = consume_dirty_roots(nodes, dirty_roots, dirty_i, end);
    (idx + 1, new_end, next, idx + 1 < new_end)
}

proof fn lemma_region_extent_grows(nodes: Seq<StyleNode>, roots: Seq<usize>, lo: int, hi: int, end: int)
    ensures
        region_extent(nodes, roots, lo, hi, end) >= end,
    decreases hi - lo,
{
    if hi > lo {
        lemma_region_extent_grows(nodes, roots, lo, hi - 1, end);
    }
}

/// Each subtree lies within the tree.
pub open spec fn subtrees_ok(nodes: Seq<StyleNode>) -> bool {
    forall|i: int| 0 <= i < nodes.len() ==> i + (#[trigger] nodes[i]).subtree_size < nodes.len()
}

/// Takes into the current region (which ends at `region_end`) the dirty roots, from
/// `dirty_i` on, that start inside it, and grows the region over their subtrees. Returns
/// the position of the first dirty root left and the region's new end.
pub fn consume_dirty_roots(nodes: &[StyleNode], dirty_roots: &[usize], dirty_i: usize, region_end: usize) -> (r: (usize, usize))
    requires
        subtrees_ok(nodes@),
        dirty_i <= dirty_roots@.len(),
        region_end <= nodes@.len(),
        forall|k: int| 0 <= k < dirty_roots@.len() ==> (#[trigger] dirty_roots@[k]) < nodes@.len(),
    ensures
        dirty_i <= r.0 <= dirty_roots@.len(),
        r.1 == region_extent(nodes@, dirty_roots@, dirty_i as int, r.0 as int, region_end as int),
        r.1 <= nodes@.len(),
        forall|k: int| dirty_i <= k < r.0 ==> #[trigger] dirty_roots@[k] < region_extent(nodes@, dirty_roots@, dirty_i as int, k, region_end as int),
        r.0 == dirty_roots@.len() || dirty_roots@[r.0 as int] >= r.1,
{
    let mut d = dirty_i;
    let mut end = region_end;
    while d < dirty_roots.len() && dirty_roots[d] < end
        invariant
            subtrees_ok(nodes@),
            dirty_i <= d <= dirty_roots@.len(),
            forall|k: int| 0 <= k < dirty_roots@.len() ==> (#[trigger] dirty_roots@[k]) < nodes@.len(),
            end == region_extent(nodes@, dirty_roots@, dirty_i as int, d as int, region_end as int),
            end <= nodes@.len(),
            forall|k: int| dirty_i <= k < d ==> #[trigger] dirty_roots@[k] < region_extent(nodes@, dirty_roots@, dirty_i as int, k, region_end as int),
        decreases dirty_roots@.len() - d,
    {
        let i = dirty_roots[d];
        proof {
            let _ = dirty_roots@[d as int];
            let _ = nodes@[i as int];
        }
        let sub_end = i + nodes[i].subtree_size + 1;
        if sub_end > end {
            end = sub_end;
        }
        d += 1;
    }
    (d, end)
}

proof fn lemma_pseudo_tags(
    sheets: Seq<StylesheetRules>,
    stack: Seq<(usize, usize)>,
    visits: Seq<(usize, usize)>,
    nodes: Seq<StyleNode>,
    i: usize,
    focused: Option<NodeId>,
    active: Option<NodeId>,
    hot: Seq<usize>,
)
    ensures
        forall|k: int|
            0 <= k < pseudo_var_scopes(sheets, stack, visits, nodes, i, focused, active, hot).len() ==> (#[trigger] pseudo_var_scopes(
                sheets,
                stack,
                visits,
                nodes,
                i,
                focused,
                active,
                hot,
            )[k]).0 == i,
    decreases visits.len(),
{
    if visits.len() > 0 {
        lemma_pseudo_tags(sheets, stack, visits.drop_last(), nodes, i, focused, active, hot);
        let rest = pseudo_var_scopes(sheets, stack, visits.drop_last(), nodes, i, focused, active, hot);
        let all = pseudo_var_scopes(sheets, stack, visits, nodes, i, focused, active, hot);
        assert forall|k: int| 0 <= k < all.len() implies (#[trigger] all[k]).0 == i by {
            if k < rest.len() {
                assert(all[k] == rest[k]);
            }
        }
    }
}

proof fn lemma_own_tags(
    nodes: Seq<StyleNode>,
    sheets: Seq<StylesheetRules>,
    cache: Seq<Seq<(Seq<char>, Seq<char>)>>,
    i: int,
    focused: Option<NodeId>,
    active: Option<NodeId>,
    hot: Seq<usize>,
)
    requires
        0 <= i <= usize::MAX,
    ensures
        forall|k: int| 0 <= k < own_scopes(nodes, sheets, cache, i, focused, active, hot).len() ==> (#[trigger] own_scopes(
            nodes,
            sheets,
            cache,
            i,
            focused,
            active,
            hot,
        )[k]).0 == i,
{
    let c = cache_scope(cache, i);
    let ps = pseudo_var_scopes(sheets, sheet_stack(nodes, i), node_visits(nodes, sheets, i), nodes, i as usize, focused, active, hot);
    lemma_pseudo_tags(sheets, sheet_stack(nodes, i), node_visits(nodes, sheets, i), nodes, i as usize, focused, active, hot);
    let all = own_scopes(nodes, sheets, cache, i, focused, active, hot);
    assert forall|k: int| 0 <= k < all.len() implies (#[trigger] all[k]).0 == i by {
        if k < c.len() {
            assert(all[k] == c[k]);
        } else {
            assert(all[k] == ps[k - c.len()]);
        }
    }
}

/// The scopes on the path to node `p` are tagged with nodes up to `p`.
proof fn lemma_chain_tags(
    nodes: Seq<StyleNode>,
    sheets: Seq<StylesheetRules>,
    cache: Seq<Seq<(Seq<char>, Seq<char>)>>,
    p: int,
    focused: Option<NodeId>,
    active: Option<NodeId>,
    hot: Seq<usize>,
)
    requires
        0 <= p < nodes.len(),
        nodes.len() <= usize::MAX,
    ensures
        forall|k: int| 0 <= k < chain_to(nodes, sheets, cache, p, focused, active, hot).len() ==> (#[trigger] chain_to(
            nodes,
            sheets,
            cache,
            p,
            focused,
            active,
            hot,
        )[k]).0 <= p,
    decreases p,
{
    let own = own_scopes(nodes, sheets, cache, p, focused, active, hot);
    lemma_own_tags(nodes, sheets, cache, p, focused, active, hot);
    let rest = if has_parent(nodes, p) {
        lemma_chain_tags(nodes, sheets, cache, nodes[p].parent as int, focused, active, hot);
        chain_to(nodes, sheets, cache, nodes[p].parent as int, focused, active, hot)
    } else {
        Seq::empty()
    };
    let all = chain_to(nodes, sheets, cache, p, focused, active, hot);
    assert(all == rest + own);
    assert forall|k: int| 0 <= k < all.len() implies (#[trigger] all[k]).0 <= p by {
        if k < rest.len() {
            assert(all[k] == rest[k]);
        } else {
            assert(all[k] == own[k - rest.len()]);
        }
    }
}

/// The scopes on the path to `j` are those on the path to its ancestor `p`, followed by
/// scopes tagged with nodes after `p`.
proof fn lemma_chain_split(
    nodes: Seq<StyleNode>,
    sheets: Seq<StylesheetRules>,
    cache: Seq<Seq<(Seq<char>, Seq<char>)>>,
    p: int,
    j: int,
    focused: Option<NodeId>,
    active: Option<NodeId>,
    hot: Seq<usize>,
) -> (t: Seq<(usize, Seq<(Seq<char>, Seq<char>)>)>)
    requires
        tree_wf(nodes),
        nodes.len() <= usize::MAX,
        0 <= j < nodes.len(),
        on_path(nodes, p, j),
    ensures
        chain_to(nodes, sheets, cache, j, focused, active, hot) == chain_to(nodes, sheets, cache, p, focused, active, hot) + t,
        forall|k: int| 0 <= k < t.len() ==> (#[trigger] t[k]).0 > p,
    decreases j,
{
    if p == j {
        let t = Seq::<(usize, Seq<(Seq<char>, Seq<char>)>)>::empty();
        assert(chain_to(nodes, sheets, cache, j, focused, active, hot) + t =~= chain_to(nodes, sheets, cache, j, focused, active, hot));
        t
    } else {
        lemma_ancestor_before(nodes, p, j);
        let q = nodes[j].parent as int;
        if j > 0 {
            assert(q < j);
        } else {
            assert(nodes[0].parent == NO_PARENT);
        }
        assert(has_parent(nodes, j));
        assert(on_path(nodes, p, q));
        let t0 = lemma_chain_split(nodes, sheets, cache, p, q, focused, active, hot);
        let own = own_scopes(nodes, sheets, cache, j, focused, active, hot);
        lemma_own_tags(nodes, sheets, cache, j, focused, active, hot);
        let t = t0 + own;
        assert(chain_to(nodes, sheets, cache, j, focused, active, hot) == chain_to(nodes, sheets, cache, q, focused, active, hot) + own);
        assert(chain_to(nodes, sheets, cache, j, focused, active, hot) =~= chain_to(nodes, sheets, cache, p, focused, active, hot) + t);
        assert forall|k: int| 0 <= k < t.len() implies (#[trigger] t[k]).0 > p by {
            if k < t0.len() {
                assert(t[k] == t0[k]);
            } else {
                assert(t[k] == own[k - t0.len()]);
            }
        }
        t
    }
}

proof fn lemma_prune_tail(a: Seq<(usize, Seq<(Seq<char>, Seq<char>)>)>, t: Seq<(usize, Seq<(Seq<char>, Seq<char>)>)>, limit: usize)
    requires
        forall|k: int| 0 <= k < a.len() ==> (#[trigger] a[k]).0 <= limit,
        forall|k: int| 0 <= k < t.len() ==> (#[trigger] t[k]).0 > limit,
    ensures
        prune_scopes(a + t, limit) == a,
    decreases t.len(),
{
    if t.len() == 0 {
        assert(a + t =~= a);
        if a.len() > 0 {
            assert(a.last().0 <= limit);
        }
    } else {
        assert((a + t).drop_last() =~= a + t.drop_last());
        assert((a + t).last() == t.last());
        assert forall|k: int| 0 <= k < t.drop_last().len() implies (#[trigger] t.drop_last()[k]).0 > limit by {
            assert(t.drop_last()[k] == t[k]);
        }
        lemma_prune_tail(a, t.drop_last(), limit);
    }
}

/// Walking in pre-order from node `idx - 1` to node `idx`, leaving the scopes of nodes
/// after `idx`'s parent and opening `idx`'s own gives exactly the scopes on the path from
/// the root to `idx`: the incremental update agrees with a rebuild.
pub proof fn law_advance_matches_rebuild(
    nodes: Seq<StyleNode>,
    sheets: Seq<StylesheetRules>,
    cache: Seq<Seq<(Seq<char>, Seq<char>)>>,
    idx: int,
    focused: Option<NodeId>,
    active: Option<NodeId>,
    hot: Seq<usize>,
)
    requires
        preorder(nodes),
        nodes.len() <= usize::MAX,
        0 < idx < nodes.len(),
    ensures
        prune_scopes(chain_to(nodes, sheets, cache, idx - 1, focused, active, hot), nodes[idx].parent) + own_scopes(
            nodes,
            sheets,
            cache,
            idx,
            focused,
            active,
            hot,
        ) == chain_to(nodes, sheets, cache, idx, focused, active, hot),
{
    let p = nodes[idx].parent as int;
    assert(p < idx);
    assert(on_path(nodes, p, idx - 1));
    if p != idx - 1 {
        lemma_ancestor_before(nodes, p, idx - 1);
    }
    let t = lemma_chain_split(nodes, sheets, cache, p, idx - 1, focused, active, hot);
    lemma_chain_tags(nodes, sheets, cache, p, focused, active, hot);
    lemma_prune_tail(chain_to(nodes, sheets, cache, p, focused, active, hot), t, nodes[idx].parent);
    assert(has_parent(nodes, idx));
}

/// Whether node `a` is node `i` or one of its ancestors.
fn on_path_exec(nodes: &[StyleNode], a: usize, i: usize) -> (r: bool)
    requires
        i < nodes@.len(),
    ensures
        r == on_path(nodes@, a as int, i as int),
{
    if a == i {
        return true;
    }
    let mut cur = i;
    while nodes[cur].parent != NO_PARENT && nodes[cur].parent < cur
        invariant
            cur < nodes@.len(),
            a != i,
            a != cur,
            is_ancestor(nodes@, a as int, i as int) == is_ancestor(nodes@, a as int, cur as int),
        decreases cur,
    {
        let p = nodes[cur].parent;
        if p == a {
            return true;
        }
        cur = p;
    }
    false
}

/// Whether the nodes form a tree in pre-order whose subtrees lie within it, with each
/// stylesheet handle below `sheet_count`: what the styling walk asks of a tree.
pub fn style_tree_ok(nodes: &[StyleNode], sheet_count: usize) -> (r: bool)
    ensures
        r == (preorder(nodes@) && subtrees_ok(nodes@) && forall|i: int|
            0 <= i < nodes@.len() && (#[trigger] nodes@[i]).style_sheet is Some ==> nodes@[i].style_sheet.unwrap() < sheet_count),
{
    let n = nodes.len();
    if n > 0 && nodes[0].parent != NO_PARENT {
        return false;
    }
    let mut i: usize = 0;
    while i < n
        invariant
            n == nodes@.len(),
            i <= n,
            n > 0 ==> nodes@[0].parent == NO_PARENT,
            forall|j: int| 0 < j < i ==> (#[trigger] nodes@[j].parent as int) < j,
            forall|j: int| 0 < j < i ==> on_path(nodes@, #[trigger] nodes@[j].parent as int, j - 1),
            forall|j: int| 0 <= j < i ==> j + (#[trigger] nodes@[j]).subtree_size < n,
            forall|j: int| 0 <= j < i && (#[trigger] nodes@[j]).style_sheet is Some ==> nodes@[j].style_sheet.unwrap() < sheet_count,
        decreases n - i,
    {
        if i > 0 {
            if nodes[i].parent >= i {
                return false;
            }
            if !on_path_exec(nodes, nodes[i].parent, i - 1) {
                return false;
            }
        }
        if nodes[i].subtree_size >= n - i {
            return false;
        }
        match nodes[i].style_sheet {
            Some(h) => {
                if h >= sheet_count {
                    return false;
                }
            },
            Option::None => {},
        }
        i += 1;
    }
    true
}

} // verus!
