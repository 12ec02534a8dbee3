//! Selector matching: does a rule apply to a node of the tree, and which
//! pseudo-class states of which nodes could make it apply.

use vstd::prelude::*;

use qfilter::Filter;

use crate::css::filter::{filter_contains, filter_fingerprint, filter_fingerprints};
use crate::css::rules::{spec_has_pseudos, spec_specificity, Rule};
use crate::css::selector::Selector;
use crate::css::tree::{is_ancestor, lemma_ancestor_trans, lemma_parent_is_ancestor, on_path, tree_wf, StyleNode, NO_PARENT};
use crate::interner::StrId;
use crate::nodeid::NodeId;

verus! {

/// The kind of interaction state a pseudo-class depends on.
#[derive(Copy, Clone, Debug, PartialEq, Eq, Structural)]
pub enum PseudoKind {
    Hover,
    Focus,
    Active,
    /// Covers `:enabled` and `:disabled`.
    Enabled,
}

/// The interaction state that pseudo-classes are checked against.
pub struct PseudoState {
    pub focused_node: Option<NodeId>,
    pub active_node: Option<NodeId>,
    /// The nodes under the pointer.
    pub hot_nodes: Vec<usize>,
}

/// Whether a node's id is the given one.
pub open spec fn has_id(node: StyleNode, id: Option<NodeId>) -> bool {
    node.nid is Some && id is Some && node.nid == id
}

/// Whether a pseudo-class holds for node `cur`.
pub open spec fn pseudo_holds(s: Selector, nodes: Seq<StyleNode>, cur: int, focused: Option<NodeId>, active: Option<NodeId>, hot: Seq<usize>) -> bool {
    match s {
        Selector::Hover => hot.contains(cur as usize),
        Selector::Focus => has_id(nodes[cur], focused),
        Selector::Active => has_id(nodes[cur], active),
        Selector::Enabled => nodes[cur].enabled.unwrap_or(true),
        Selector::Disabled => !nodes[cur].enabled.unwrap_or(true),
        _ => false,
    }
}

/// The kind of state a pseudo-class depends on.
pub open spec fn pseudo_kind(s: Selector) -> PseudoKind {
    match s {
        Selector::Hover => PseudoKind::Hover,
        Selector::Focus => PseudoKind::Focus,
        Selector::Active => PseudoKind::Active,
        _ => PseudoKind::Enabled,
    }
}

/// Matching of `sels[..k]`, read right to left, at node `cur`.
///
/// A class must be on the node itself when it is the rightmost component, when it follows
/// another class in a compound selector, or when it follows `>`; after a descendant
/// combinator (or a wildcard or pseudo-class) it may be on the node or on any of its
/// ancestors, the nearest one being taken. `>` and the descendant combinator move to the
/// parent. In `collect` mode every pseudo-class is taken to hold and is recorded, with the
/// node it was checked on, in the second component of the result.
pub open spec fn match_from(
    sels: Seq<Selector>,
    k: int,
    nodes: Seq<StyleNode>,
    cur: usize,
    first: bool,
    prev_class: bool,
    prev_child: bool,
    focused: Option<NodeId>,
    active: Option<NodeId>,
    hot: Seq<usize>,
    collect: bool,
) -> (bool, Seq<(PseudoKind, usize)>)
    decreases k, cur,
{
    if k <= 0 {
        (true, Seq::empty())
    } else if cur == NO_PARENT || cur as int >= nodes.len() || k > sels.len() {
        (false, Seq::empty())
    } else {
        let s = sels[k - 1];
        let parent = nodes[cur as int].parent;
        match s {
            Selector::Class(c) => {
                if nodes[cur as int].classes@.contains(c) {
                    match_from(sels, k - 1, nodes, cur, false, true, false, focused, active, hot, collect)
                } else if first || prev_class || prev_child {
                    (false, Seq::empty())
                } else if parent == NO_PARENT || parent >= cur {
                    (false, Seq::empty())
                } else {
                    match_from(sels, k, nodes, parent, false, false, false, focused, active, hot, collect)
                }
            },
            Selector::Wildcard => match_from(sels, k - 1, nodes, cur, false, false, false, focused, active, hot, collect),
            Selector::Child => match_from(sels, k - 1, nodes, parent, first, false, true, focused, active, hot, collect),
            Selector::Descendant => match_from(sels, k - 1, nodes, parent, first, false, false, focused, active, hot, collect),
            _ => {
                if collect {
                    let rest = match_from(sels, k - 1, nodes, cur, first, false, false, focused, active, hot, collect);
                    (rest.0, seq![(pseudo_kind(s), cur)] + rest.1)
                } else if pseudo_holds(s, nodes, cur as int, focused, active, hot) {
                    match_from(sels, k - 1, nodes, cur, first, false, false, focused, active, hot, collect)
                } else {
                    (false, Seq::empty())
                }
            },
        }
    }
}

/// Whether the rule's selectors match node `idx` in the given interaction state.
pub open spec fn spec_rule_matches(sels: Seq<Selector>, nodes: Seq<StyleNode>, idx: usize, focused: Option<NodeId>, active: Option<NodeId>, hot: Seq<usize>) -> bool {
    match_from(sels, sels.len() as int, nodes, idx, true, false, false, focused, active, hot, false).0
}

/// Every class of every proper ancestor of `idx` is in the filter: it has no false negatives
/// for the ancestors of `idx`.
pub open spec fn filter_covers_ancestors(f: Filter, nodes: Seq<StyleNode>, idx: int) -> bool {
    forall|a: int, c: StrId|
        is_ancestor(nodes, a, idx) && #[trigger] nodes[a].classes@.contains(c) ==> #[trigger] filter_fingerprints(f).count(filter_fingerprint(f, c.0)) > 0
}

fn contains_class(classes: &[StrId], c: StrId) -> (r: bool)
    ensures
        r == classes@.contains(c),
{
    let n = classes.len();
    let mut i: usize = 0;
    while i < n
        invariant
            n == classes@.len(),
            0 <= i <= n,
            forall|j: int| 0 <= j < i ==> classes@[j] != c,
        decreases n - i,
    {
        if classes[i] == c {
            return true;
        }
        i += 1;
    }
    false
}

fn contains_index(list: &[usize], x: usize) -> (r: bool)
    ensures
        r == list@.contains(x),
{
    let n = list.len();
    let mut i: usize = 0;
    while i < n
        invariant
            n == list@.len(),
            0 <= i <= n,
            forall|j: int| 0 <= j < i ==> list@[j] != x,
        decreases n - i,
    {
        if list[i] == x {
            return true;
        }
        i += 1;
    }
    false
}

fn same_id(a: Option<NodeId>, b: Option<NodeId>) -> (r: bool)
    ensures
        r == (a is Some && b is Some && a == b),
{
    match (a, b) {
        (Some(x), Some(y)) => x == y,
        _ => false,
    }
}

/// If no ancestor-or-self of `cur` (a node on the path to `idx`) holds class `c`,
/// looking for `c` upwards from `cur` fails.
proof fn lemma_walk_fails(
    sels: Seq<Selector>,
    k: int,
    nodes: Seq<StyleNode>,
    cur: usize,
    c: StrId,
    focused: Option<NodeId>,
    active: Option<NodeId>,
    hot: Seq<usize>,
    collect: bool,
)
    requires
        tree_wf(nodes),
        0 < k <= sels.len(),
        sels[k - 1] == Selector::Class(c),
        cur == NO_PARENT || (cur as int) < nodes.len(),
        forall|a: int| on_path(nodes, a, cur as int) ==> !(#[trigger] nodes[a].classes@.contains(c)),
    ensures
        match_from(sels, k, nodes, cur, false, false, false, focused, active, hot, collect) == (false, Seq::<(PseudoKind, usize)>::empty()),
    decreases cur,
{
    if cur != NO_PARENT {
        assert(on_path(nodes, cur as int, cur as int));
        let p = nodes[cur as int].parent;
        if p != NO_PARENT && p < cur {
            lemma_parent_is_ancestor(nodes, cur as int);
            assert forall|a: int| on_path(nodes, a, p as int) implies !(#[trigger] nodes[a].classes@.contains(c)) by {
                if is_ancestor(nodes, a, p as int) {
                    lemma_ancestor_trans(nodes, a, p as int, cur as int);
                }
                assert(on_path(nodes, a, cur as int));
            }
            lemma_walk_fails(sels, k, nodes, p, c, focused, active, hot, collect);
        }
    }
}

/// Matches `sels` at node `idx`. In `collect` mode the pseudo-classes met are appended
/// to `pseudo_out` and taken to hold; otherwise they are checked against `state`.
fn match_selectors(
    sels: &[Selector],
    nodes: &[StyleNode],
    idx: usize,
    state: &PseudoState,
    ancestor_classes: Option<&Filter>,
    collect: bool,
    pseudo_out: &mut Vec<(PseudoKind, usize)>,
) -> (r: bool)
    requires
        tree_wf(nodes@),
        idx < nodes@.len(),
        ancestor_classes matches Some(f) ==> filter_covers_ancestors(*f, nodes@, idx as int),
    ensures
        ({
            let m = match_from(sels@, sels@.len() as int, nodes@, idx, true, false, false, state.focused_node, state.active_node, state.hot_nodes@, collect);
            &&& r == m.0
            &&& final(pseudo_out)@ == old(pseudo_out)@ + m.1
        }),
{
    let ghost focused = state.focused_node;
    let ghost active = state.active_node;
    let ghost hot = state.hot_nodes@;
    let ghost total = match_from(sels@, sels@.len() as int, nodes@, idx, true, false, false, focused, active, hot, collect);
    let mut k = sels.len();
    let mut cur = idx;
    let mut is_first = true;
    let mut prev_class = false;
    let mut prev_child = false;
    let ghost mut recorded: Seq<(PseudoKind, usize)> = Seq::empty();
    loop
        invariant
            tree_wf(nodes@),
            idx < nodes@.len(),
            ancestor_classes matches Some(f) ==> filter_covers_ancestors(*f, nodes@, idx as int),
            k <= sels@.len(),
            cur == NO_PARENT || cur < nodes@.len(),
            cur != NO_PARENT ==> on_path(nodes@, cur as int, idx as int),
            focused == state.focused_node,
            active == state.active_node,
            hot == state.hot_nodes@,
            pseudo_out@ == old(pseudo_out)@ + recorded,
            total == match_from(sels@, sels@.len() as int, nodes@, idx, true, false, false, focused, active, hot, collect),
            ({
                let rest = match_from(sels@, k as int, nodes@, cur, is_first, prev_class, prev_child, focused, active, hot, collect);
                &&& total.0 == rest.0
                &&& total.1 == recorded + rest.1
            }),
        decreases k, cur,
    {
        if k == 0 {
            proof {
                let rest = match_from(sels@, k as int, nodes@, cur, is_first, prev_class, prev_child, focused, active, hot, collect);
                assert(rest.0);
                assert(rest.1 == Seq::<(PseudoKind, usize)>::empty());
                assert(recorded + Seq::<(PseudoKind, usize)>::empty() =~= recorded);
                assert(total.0);
                assert(pseudo_out@ == old(pseudo_out)@ + total.1);
            }
            return true;
        }
        if cur == NO_PARENT {
            assert(recorded + Seq::<(PseudoKind, usize)>::empty() =~= recorded);
            return false;
        }
        let parent = nodes[cur].parent;
        proof {
            if cur > 0 {
                assert((nodes@[cur as int].parent as int) < cur);
            } else {
                assert(nodes@[0].parent == NO_PARENT);
            }
            if parent != NO_PARENT {
                lemma_parent_is_ancestor(nodes@, cur as int);
                if is_ancestor(nodes@, cur as int, idx as int) {
                    lemma_ancestor_trans(nodes@, parent as int, cur as int, idx as int);
                }
            }
        }
        match sels[k - 1] {
            Selector::Class(rule_class_id) => {
                if contains_class(nodes[cur].classes.as_slice(), rule_class_id) {
                    is_first = false;
                    prev_class = true;
                    prev_child = false;
                    k -= 1;
                } else if is_first || prev_class || prev_child {
                    assert(recorded + Seq::<(PseudoKind, usize)>::empty() =~= recorded);
                    return false;
                } else {
                    let known_absent = match ancestor_classes {
                        Some(f) => !filter_contains(f, rule_class_id.0),
                        Option::None => false,
                    };
                    if known_absent {
                        proof {
                            if parent != NO_PARENT && parent < cur {
                                assert forall|a: int| on_path(nodes@, a, parent as int) implies !(#[trigger] nodes@[a].classes@.contains(rule_class_id)) by {
                                    if is_ancestor(nodes@, a, parent as int) {
                                        lemma_ancestor_trans(nodes@, a, parent as int, cur as int);
                                    }
                                    assert(is_ancestor(nodes@, a, cur as int));
                                    if is_ancestor(nodes@, cur as int, idx as int) {
                                        lemma_ancestor_trans(nodes@, a, cur as int, idx as int);
                                    }
                                    assert(is_ancestor(nodes@, a, idx as int));
                                    if nodes@[a].classes@.contains(rule_class_id) {
                                        assert(filter_fingerprints(*ancestor_classes.unwrap()).count(filter_fingerprint(*ancestor_classes.unwrap(), rule_class_id.0)) > 0);
                                    }
                                }
                                lemma_walk_fails(sels@, k as int, nodes@, parent, rule_class_id, focused, active, hot, collect);
                            }
                            assert(recorded + Seq::<(PseudoKind, usize)>::empty() =~= recorded);
                        }
                        return false;
                    }
                    if parent == NO_PARENT || parent >= cur {
                        assert(recorded + Seq::<(PseudoKind, usize)>::empty() =~= recorded);
                        return false;
                    }
                    is_first = false;
                    prev_class = false;
                    prev_child = false;
                    cur = parent;
                }
            },
            Selector::Wildcard => {
                is_first = false;
                prev_class = false;
                prev_child = false;
                k -= 1;
            },
            Selector::Child => {
                prev_class = false;
                prev_child = true;
                cur = parent;
                k -= 1;
            },
            Selector::Descendant => {
                prev_child = false;
                prev_class = false;
                cur = parent;
                k -= 1;
            },
            Selector::Hover | Selector::Focus | Selector::Active | Selector::Enabled | Selector::Disabled => {
                let s = sels[k - 1];
                if collect {
                    let kind = match s {
                        Selector::Hover => PseudoKind::Hover,
                        Selector::Focus => PseudoKind::Focus,
                        Selector::Active => PseudoKind::Active,
                        _ => PseudoKind::Enabled,
                    };
                    pseudo_out.push((kind, cur));
                    proof {
                        let rest = match_from(sels@, k - 1, nodes@, cur, is_first, false, false, focused, active, hot, collect);
                        assert(recorded.push((kind, cur)) + rest.1 =~= recorded + (seq![(kind, cur)] + rest.1));
                        recorded = recorded.push((kind, cur));
                    }
                    prev_child = false;
                    prev_class = false;
                    k -= 1;
                } else {
                    let holds = match s {
                        Selector::Hover => contains_index(state.hot_nodes.as_slice(), cur),
                        Selector::Focus => same_id(nodes[cur].nid, state.focused_node),
                        Selector::Active => same_id(nodes[cur].nid, state.active_node),
                        Selector::Enabled => {
                            let enabled = match nodes[cur].enabled {
                                Some(e) => e,
                                Option::None => true,
                            };
                            enabled
                        },
                        _ => {
                            let enabled = match nodes[cur].enabled {
                                Some(e) => e,
                                Option::None => true,
                            };
                            !enabled
                        },
                    };
                    if !holds {
                        assert(recorded + Seq::<(PseudoKind, usize)>::empty() =~= recorded);
                        return false;
                    }
                    prev_child = false;
                    prev_class = false;
                    k -= 1;
                }
            },
        }
    }
}

/// As [`rule_matches_node`], with the ancestor filter optional: without one, every
/// ancestor is searched.
pub(crate) fn rule_matches_opt(
    rule: &Rule,
    nodes: &[StyleNode],
    idx: usize,
    state: &PseudoState,
    ancestor_classes: Option<&Filter>,
) -> (r: bool)
    requires
        tree_wf(nodes@),
        idx < nodes@.len(),
        ancestor_classes matches Some(f) ==> filter_covers_ancestors(*f, nodes@, idx as int),
    ensures
        r == spec_rule_matches(rule.selectors@, nodes@, idx, state.focused_node, state.active_node, state.hot_nodes@),
{
    let mut unused: Vec<(PseudoKind, usize)> = Vec::new();
    match_selectors(rule.selectors.as_slice(), nodes, idx, state, ancestor_classes, false, &mut unused)
}

/// As [`rule_pseudo_dependencies`], with the ancestor filter optional.
pub(crate) fn rule_pseudo_dependencies_opt(
    rule: &Rule,
    nodes: &[StyleNode],
    idx: usize,
    ancestor_classes: Option<&Filter>,
    pseudo_out: &mut Vec<(PseudoKind, usize)>,
) -> (r: bool)
    requires
        tree_wf(nodes@),
        idx < nodes@.len(),
        ancestor_classes matches Some(f) ==> filter_covers_ancestors(*f, nodes@, idx as int),
    ensures
        ({
            let m = match_from(rule.selectors@, rule.selectors@.len() as int, nodes@, idx, true, false, false, Option::None, Option::None, Seq::empty(), true);
            &&& r == m.0
            &&& final(pseudo_out)@ == old(pseudo_out)@ + m.1
        }),
{
    let state = PseudoState { focused_node: Option::None, active_node: Option::None, hot_nodes: Vec::new() };
    match_selectors(rule.selectors.as_slice(), nodes, idx, &state, ancestor_classes, true, pseudo_out)
}

/// Checks if a rule matches node `idx` of the tree in the given interaction state.
///
/// `ancestor_classes` must hold every class of every ancestor of `idx` (it is only used to
/// give up early, so false positives do not matter).
pub fn rule_matches_node(
    rule: &Rule,
    nodes: &[StyleNode],
    idx: usize,
    state: &PseudoState,
    ancestor_classes: &Filter,
) -> (r: bool)
    requires
        tree_wf(nodes@),
        idx < nodes@.len(),
        filter_covers_ancestors(*ancestor_classes, nodes@, idx as int),
    ensures
        r == spec_rule_matches(rule.selectors@, nodes@, idx, state.focused_node, state.active_node, state.hot_nodes@),
{
    let mut unused: Vec<(PseudoKind, usize)> = Vec::new();
    match_selectors(rule.selectors.as_slice(), nodes, idx, state, Some(ancestor_classes), false, &mut unused)
}

/// Checks if a rule could match node `idx` whatever the interaction state, appending to
/// `pseudo_out` each pseudo-class of the rule with the node whose state it depends on.
///
/// When the rule cannot match, `pseudo_out` may have grown; the caller truncates it.
pub fn rule_pseudo_dependencies(
    rule: &Rule,
    nodes: &[StyleNode],
    idx: usize,
    ancestor_classes: &Filter,
    pseudo_out: &mut Vec<(PseudoKind, usize)>,
) -> (r: bool)
    requires
        tree_wf(nodes@),
        idx < nodes@.len(),
        filter_covers_ancestors(*ancestor_classes, nodes@, idx as int),
    ensures
        ({
            let m = match_from(rule.selectors@, rule.selectors@.len() as int, nodes@, idx, true, false, false, Option::None, Option::None, Seq::empty(), true);
            &&& r == m.0
            &&& final(pseudo_out)@ == old(pseudo_out)@ + m.1
        }),
{
    let state = PseudoState { focused_node: Option::None, active_node: Option::None, hot_nodes: Vec::new() };
    match_selectors(rule.selectors.as_slice(), nodes, idx, &state, Some(ancestor_classes), true, pseudo_out)
}

} // verus!

verus! {

proof fn lemma_walk_finds(
    sels: Seq<Selector>,
    nodes: Seq<StyleNode>,
    cur: usize,
    c: StrId,
    focused: Option<NodeId>,
    active: Option<NodeId>,
    hot: Seq<usize>,
)
    requires
        tree_wf(nodes),
        sels.len() >= 1,
        sels[0] == Selector::Class(c),
        (cur as int) < nodes.len(),
        nodes.len() <= usize::MAX,
    ensures
        match_from(sels, 1, nodes, cur, false, false, false, focused, active, hot, false).0 == exists|x: int|
            on_path(nodes, x, cur as int) && #[trigger] nodes[x].classes@.contains(c),
    decreases cur,
{
    assert(on_path(nodes, cur as int, cur as int));
    if nodes[cur as int].classes@.contains(c) {
        assert(match_from(sels, 0, nodes, cur, false, true, false, focused, active, hot, false).0);
    } else {
        let p = nodes[cur as int].parent;
        if cur > 0 {
            assert((p as int) < cur);
        }
        if p == NO_PARENT || p >= cur {
            assert forall|x: int| on_path(nodes, x, cur as int) implies !(#[trigger] nodes[x].classes@.contains(c)) by {
                if x != cur as int {
                    assert(!is_ancestor(nodes, x, cur as int));
                }
            }
        } else {
            lemma_walk_finds(sels, nodes, p, c, focused, active, hot);
            lemma_parent_is_ancestor(nodes, cur as int);
            assert forall|x: int| on_path(nodes, x, cur as int) && x != cur as int implies on_path(nodes, x, p as int) by {}
            assert forall|x: int| on_path(nodes, x, p as int) implies on_path(nodes, x, cur as int) by {
                if is_ancestor(nodes, x, p as int) {
                    lemma_ancestor_trans(nodes, x, p as int, cur as int);
                }
            }
            if exists|x: int| on_path(nodes, x, cur as int) && #[trigger] nodes[x].classes@.contains(c) {
                let x = choose|x: int| on_path(nodes, x, cur as int) && #[trigger] nodes[x].classes@.contains(c);
                assert(on_path(nodes, x, p as int));
            }
            if exists|x: int| on_path(nodes, x, p as int) && #[trigger] nodes[x].classes@.contains(c) {
                let x = choose|x: int| on_path(nodes, x, p as int) && #[trigger] nodes[x].classes@.contains(c);
                assert(on_path(nodes, x, cur as int));
            }
        }
    }
}

/// `*` matches every node.
pub proof fn law_wildcard_matches_any(nodes: Seq<StyleNode>, idx: usize, focused: Option<NodeId>, active: Option<NodeId>, hot: Seq<usize>)
    requires
        (idx as int) < nodes.len(),
        nodes.len() <= usize::MAX,
    ensures
        spec_rule_matches(seq![Selector::Wildcard], nodes, idx, focused, active, hot),
{
    let sels = seq![Selector::Wildcard];
    assert(match_from(sels, 0, nodes, idx, false, false, false, focused, active, hot, false).0);
}

/// `.c` matches exactly the nodes that have class `c`.
pub proof fn law_class_matches_iff_has_class(nodes: Seq<StyleNode>, idx: usize, c: StrId, focused: Option<NodeId>, active: Option<NodeId>, hot: Seq<usize>)
    requires
        (idx as int) < nodes.len(),
        nodes.len() <= usize::MAX,
    ensures
        spec_rule_matches(seq![Selector::Class(c)], nodes, idx, focused, active, hot) == nodes[idx as int].classes@.contains(c),
{
    let sels = seq![Selector::Class(c)];
    assert(match_from(sels, 0, nodes, idx, false, true, false, focused, active, hot, false).0);
}

/// `.a .b` (descendant combinator) matches exactly the nodes that have class `b` and an
/// ancestor, at any depth, with class `a`.
pub proof fn law_descendant_matches_any_ancestor(nodes: Seq<StyleNode>, idx: usize, a: StrId, b: StrId, focused: Option<NodeId>, active: Option<NodeId>, hot: Seq<usize>)
    requires
        tree_wf(nodes),
        (idx as int) < nodes.len(),
        nodes.len() <= usize::MAX,
    ensures
        spec_rule_matches(seq![Selector::Class(a), Selector::Descendant, Selector::Class(b)], nodes, idx, focused, active, hot) == (
        nodes[idx as int].classes@.contains(b) && exists|x: int| is_ancestor(nodes, x, idx as int) && #[trigger] nodes[x].classes@.contains(a)),
{
    let sels = seq![Selector::Class(a), Selector::Descendant, Selector::Class(b)];
    if nodes[idx as int].classes@.contains(b) {
        let p = nodes[idx as int].parent;
        assert(match_from(sels, 3, nodes, idx, true, false, false, focused, active, hot, false) == match_from(sels, 2, nodes, idx, false, true, false, focused, active, hot, false));
        assert(match_from(sels, 2, nodes, idx, false, true, false, focused, active, hot, false) == match_from(sels, 1, nodes, p, false, false, false, focused, active, hot, false));
        if idx > 0 {
            assert((p as int) < idx);
        }
        if p == NO_PARENT {
            assert forall|x: int| is_ancestor(nodes, x, idx as int) implies !(#[trigger] nodes[x].classes@.contains(a)) by {}
        } else {
            lemma_walk_finds(sels, nodes, p, a, focused, active, hot);
            lemma_parent_is_ancestor(nodes, idx as int);
            assert forall|x: int| is_ancestor(nodes, x, idx as int) implies on_path(nodes, x, p as int) by {}
            assert forall|x: int| on_path(nodes, x, p as int) implies is_ancestor(nodes, x, idx as int) by {
                if is_ancestor(nodes, x, p as int) {
                    lemma_ancestor_trans(nodes, x, p as int, idx as int);
                }
            }
        }
    }
}

/// `.a > .b` (child combinator) matches exactly the nodes that have class `b` and whose
/// parent has class `a`.
pub proof fn law_child_matches_parent(nodes: Seq<StyleNode>, idx: usize, a: StrId, b: StrId, focused: Option<NodeId>, active: Option<NodeId>, hot: Seq<usize>)
    requires
        tree_wf(nodes),
        (idx as int) < nodes.len(),
        nodes.len() <= usize::MAX,
    ensures
        spec_rule_matches(seq![Selector::Class(a), Selector::Child, Selector::Class(b)], nodes, idx, focused, active, hot) == (
        nodes[idx as int].classes@.contains(b) && nodes[idx as int].parent != NO_PARENT
            && nodes[nodes[idx as int].parent as int].classes@.contains(a)),
{
    let sels = seq![Selector::Class(a), Selector::Child, Selector::Class(b)];
    let p = nodes[idx as int].parent;
    if idx > 0 {
        assert((p as int) < idx);
    }
    if nodes[idx as int].classes@.contains(b) {
        assert(match_from(sels, 3, nodes, idx, true, false, false, focused, active, hot, false) == match_from(sels, 2, nodes, idx, false, true, false, focused, active, hot, false));
        assert(match_from(sels, 2, nodes, idx, false, true, false, focused, active, hot, false) == match_from(sels, 1, nodes, p, false, false, true, focused, active, hot, false));
        if p != NO_PARENT && nodes[p as int].classes@.contains(a) {
            assert(match_from(sels, 0, nodes, p, false, true, false, focused, active, hot, false).0);
        }
    }
}

/// A class with a pseudo-class, such as `.c:active`, matches a node exactly when the node
/// has the class and the pseudo-class's state holds of the node itself: `:hover` when the
/// node is under the pointer, `:focus` when it has an id and that id is the focused one,
/// `:active` when it has an id and that id is the active one (whatever is focused),
/// `:enabled` unless the node is known to be disabled, and `:disabled` when it is.
pub proof fn law_class_with_pseudo_class(
    nodes: Seq<StyleNode>,
    idx: usize,
    c: StrId,
    focused: Option<NodeId>,
    active: Option<NodeId>,
    hot: Seq<usize>,
)
    requires
        (idx as int) < nodes.len(),
        nodes.len() <= usize::MAX,
    ensures
        spec_rule_matches(seq![Selector::Class(c), Selector::Hover], nodes, idx, focused, active, hot) == (
        nodes[idx as int].classes@.contains(c) && hot.contains(idx)),
        spec_rule_matches(seq![Selector::Class(c), Selector::Focus], nodes, idx, focused, active, hot) == (
        nodes[idx as int].classes@.contains(c) && nodes[idx as int].nid is Some && nodes[idx as int].nid == focused),
        spec_rule_matches(seq![Selector::Class(c), Selector::Active], nodes, idx, focused, active, hot) == (
        nodes[idx as int].classes@.contains(c) && nodes[idx as int].nid is Some && nodes[idx as int].nid == active),
        spec_rule_matches(seq![Selector::Class(c), Selector::Enabled], nodes, idx, focused, active, hot) == (
        nodes[idx as int].classes@.contains(c) && nodes[idx as int].enabled != Some(false)),
        spec_rule_matches(seq![Selector::Class(c), Selector::Disabled], nodes, idx, focused, active, hot) == (
        nodes[idx as int].classes@.contains(c) && nodes[idx as int].enabled == Some(false)),
{
    let n = nodes[idx as int];
    let ph = seq![Selector::Class(c), Selector::Hover];
    let pf = seq![Selector::Class(c), Selector::Focus];
    let pa = seq![Selector::Class(c), Selector::Active];
    let pe = seq![Selector::Class(c), Selector::Enabled];
    let pd = seq![Selector::Class(c), Selector::Disabled];
    assert(match_from(ph, 0, nodes, idx, false, true, false, focused, active, hot, false).0);
    assert(match_from(pf, 0, nodes, idx, false, true, false, focused, active, hot, false).0);
    assert(match_from(pa, 0, nodes, idx, false, true, false, focused, active, hot, false).0);
    assert(match_from(pe, 0, nodes, idx, false, true, false, focused, active, hot, false).0);
    assert(match_from(pd, 0, nodes, idx, false, true, false, focused, active, hot, false).0);
    assert(match_from(ph, 1, nodes, idx, true, false, false, focused, active, hot, false).0 == n.classes@.contains(c));
    assert(match_from(pf, 1, nodes, idx, true, false, false, focused, active, hot, false).0 == n.classes@.contains(c));
    assert(match_from(pa, 1, nodes, idx, true, false, false, focused, active, hot, false).0 == n.classes@.contains(c));
    assert(match_from(pe, 1, nodes, idx, true, false, false, focused, active, hot, false).0 == n.classes@.contains(c));
    assert(match_from(pd, 1, nodes, idx, true, false, false, focused, active, hot, false).0 == n.classes@.contains(c));
    assert(n.enabled.unwrap_or(true) == (n.enabled != Some(false)));
}

/// Specificity counts 10 for every class and for every pseudo-class (`:hover`, `:focus`,
/// `:active`, `:enabled` and `:disabled` alike) and nothing for a wildcard or a
/// combinator, whatever else the selector holds: one more component adds its own count,
/// and a compound selector has pseudo-classes exactly when one of its components is one
/// of those five.
pub proof fn law_specificity_counts_classes_and_pseudo_classes(sels: Seq<Selector>, s: Selector)
    ensures
        spec_specificity(Seq::<Selector>::empty()) == 0,
        spec_specificity(sels.push(s)) == spec_specificity(sels) + if s is Class || s is Hover || s is Focus || s is Active
            || s is Enabled || s is Disabled {
            10int
        } else {
            0int
        },
        (s is Wildcard || s is Descendant || s is Child) ==> spec_specificity(sels.push(s)) == spec_specificity(sels),
        spec_has_pseudos(sels.push(s)) == (spec_has_pseudos(sels) || s is Hover || s is Focus || s is Active || s is Enabled
            || s is Disabled),
{
    assert(sels.push(s).drop_last() =~= sels);
    if spec_has_pseudos(sels) {
        let i = choose|i: int| 0 <= i < sels.len() && crate::css::rules::is_pseudo(sels[i]);
        assert(sels.push(s)[i] == sels[i]);
    }
    if spec_has_pseudos(sels.push(s)) {
        let i = choose|i: int| 0 <= i < sels.len() + 1 && crate::css::rules::is_pseudo(sels.push(s)[i]);
        if i < sels.len() {
            assert(sels.push(s)[i] == sels[i]);
        }
    }
    assert(sels.push(s)[sels.len() as int] == s);
}

} // verus!
