//! Selectors of the first stylesheet format, where classes and ids are kept as text.

use vstd::prelude::*;

use crate::css::selector::{eq_ignore_ascii_case, matches_name, SelectorToken};

verus! {

/// One component of a selector.
#[derive(Debug, Clone)]
pub enum Selector {
    /// Represents a `*` selector.
    Wildcard,
    /// Represents selectors beginning with `#`.
    Id(String),
    /// Represents selectors beginning with `.`.
    Class(String),
    /// Represents a ` ` selector relationship.
    Children,
    /// Represents a `>` selector relationship.
    DirectChildren,
    /// Represents a `:hover` selector.
    Hover,
    /// Represents a `:focus` selector.
    Focus,
}

/// Whether the selector applies to a node with these classes: `*` always does, an id or
/// a class when the node has it among its classes; relationships and pseudo-classes are
/// not checked on a single node.
pub open spec fn selector_applies(s: Selector, classes: Seq<Seq<char>>) -> bool {
    match s {
        Selector::Wildcard => true,
        Selector::Id(name) => classes.contains(name@),
        Selector::Class(name) => classes.contains(name@),
        _ => false,
    }
}

fn has_class(classes: &[String], name: &String) -> (r: bool)
    ensures
        r == classes@.map_values(|c: String| c@).contains(name@),
{
    let ghost names = classes@.map_values(|c: String| c@);
    let n = classes.len();
    let mut i: usize = 0;
    while i < n
        invariant
            n == classes@.len(),
            names == classes@.map_values(|c: String| c@),
            0 <= i <= n,
            forall|j: int| 0 <= j < i ==> classes@[j]@ != name@,
        decreases n - i,
    {
        if classes[i] == *name {
            assert(names[i as int] == name@);
            return true;
        }
        i += 1;
    }
    proof {
        if names.contains(name@) {
            let k = choose|k: int| 0 <= k < names.len() && names[k] == name@;
            assert(classes@[k]@ == name@);
        }
    }
    false
}

impl Selector {
    /// Checks if this selector applies to a node with these classes.
    pub fn check(&self, classes: &[String]) -> (r: bool)
        ensures
            r == selector_applies(*self, classes@.map_values(|c: String| c@)),
    {
        match self {
            Selector::Wildcard => true,
            Selector::Id(selector) => has_class(classes, selector),
            Selector::Class(selector) => has_class(classes, selector),
            _ => false,
        }
    }
}

/// A node of the tree as the first styling pass sees it.
#[derive(Debug, Clone)]
pub struct ArrayNode {
    /// The node's classes.
    pub classes: Vec<String>,
    /// The index of the parent node (the root, at index 0, names itself or anything).
    pub parent: usize,
    /// The stylesheet attached to the node, as a handle, if any.
    pub style_sheet: Option<usize>,
}

/// Every node but the root (index 0) has a parent that comes before it.
pub open spec fn array_tree_wf(tree: Seq<ArrayNode>) -> bool {
    forall|n: int| 0 < n < tree.len() ==> (#[trigger] tree[n].parent as int) < n
}

/// The classes of a node as text.
pub open spec fn node_classes(node: ArrayNode) -> Seq<Seq<char>> {
    node.classes@.map_values(|c: String| c@)
}

/// The node above `n`, if `n` is not the root.
pub open spec fn node_above(tree: Seq<ArrayNode>, n: int) -> Option<int> {
    if n != 0 {
        Some(tree[n].parent as int)
    } else {
        Option::None
    }
}

/// Matching of `sels[..k]`, read right to left, from node `cur`: the rightmost component
/// must hold on the node itself; afterwards a wildcard takes any node, a class or id may
/// be found on the node or, unless after `>`, on any node further up, and `:hover` and
/// `:focus` never match in this pass.
pub open spec fn legacy_walk(sels: Seq<Selector>, k: int, tree: Seq<ArrayNode>, cur: Option<int>, direct: bool, first: bool) -> bool
    decreases k, (match cur {
        Some(n) => n + 1,
        Option::None => 0,
    }),
{
    if k <= 0 || k > sels.len() {
        k <= 0
    } else {
        match cur {
            Option::None => false,
            Some(n) => if n < 0 || n >= tree.len() {
                false
            } else {
                let s = sels[k - 1];
                let up = node_above(tree, n);
                let up_ok = n == 0 || (tree[n].parent as int) < n;
                if first {
                    selector_applies(s, node_classes(tree[n])) && legacy_walk(sels, k - 1, tree, up, direct, false)
                } else {
                    match s {
                        Selector::Wildcard => legacy_walk(sels, k - 1, tree, up, false, false),
                        Selector::Id(_) | Selector::Class(_) => if selector_applies(s, node_classes(tree[n])) {
                            legacy_walk(sels, k - 1, tree, up, false, false)
                        } else if direct || !up_ok {
                            false
                        } else {
                            legacy_walk(sels, k, tree, up, false, false)
                        },
                        Selector::DirectChildren => legacy_walk(sels, k - 1, tree, cur, true, false),
                        Selector::Children => legacy_walk(sels, k - 1, tree, cur, false, false),
                        _ => false,
                    }
                }
            },
        }
    }
}

/// Whether a rule with these selectors applies to node `id` in the first styling pass.
pub open spec fn legacy_matches(sels: Seq<Selector>, tree: Seq<ArrayNode>, id: int) -> bool {
    legacy_walk(sels, sels.len() as int, tree, Some(id), false, true)
}

/// Whether a rule with these selectors applies to node `id` in the first styling pass.
pub fn rule_filter(selectors: &[Selector], tree: &[ArrayNode], id: usize) -> (r: bool)
    requires
        array_tree_wf(tree@),
        id < tree@.len(),
    ensures
        r == legacy_matches(selectors@, tree@, id as int),
{
    let mut k = selectors.len();
    let mut cur: Option<usize> = Some(id);
    let mut direct = false;
    let mut first = true;
    loop
        invariant
            array_tree_wf(tree@),
            k <= selectors@.len(),
            cur matches Some(n) ==> n < tree@.len(),
            legacy_matches(selectors@, tree@, id as int) == legacy_walk(selectors@, k as int, tree@, match cur {
                Some(n) => Some(n as int),
                Option::None => Option::None,
            }, direct, first),
        decreases k, (match cur {
            Some(n) => n + 1,
            Option::None => 0,
        }),
    {
        if k == 0 {
            return true;
        }
        let n = match cur {
            Some(n) => n,
            Option::None => {
                return false;
            },
        };
        let up: Option<usize> = if n != 0 {
            Some(tree[n].parent)
        } else {
            Option::None
        };
        proof {
            if n > 0 {
                assert((tree@[n as int].parent as int) < n);
            }
        }
        let s = &selectors[k - 1];
        if first {
            if !s.check(tree[n].classes.as_slice()) {
                return false;
            }
            cur = up;
            first = false;
            k -= 1;
        } else {
            match s {
                Selector::Wildcard => {
                    cur = up;
                    direct = false;
                    k -= 1;
                },
                Selector::Id(_) | Selector::Class(_) => {
                    if s.check(tree[n].classes.as_slice()) {
                        cur = up;
                        direct = false;
                        k -= 1;
                    } else if direct {
                        return false;
                    } else {
                        cur = up;
                        direct = false;
                    }
                },
                Selector::DirectChildren => {
                    direct = true;
                    k -= 1;
                },
                Selector::Children => {
                    direct = false;
                    k -= 1;
                },
                Selector::Hover | Selector::Focus => {
                    return false;
                },
            }
        }
    }
}

/// The stylesheets attached on the path from node `id` up to the root, nearest first.
pub open spec fn sheets_up(tree: Seq<ArrayNode>, id: int) -> Seq<usize>
    decreases id,
{
    if id < 0 || id >= tree.len() {
        Seq::empty()
    } else {
        let own = match tree[id].style_sheet {
            Some(h) => seq![h],
            Option::None => Seq::empty(),
        };
        if id == 0 || tree[id].parent as int >= id {
            own
        } else {
            own + sheets_up(tree, tree[id].parent as int)
        }
    }
}

/// Collects the stylesheets that apply to node `id`: those attached to it and to its
/// ancestors, nearest first.
pub fn sheets_for_node(tree: &[ArrayNode], id: usize) -> (r: Vec<usize>)
    requires
        array_tree_wf(tree@),
        id < tree@.len(),
    ensures
        r@ == sheets_up(tree@, id as int),
{
    let mut sheets: Vec<usize> = Vec::new();
    let mut ancestor = id;
    loop
        invariant
            array_tree_wf(tree@),
            ancestor < tree@.len(),
            sheets@ + sheets_up(tree@, ancestor as int) == sheets_up(tree@, id as int),
        decreases ancestor,
    {
        let ghost before = sheets@;
        if let Some(h) = tree[ancestor].style_sheet {
            sheets.push(h);
        }
        if ancestor == 0 {
            proof {
                assert(sheets@ =~= before + sheets_up(tree@, ancestor as int));
                assert(sheets@ + Seq::<usize>::empty() =~= sheets@);
            }
            return sheets;
        }
        let next = tree[ancestor].parent;
        proof {
            assert((next as int) < ancestor);
            let own = match tree@[ancestor as int].style_sheet {
                Some(h) => seq![h],
                Option::None => Seq::<usize>::empty(),
            };
            assert(sheets@ =~= before + own);
            assert(sheets_up(tree@, ancestor as int) == own + sheets_up(tree@, next as int));
            assert(before + (own + sheets_up(tree@, next as int)) =~= (before + own) + sheets_up(tree@, next as int));
        }
        ancestor = next;
    }
}

/// Where the reading of a rule's prelude stands.
pub struct PreludeScan {
    /// No token was read yet.
    pub first: bool,
    /// A `>` was read since the last selector.
    pub direct: bool,
    /// Whitespace was read since the last selector.
    pub whitespace: bool,
    /// The last token was a `:`.
    pub colon: bool,
    /// A `:` was read: the rule depends on `:hover` or `:focus`.
    pub dynamic: bool,
    pub specificity: int,
    pub selectors: Seq<Selector>,
}

/// `sels` with a descendant relationship added when whitespace separates the next
/// selector from the previous one.
pub open spec fn with_descendant(s: PreludeScan, sels: Seq<Selector>, ok: bool) -> Seq<Selector> {
    if !s.first && !s.direct && ok && s.whitespace {
        sels.push(Selector::Children)
    } else {
        sels
    }
}

/// The prelude read one token further, or `None` when the token cannot stand there.
pub open spec fn prelude_step(s: PreludeScan, t: SelectorToken) -> Option<PreludeScan> {
    match t {
        SelectorToken::Delim(c) => if c == '*' {
            Some(
                PreludeScan {
                    first: false,
                    direct: false,
                    whitespace: false,
                    colon: false,
                    dynamic: s.dynamic,
                    specificity: s.specificity,
                    selectors: with_descendant(s, s.selectors, true).push(Selector::Wildcard),
                },
            )
        } else if c == '>' {
            Some(
                PreludeScan {
                    first: false,
                    direct: true,
                    whitespace: s.whitespace,
                    colon: false,
                    dynamic: s.dynamic,
                    specificity: s.specificity,
                    selectors: s.selectors.push(Selector::DirectChildren),
                },
            )
        } else if c == '.' {
            Some(
                PreludeScan {
                    first: false,
                    direct: s.direct,
                    whitespace: s.whitespace,
                    colon: false,
                    dynamic: s.dynamic,
                    specificity: s.specificity,
                    selectors: s.selectors,
                },
            )
        } else {
            Option::None
        },
        SelectorToken::Ident(name) => {
            let sels = with_descendant(s, s.selectors, !s.colon);
            let next = if s.colon {
                if eq_ignore_ascii_case(name@, "focus"@) {
                    Some(sels.push(Selector::Focus))
                } else if eq_ignore_ascii_case(name@, "hover"@) {
                    Some(sels.push(Selector::Hover))
                } else {
                    Option::None
                }
            } else {
                Some(sels.push(Selector::Class(name)))
            };
            match next {
                Some(sels) => Some(
                    PreludeScan {
                        first: false,
                        direct: false,
                        whitespace: false,
                        colon: false,
                        dynamic: s.dynamic,
                        specificity: s.specificity + 10,
                        selectors: sels,
                    },
                ),
                Option::None => Option::None,
            }
        },
        SelectorToken::Hash(name) => Some(
            PreludeScan {
                first: false,
                direct: false,
                whitespace: false,
                colon: false,
                dynamic: s.dynamic,
                specificity: s.specificity + 100,
                selectors: with_descendant(s, s.selectors, true).push(Selector::Id(name)),
            },
        ),
        SelectorToken::WhiteSpace => Some(
            PreludeScan {
                first: false,
                direct: s.direct,
                whitespace: true,
                colon: false,
                dynamic: s.dynamic,
                specificity: s.specificity,
                selectors: s.selectors,
            },
        ),
        SelectorToken::Colon => Some(
            PreludeScan {
                first: false,
                direct: s.direct,
                whitespace: s.whitespace,
                colon: true,
                dynamic: true,
                specificity: s.specificity,
                selectors: s.selectors,
            },
        ),
        _ => Option::None,
    }
}

/// The prelude after its first `n` tokens, or `None` when one of them cannot stand
/// where it is.
pub open spec fn prelude_scan(toks: Seq<SelectorToken>, n: int) -> Option<PreludeScan>
    decreases n,
{
    if n <= 0 {
        Some(
            PreludeScan {
                first: true,
                direct: false,
                whitespace: false,
                colon: false,
                dynamic: false,
                specificity: 0,
                selectors: Seq::empty(),
            },
        )
    } else {
        match prelude_scan(toks, n - 1) {
            Some(s) => prelude_step(s, toks[n - 1]),
            Option::None => Option::None,
        }
    }
}

proof fn lemma_scan_stays_none(toks: Seq<SelectorToken>, k: int, n: int)
    requires
        0 <= k <= n,
        prelude_scan(toks, k) is None,
    ensures
        prelude_scan(toks, n) is None,
    decreases n - k,
{
    if k < n {
        lemma_scan_stays_none(toks, k, n - 1);
    }
}

proof fn lemma_scan_specificity(toks: Seq<SelectorToken>, n: int)
    requires
        0 <= n <= toks.len(),
    ensures
        prelude_scan(toks, n) matches Some(s) ==> 0 <= s.specificity <= 100 * n,
    decreases n,
{
    if n > 0 {
        lemma_scan_specificity(toks, n - 1);
    }
}

/// Reads the prelude of a rule (such as `#main > .item:hover`) into whether it depends
/// on `:hover` or `:focus`, its specificity (10 for each class and pseudo-class, 100 for
/// each id) and its selectors; whitespace between two selectors is a descendant
/// relationship. `None` when a token cannot stand where it is.
pub fn parse_prelude(toks: &[SelectorToken]) -> (r: Option<(bool, u32, Vec<Selector>)>)
    requires
        100 * toks@.len() <= u32::MAX,
    ensures
        match prelude_scan(toks@, toks@.len() as int) {
            Some(s) => r matches Some((d, sp, sels)) && d == s.dynamic && sp == s.specificity && sels@ == s.selectors,
            Option::None => r is None,
        },
{
    let mut first = true;
    let mut direct = false;
    let mut whitespace = false;
    let mut colon = false;
    let mut dynamic = false;
    let mut specificity: u32 = 0;
    let mut selectors: Vec<Selector> = Vec::new();
    let n = toks.len();
    let mut i: usize = 0;
    while i < n
        invariant
            n == toks@.len(),
            100 * n <= u32::MAX,
            i <= n,
            prelude_scan(toks@, i as int) == Some(
                PreludeScan { first, direct, whitespace, colon, dynamic, specificity: specificity as int, selectors: selectors@ },
            ),
        decreases n - i,
    {
        proof {
            lemma_scan_specificity(toks@, i as int);
        }
        let ghost s = PreludeScan { first, direct, whitespace, colon, dynamic, specificity: specificity as int, selectors: selectors@ };
        match &toks[i] {
            SelectorToken::Delim(c) => {
                if *c == '*' {
                    if !first && !direct && whitespace {
                        selectors.push(Selector::Children);
                    }
                    selectors.push(Selector::Wildcard);
                    whitespace = false;
                    direct = false;
                } else if *c == '>' {
                    selectors.push(Selector::DirectChildren);
                    direct = true;
                } else if *c == '.' {
                } else {
                    proof {
                        lemma_scan_stays_none(toks@, i + 1, n as int);
                    }
                    return Option::None;
                }
                colon = false;
            },
            SelectorToken::Ident(name) => {
                if !first && !direct && !colon && whitespace {
                    selectors.push(Selector::Children);
                }
                if colon {
                    if matches_name(name.as_str(), "focus") {
                        selectors.push(Selector::Focus);
                    } else if matches_name(name.as_str(), "hover") {
                        selectors.push(Selector::Hover);
                    } else {
                        proof {
                            lemma_scan_stays_none(toks@, i + 1, n as int);
                        }
                        return Option::None;
                    }
                } else {
                    selectors.push(Selector::Class(name.clone()));
                }
                specificity = specificity + 10;
                whitespace = false;
                direct = false;
                colon = false;
            },
            SelectorToken::Hash(name) => {
                if !first && !direct && whitespace {
                    selectors.push(Selector::Children);
                }
                selectors.push(Selector::Id(name.clone()));
                specificity = specificity + 100;
                whitespace = false;
                direct = false;
                colon = false;
            },
            SelectorToken::WhiteSpace => {
                whitespace = true;
                colon = false;
            },
            SelectorToken::Colon => {
                colon = true;
                dynamic = true;
            },
            _ => {
                proof {
                    lemma_scan_stays_none(toks@, i + 1, n as int);
                }
                return Option::None;
            },
        }
        first = false;
        proof {
            assert(prelude_step(s, toks@[i as int]) == Some(
                PreludeScan { first, direct, whitespace, colon, dynamic, specificity: specificity as int, selectors: selectors@ },
            ));
        }
        i += 1;
    }
    Some((dynamic, specificity, selectors))
}

} // verus!
