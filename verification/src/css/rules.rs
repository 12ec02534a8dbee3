//! Style rules: specificity, the stable specificity order of a stylesheet,
//! and the inverted indexes used to find candidate rules for a node.

use std::collections::HashMap;

use vstd::prelude::*;

use crate::css::selector::Selector;
use crate::interner::StrId;

verus! {

broadcast use vstd::std_specs::hash::group_hash_axioms;

/// A pseudo-class selector.
pub open spec fn is_pseudo(s: Selector) -> bool {
    s is Hover || s is Focus || s is Active || s is Enabled || s is Disabled
}

/// What a selector component adds to a rule's specificity: 10 for classes and pseudo-classes.
pub open spec fn selector_weight(s: Selector) -> int {
    if s is Class || is_pseudo(s) {
        10
    } else {
        0
    }
}

/// The specificity of a compound selector: 10 per class and per pseudo-class.
pub open spec fn spec_specificity(sels: Seq<Selector>) -> int
    decreases sels.len(),
{
    if sels.len() == 0 {
        0
    } else {
        spec_specificity(sels.drop_last()) + selector_weight(sels.last())
    }
}

/// Whether a compound selector holds a pseudo-class.
pub open spec fn spec_has_pseudos(sels: Seq<Selector>) -> bool {
    exists|i: int| 0 <= i < sels.len() && is_pseudo(sels[i])
}

proof fn lemma_specificity_bound(sels: Seq<Selector>)
    ensures
        0 <= spec_specificity(sels) <= 10 * sels.len(),
    decreases sels.len(),
{
    if sels.len() > 0 {
        lemma_specificity_bound(sels.drop_last());
    }
}

/// Computes the specificity of a compound selector and whether it holds a pseudo-class.
pub fn specificity(selectors: &[Selector]) -> (r: (u32, bool))
    requires
        10 * selectors@.len() <= u32::MAX,
    ensures
        r.0 == spec_specificity(selectors@),
        r.1 == spec_has_pseudos(selectors@),
{
    let mut specificity: u32 = 0;
    let mut has_pseudos = false;
    let n = selectors.len();
    let mut i: usize = 0;
    while i < n
        invariant
            n == selectors@.len(),
            10 * n <= u32::MAX,
            0 <= i <= n,
            specificity == spec_specificity(selectors@.take(i as int)),
            has_pseudos == (exists|j: int| 0 <= j < i && is_pseudo(selectors@[j])),
        decreases n - i,
    {
        proof {
            lemma_specificity_bound(selectors@.take(i as int));
            assert(selectors@.take(i + 1).drop_last() =~= selectors@.take(i as int));
        }
        match selectors[i] {
            Selector::Class(_) => {
                specificity += 10;
            },
            Selector::Hover | Selector::Focus | Selector::Active | Selector::Enabled
            | Selector::Disabled => {
                specificity += 10;
                has_pseudos = true;
            },
            _ => {},
        }
        i += 1;
    }
    assert(selectors@.take(n as int) =~= selectors@);
    (specificity, has_pseudos)
}

/// A style rule: one compound selector with the declarations of its block.
#[derive(Debug, Clone)]
pub struct Rule {
    pub selectors: Vec<Selector>,
    /// Handle of the rule block's declarations, shared by the rules of one block.
    pub properties: usize,
    pub specificity: u32,
    pub has_pseudos: bool,
    /// The CSS variables (`--name: value`) the block defines, in order.
    pub variables: Vec<(String, String)>,
}

/// The variables as pairs of character sequences.
pub open spec fn vars_view(vars: Seq<(String, String)>) -> Seq<(Seq<char>, Seq<char>)> {
    vars.map_values(|p: (String, String)| (p.0@, p.1@))
}

/// Copies a list of variable definitions.
pub fn clone_variables(vars: &Vec<(String, String)>) -> (r: Vec<(String, String)>)
    ensures
        vars_view(r@) == vars_view(vars@),
{
    let mut out: Vec<(String, String)> = Vec::with_capacity(vars.len());
    let n = vars.len();
    let mut i: usize = 0;
    while i < n
        invariant
            n == vars@.len(),
            0 <= i <= n,
            vars_view(out@) == vars_view(vars@.take(i as int)),
        decreases n - i,
    {
        let (name, value) = &vars[i];
        let ghost old_out = out@;
        out.push((name.clone(), value.clone()));
        proof {
            assert(out@ =~= old_out.push(vars@[i as int]));
            assert(vars_view(out@) =~= vars_view(old_out).push((vars@[i as int].0@, vars@[i as int].1@)));
            assert(vars@.take(i + 1) =~= vars@.take(i as int).push(vars@[i as int]));
            assert(vars_view(out@) =~= vars_view(vars@.take(i + 1)));
        }
        i += 1;
    }
    assert(vars@.take(n as int) =~= vars@);
    out
}

/// The rule built from one compound selector of a rule block.
pub open spec fn spec_rule_for(r: Rule, sels: Seq<Selector>, properties: usize, vars: Seq<(String, String)>) -> bool {
    &&& r.selectors@ == sels
    &&& r.properties == properties
    &&& r.specificity == spec_specificity(sels)
    &&& r.has_pseudos == spec_has_pseudos(sels)
    &&& vars_view(r.variables@) == vars_view(vars)
}

/// Builds one rule per comma-separated selector of a rule block, all sharing the
/// block's declarations and variables.
pub fn rules_from_prelude(prelude: Vec<Vec<Selector>>, properties: usize, variables: &Vec<(String, String)>) -> (r: Vec<Rule>)
    requires
        forall|i: int| 0 <= i < prelude@.len() ==> 10 * #[trigger] prelude@[i]@.len() <= u32::MAX,
    ensures
        r@.len() == prelude@.len(),
        forall|i: int| 0 <= i < r@.len() ==> spec_rule_for(#[trigger] r@[i], prelude@[i]@, properties, variables@),
{
    let mut rules: Vec<Rule> = Vec::new();
    let n = prelude.len();
    let mut i: usize = 0;
    while i < n
        invariant
            n == prelude@.len(),
            0 <= i <= n,
            forall|k: int| 0 <= k < prelude@.len() ==> 10 * #[trigger] prelude@[k]@.len() <= u32::MAX,
            rules@.len() == i,
            forall|k: int| 0 <= k < i ==> spec_rule_for(#[trigger] rules@[k], prelude@[k]@, properties, variables@),
        decreases n - i,
    {
        let selectors = prelude[i].clone();
        assert(selectors@ =~= prelude@[i as int]@);
        let (specificity, has_pseudos) = specificity(selectors.as_slice());
        let vars = clone_variables(variables);
        rules.push(Rule { selectors, properties, specificity, has_pseudos, variables: vars });
        i += 1;
    }
    rules
}

/// The position at which a rule of specificity `key` is inserted into `s`:
/// before the first rule of greater specificity.
pub open spec fn insert_position(s: Seq<Rule>, key: u32) -> int
    decreases s.len(),
{
    if s.len() == 0 {
        0
    } else if s.last().specificity > key {
        insert_position(s.drop_last(), key)
    } else {
        s.len() as int
    }
}

/// `s` with `r` inserted after every rule whose specificity is at most `r`'s,
/// when `s` is ordered.
pub open spec fn insert_by_specificity(s: Seq<Rule>, r: Rule) -> Seq<Rule> {
    let j = insert_position(s, r.specificity);
    s.take(j).push(r) + s.skip(j)
}

/// The rules ordered by specificity, rules of equal specificity keeping their order.
pub open spec fn sort_by_specificity(s: Seq<Rule>) -> Seq<Rule>
    decreases s.len(),
{
    if s.len() == 0 {
        s
    } else {
        insert_by_specificity(sort_by_specificity(s.drop_last()), s.last())
    }
}

/// The rules are in non-decreasing order of specificity.
pub open spec fn specificity_ordered(s: Seq<Rule>) -> bool {
    forall|i: int, j: int| 0 <= i < j < s.len() ==> s[i].specificity <= s[j].specificity
}

proof fn lemma_insert_position(s: Seq<Rule>, key: u32)
    requires
        specificity_ordered(s),
    ensures
        0 <= insert_position(s, key) <= s.len(),
        forall|i: int| 0 <= i < insert_position(s, key) ==> s[i].specificity <= key,
        forall|i: int| insert_position(s, key) <= i < s.len() ==> s[i].specificity > key,
    decreases s.len(),
{
    if s.len() > 0 {
        if s.last().specificity > key {
            let t = s.drop_last();
            assert(specificity_ordered(t));
            lemma_insert_position(t, key);
            assert forall|i: int| insert_position(s, key) <= i < s.len() implies s[i].specificity
                > key by {
                if i < s.len() - 1 {
                    assert(s[i] == t[i]);
                }
            }
            assert forall|i: int| 0 <= i < insert_position(s, key) implies s[i].specificity
                <= key by {
                assert(s[i] == t[i]);
            }
        } else {
            assert forall|i: int| 0 <= i < insert_position(s, key) implies s[i].specificity
                <= key by {
                if i < s.len() - 1 {
                    assert(s[i].specificity <= s[s.len() - 1].specificity);
                }
            }
        }
    }
}

/// Ordering rules by specificity gives an ordered sequence holding the same rules.
pub proof fn law_sort_ordered_permutation(s: Seq<Rule>)
    ensures
        specificity_ordered(sort_by_specificity(s)),
        sort_by_specificity(s).to_multiset() == s.to_multiset(),
        sort_by_specificity(s).len() == s.len(),
    decreases s.len(),
{
    broadcast use vstd::seq_lib::group_to_multiset_ensures;

    if s.len() > 0 {
        let prev = sort_by_specificity(s.drop_last());
        law_sort_ordered_permutation(s.drop_last());
        let r = s.last();
        let j = insert_position(prev, r.specificity);
        lemma_insert_position(prev, r.specificity);
        let res = prev.take(j).push(r) + prev.skip(j);
        assert forall|a: int, b: int| 0 <= a < b < res.len() implies res[a].specificity
            <= res[b].specificity by {
            if a < j && b < j {
                assert(res[a] == prev[a] && res[b] == prev[b]);
            } else if a < j && b == j {
            } else if a < j {
                assert(res[b] == prev[b - 1]);
            } else if a == j {
                assert(res[b] == prev[b - 1]);
            } else {
                assert(res[a] == prev[a - 1] && res[b] == prev[b - 1]);
            }
        }
        assert(prev =~= prev.take(j) + prev.skip(j));
        vstd::seq_lib::lemma_multiset_commutative(prev.take(j), prev.skip(j));
        vstd::seq_lib::lemma_multiset_commutative(prev.take(j).push(r), prev.skip(j));
        assert(s =~= s.drop_last().push(r));
    }
}

/// Orders rules by specificity; rules of equal specificity keep their order in the stylesheet.
pub fn sort_rules(rules: Vec<Rule>) -> (r: Vec<Rule>)
    ensures
        r@ == sort_by_specificity(rules@),
{
    let ghost orig = rules@;
    let mut input = rules;
    let mut reversed: Vec<Rule> = Vec::with_capacity(input.len());
    while input.len() > 0
        invariant
            orig == input@ + reversed@.reverse(),
        decreases input@.len(),
    {
        let x = input.pop().unwrap();
        proof {
            assert(orig =~= input@ + reversed@.push(x).reverse());
        }
        reversed.push(x);
    }
    assert(orig =~= reversed@.reverse());
    let mut out: Vec<Rule> = Vec::with_capacity(reversed.len());
    let ghost mut done: int = 0;
    assert(orig.take(0) =~= Seq::<Rule>::empty());
    assert(orig.skip(0) =~= orig);
    while reversed.len() > 0
        invariant
            reversed@.reverse() == orig.skip(done),
            0 <= done <= orig.len(),
            done + reversed@.len() == orig.len(),
            out@ == sort_by_specificity(orig.take(done)),
        decreases reversed@.len(),
    {
        let ghost rv = reversed@;
        let x = reversed.pop().unwrap();
        proof {
            assert(rv.reverse()[0] == x);
            assert(orig.skip(done)[0] == orig[done]);
            assert(reversed@.reverse() =~= orig.skip(done + 1)) by {
                assert forall|k: int| 0 <= k < reversed@.len() implies reversed@.reverse()[k]
                    == orig.skip(done + 1)[k] by {
                    assert(reversed@.reverse()[k] == rv.reverse()[k + 1]);
                    assert(orig.skip(done)[k + 1] == orig.skip(done + 1)[k]);
                }
            }
        }
        let key = x.specificity;
        let mut j = out.len();
        assert(out@.take(j as int) =~= out@);
        while j > 0 && out[j - 1].specificity > key
            invariant
                0 <= j <= out@.len(),
                insert_position(out@, key) == insert_position(out@.take(j as int), key),
            decreases j,
        {
            proof {
                assert(out@.take(j as int).drop_last() =~= out@.take(j - 1));
            }
            j -= 1;
        }
        proof {
            if j > 0 {
                assert(out@.take(j as int).last().specificity <= key);
            }
            assert(insert_position(out@.take(j as int), key) == j);
        }
        let ghost before = out@;
        out.insert(j, x);
        proof {
            assert(out@ =~= before.take(j as int).push(x) + before.skip(j as int));
            assert(orig.take(done + 1).drop_last() =~= orig.take(done));
            assert(orig.take(done + 1).last() == x);
            done = done + 1;
        }
    }
    assert(orig.take(done) =~= orig);
    out
}

} // verus!

verus! {

/// The class that indexes a compound selector, reading `sels[..k]` from the right:
/// pseudo-classes are skipped, the first class found is the key, and a wildcard or
/// a combinator (or no component at all) makes the rule a wildcard rule (`None`).
pub open spec fn index_key_from(sels: Seq<Selector>, k: int) -> Option<StrId>
    decreases k,
{
    if k <= 0 || k > sels.len() {
        Option::None
    } else {
        match sels[k - 1] {
            Selector::Class(c) => Some(c),
            Selector::Wildcard | Selector::Child | Selector::Descendant => Option::None,
            _ => index_key_from(sels, k - 1),
        }
    }
}

/// The key under which a rule with these selectors is indexed (`None`: wildcard).
pub open spec fn index_key(sels: Seq<Selector>) -> Option<StrId> {
    index_key_from(sels, sels.len() as int)
}

/// The index key of every rule.
pub open spec fn rule_keys(rules: Seq<Rule>) -> Seq<Option<StrId>> {
    rules.map_values(|r: Rule| index_key(r.selectors@))
}

/// The positions of `keys` that hold `target`, in increasing order.
pub open spec fn positions_with(keys: Seq<Option<StrId>>, target: Option<StrId>) -> Seq<usize>
    decreases keys.len(),
{
    if keys.len() == 0 {
        Seq::empty()
    } else if keys.last() == target {
        positions_with(keys.drop_last(), target).push((keys.len() - 1) as usize)
    } else {
        positions_with(keys.drop_last(), target)
    }
}

/// Computes the index key of a compound selector.
pub fn index_key_of(selectors: &[Selector]) -> (r: Option<StrId>)
    ensures
        r == index_key(selectors@),
{
    let mut k = selectors.len();
    while k > 0
        invariant
            0 <= k <= selectors@.len(),
            index_key(selectors@) == index_key_from(selectors@, k as int),
        decreases k,
    {
        match selectors[k - 1] {
            Selector::Hover | Selector::Focus | Selector::Active | Selector::Disabled
            | Selector::Enabled => {
                k -= 1;
            },
            Selector::Wildcard | Selector::Child | Selector::Descendant => {
                return Option::None;
            },
            Selector::Class(class_id) => {
                return Some(class_id);
            },
        }
    }
    Option::None
}

/// The inverted indexes of a stylesheet's rules.
#[derive(Debug)]
pub struct RuleIndex {
    /// Rules indexed as wildcard rules, in stylesheet order.
    pub wildcard: Vec<usize>,
    /// For each class id, the rules indexed under that class, in stylesheet order.
    pub index: HashMap<u32, Vec<usize>>,
}

/// `index` is the inverted index of rules with index keys `keys`.
pub open spec fn indexes_keys(ri: RuleIndex, keys: Seq<Option<StrId>>) -> bool {
    index_parts_ok(ri.wildcard@, ri.index@, keys)
}

/// `wildcard` and `index` are the inverted index of rules with index keys `keys`.
pub open spec fn index_parts_ok(wildcard: Seq<usize>, index: Map<u32, Vec<usize>>, keys: Seq<Option<StrId>>) -> bool {
    &&& wildcard == positions_with(keys, Option::None)
    &&& forall|k: u32| #[trigger] index.contains_key(k) <==> keys.contains(Some(StrId(k)))
    &&& forall|k: u32| #[trigger] index.contains_key(k) ==> index[k]@ == positions_with(keys, Some(StrId(k)))
}

/// Builds the inverted indexes of the rules: each rule goes under its index key.
pub fn build_index(rules: &[Rule]) -> (r: RuleIndex)
    ensures
        indexes_keys(r, rule_keys(rules@)),
{
    let ghost keys = rule_keys(rules@);
    let mut wildcard: Vec<usize> = Vec::new();
    let mut index: HashMap<u32, Vec<usize>> = HashMap::new();
    let n = rules.len();
    let mut i: usize = 0;
    assert(keys.take(0) =~= Seq::<Option<StrId>>::empty());
    while i < n
        invariant
            n == rules@.len(),
            keys == rule_keys(rules@),
            0 <= i <= n,
            index_parts_ok(wildcard@, index@, keys.take(i as int)),
        decreases n - i,
    {
        let key = index_key_of(rules[i].selectors.as_slice());
        let ghost pre = keys.take(i as int);
        proof {
            assert(keys[i as int] == key);
            assert(keys.take(i + 1) =~= pre.push(key));
            assert(keys.take(i + 1).drop_last() =~= pre);
        }
        match key {
            Option::None => {
                wildcard.push(i);
                proof {
                    let t = keys.take(i + 1);
                    assert(t.len() == i + 1);
                    assert(t.last() == Option::<StrId>::None);
                    assert(t.drop_last() == pre);
                    assert forall|k: u32| #[trigger] index@.contains_key(k) implies index@[k]@
                        == positions_with(t, Some(StrId(k))) by {
                        assert(index@[k]@ == positions_with(pre, Some(StrId(k))));
                    }
                    assert(wildcard@ == positions_with(t, Option::None));
                    assert forall|k: u32| #[trigger] index@.contains_key(k) <==> keys.take(
                        i + 1,
                    ).contains(Some(StrId(k))) by {
                        if keys.take(i + 1).contains(Some(StrId(k))) {
                            let w = choose|w: int| 0 <= w < i + 1 && #[trigger] keys.take(i + 1)[w] == Some(StrId(k));
                            assert(pre[w] == Some(StrId(k)));
                        }
                        if pre.contains(Some(StrId(k))) {
                            let w = choose|w: int| 0 <= w < i && #[trigger] pre[w] == Some(StrId(k));
                            assert(keys.take(i + 1)[w] == Some(StrId(k)));
                        }
                    }
                }
            },
            Some(class_id) => {
                let k = class_id.0;
                let mut list = match index.remove(&k) {
                    Some(v) => v,
                    Option::None => Vec::new(),
                };
                let ghost old_list = list@;
                list.push(i);
                let ghost idx_before = index@;
                index.insert(k, list);
                proof {
                    assert forall|k2: u32| #[trigger] index@.contains_key(k2) <==> keys.take(
                        i + 1,
                    ).contains(Some(StrId(k2))) by {
                        if k2 == k {
                            assert(keys.take(i + 1)[i as int] == Some(StrId(k)));
                        } else {
                            if keys.take(i + 1).contains(Some(StrId(k2))) {
                                let w = choose|w: int| 0 <= w < i + 1 && #[trigger] keys.take(i + 1)[w] == Some(StrId(k2));
                                assert(pre[w] == Some(StrId(k2)));
                            }
                            if pre.contains(Some(StrId(k2))) {
                                let w = choose|w: int| 0 <= w < i && #[trigger] pre[w] == Some(StrId(k2));
                                assert(keys.take(i + 1)[w] == Some(StrId(k2)));
                            }
                        }
                    }
                    assert forall|k2: u32| #[trigger] index@.contains_key(k2) implies index@[k2]@
                        == positions_with(keys.take(i + 1), Some(StrId(k2))) by {
                        if k2 == k {
                            if !pre.contains(Some(StrId(k))) {
                                lemma_positions_absent(pre, Some(StrId(k)));
                            }
                        }
                    }
                }
            },
        }
        i += 1;
    }
    assert(keys.take(n as int) =~= keys);
    RuleIndex { wildcard, index }
}

proof fn lemma_positions_absent(keys: Seq<Option<StrId>>, target: Option<StrId>)
    requires
        !keys.contains(target),
    ensures
        positions_with(keys, target) == Seq::<usize>::empty(),
    decreases keys.len(),
{
    if keys.len() > 0 {
        assert(!keys.drop_last().contains(target)) by {
            if keys.drop_last().contains(target) {
                let w = choose|w: int| 0 <= w < keys.drop_last().len() && #[trigger] keys.drop_last()[w] == target;
                assert(keys[w] == target);
            }
        }
        assert(keys[keys.len() - 1] != target);
        lemma_positions_absent(keys.drop_last(), target);
    }
}

/// A parsed stylesheet's rules in specificity order, with their inverted indexes.
#[derive(Debug)]
pub struct StylesheetRules {
    pub rules: Vec<Rule>,
    pub index: RuleIndex,
}

/// Orders the parsed rules by specificity (stable) and builds the inverted indexes.
pub fn build_stylesheet(parsed: Vec<Rule>) -> (r: StylesheetRules)
    ensures
        r.rules@ == sort_by_specificity(parsed@),
        indexes_keys(r.index, rule_keys(r.rules@)),
{
    let rules = sort_rules(parsed);
    let index = build_index(rules.as_slice());
    StylesheetRules { rules, index }
}

} // verus!

verus! {

/// Each element is smaller than the next.
pub open spec fn strictly_increasing(s: Seq<usize>) -> bool {
    forall|i: int, j: int| 0 <= i < j < s.len() ==> s[i] < s[j]
}

/// Rule `x` is indexed as a wildcard rule or under one of `classes`.
pub open spec fn is_candidate(wildcard: Seq<usize>, index: Map<u32, Vec<usize>>, classes: Seq<StrId>, x: usize) -> bool {
    wildcard.contains(x) || exists|c: StrId|
        #![trigger classes.contains(c)]
        classes.contains(c) && index.contains_key(c.0) && index[c.0]@.contains(x)
}

proof fn lemma_push_contains(s: Seq<usize>, a: usize)
    ensures
        forall|y: usize| #[trigger] s.push(a).contains(y) <==> (s.contains(y) || y == a),
{
    assert forall|y: usize| #[trigger] s.push(a).contains(y) <==> (s.contains(y) || y == a) by {
        if s.push(a).contains(y) {
            let k = choose|k: int| 0 <= k < s.push(a).len() && s.push(a)[k] == y;
            if k < s.len() {
                assert(s[k] == y);
            }
        }
        if s.contains(y) {
            let k = choose|k: int| 0 <= k < s.len() && s[k] == y;
            assert(s.push(a)[k] == y);
        }
        if y == a {
            assert(s.push(a)[s.len() as int] == y);
        }
    }
}

/// Adds `x` to an increasing list unless it is already there.
fn insert_sorted_unique(v: &mut Vec<usize>, x: usize)
    requires
        strictly_increasing(old(v)@),
    ensures
        strictly_increasing(final(v)@),
        forall|y: usize| final(v)@.contains(y) <==> (old(v)@.contains(y) || y == x),
{
    let mut j: usize = 0;
    let n = v.len();
    while j < n && v[j] < x
        invariant
            n == v@.len(),
            v@ == old(v)@,
            0 <= j <= n,
            forall|k: int| 0 <= k < j ==> v@[k] < x,
        decreases n - j,
    {
        j += 1;
    }
    if j < n && v[j] == x {
        proof {
            assert(v@[j as int] == x);
            assert(v@.contains(x));
        }
        return;
    }
    let ghost before = v@;
    v.insert(j, x);
    proof {
        assert(v@ =~= before.take(j as int).push(x) + before.skip(j as int));
        assert forall|a: int, b: int| 0 <= a < b < v@.len() implies v@[a] < v@[b] by {
            if b < j {
            } else if a < j && b == j {
            } else if a < j {
                assert(v@[b] == before[b - 1]);
            } else if a == j {
                assert(v@[b] == before[b - 1]);
                assert(before[j as int] > x);
            } else {
                assert(v@[a] == before[a - 1] && v@[b] == before[b - 1]);
            }
        }
        assert forall|y: usize| v@.contains(y) <==> (before.contains(y) || y == x) by {
            if v@.contains(y) {
                let k = choose|k: int| 0 <= k < v@.len() && v@[k] == y;
                if k < j {
                    assert(before[k] == y);
                } else if k > j {
                    assert(before[k - 1] == y);
                }
            }
            if before.contains(y) {
                let k = choose|k: int| 0 <= k < before.len() && before[k] == y;
                if k < j {
                    assert(v@[k] == y);
                } else {
                    assert(v@[k + 1] == y);
                }
            }
            if y == x {
                assert(v@[j as int] == x);
            }
        }
        assert(before == old(v)@);
    }
}

/// The rules of a stylesheet that may match a node with these classes: the wildcard
/// rules and the rules indexed under any of the classes, each once, in stylesheet order.
pub fn candidate_rules(ri: &RuleIndex, classes: &[StrId]) -> (r: Vec<usize>)
    ensures
        strictly_increasing(r@),
        forall|x: usize| r@.contains(x) <==> is_candidate(ri.wildcard@, ri.index@, classes@, x),
{
    let mut out: Vec<usize> = Vec::new();
    let nw = ri.wildcard.len();
    let mut i: usize = 0;
    while i < nw
        invariant
            nw == ri.wildcard@.len(),
            0 <= i <= nw,
            strictly_increasing(out@),
            forall|x: usize| out@.contains(x) <==> ri.wildcard@.take(i as int).contains(x),
        decreases nw - i,
    {
        let ghost before = out@;
        insert_sorted_unique(&mut out, ri.wildcard[i]);
        proof {
            assert(ri.wildcard@.take(i + 1) =~= ri.wildcard@.take(i as int).push(ri.wildcard@[i as int]));
            lemma_push_contains(ri.wildcard@.take(i as int), ri.wildcard@[i as int]);
        }
        i += 1;
    }
    assert(ri.wildcard@.take(nw as int) =~= ri.wildcard@);
    let nc = classes.len();
    let mut c: usize = 0;
    while c < nc
        invariant
            nc == classes@.len(),
            0 <= c <= nc,
            strictly_increasing(out@),
            forall|x: usize| out@.contains(x) <==> is_candidate(ri.wildcard@, ri.index@, classes@.take(c as int), x),
        decreases nc - c,
    {
        let class_id = classes[c];
        let ghost pre = classes@.take(c as int);
        proof {
            assert(classes@.take(c + 1) =~= pre.push(class_id));
        }
        match ri.index.get(&class_id.0) {
            Some(list) => {
                let m = list.len();
                let mut k: usize = 0;
                while k < m
                    invariant
                        m == list@.len(),
                        0 <= k <= m,
                        strictly_increasing(out@),
                        forall|x: usize| out@.contains(x) <==> (is_candidate(ri.wildcard@, ri.index@, pre, x) || list@.take(k as int).contains(x)),
                    decreases m - k,
                {
                    insert_sorted_unique(&mut out, list[k]);
                    proof {
                        assert(list@.take(k + 1) =~= list@.take(k as int).push(list@[k as int]));
                        lemma_push_contains(list@.take(k as int), list@[k as int]);
                    }
                    k += 1;
                }
                proof {
                    assert(list@.take(m as int) =~= list@);
                    assert forall|x: usize| out@.contains(x) <==> is_candidate(ri.wildcard@, ri.index@, classes@.take(c + 1), x) by {
                        let post = classes@.take(c + 1);
                        if is_candidate(ri.wildcard@, ri.index@, pre, x) && !ri.wildcard@.contains(x) {
                            let cc = choose|cc: StrId| #![trigger pre.contains(cc)] pre.contains(cc) && ri.index@.contains_key(cc.0) && ri.index@[cc.0]@.contains(x);
                            let w = choose|w: int| 0 <= w < pre.len() && pre[w] == cc;
                            assert(post[w] == cc);
                            assert(post.contains(cc));
                        }
                        if list@.contains(x) {
                            assert(post[c as int] == class_id);
                            assert(post.contains(class_id));
                        }
                        if is_candidate(ri.wildcard@, ri.index@, post, x) && !ri.wildcard@.contains(x) {
                            let cc = choose|cc: StrId| #![trigger post.contains(cc)] post.contains(cc) && ri.index@.contains_key(cc.0) && ri.index@[cc.0]@.contains(x);
                            let w = choose|w: int| 0 <= w < post.len() && post[w] == cc;
                            if w < c {
                                assert(pre[w] == cc);
                                assert(pre.contains(cc));
                            } else {
                                assert(cc == class_id);
                            }
                        }
                    }
                }
            },
            Option::None => {
                proof {
                    assert forall|x: usize| out@.contains(x) <==> is_candidate(ri.wildcard@, ri.index@, classes@.take(c + 1), x) by {
                        let post = classes@.take(c + 1);
                        if is_candidate(ri.wildcard@, ri.index@, pre, x) && !ri.wildcard@.contains(x) {
                            let cc = choose|cc: StrId| #![trigger pre.contains(cc)] pre.contains(cc) && ri.index@.contains_key(cc.0) && ri.index@[cc.0]@.contains(x);
                            let w = choose|w: int| 0 <= w < pre.len() && pre[w] == cc;
                            assert(post[w] == cc);
                            assert(post.contains(cc));
                        }
                        if is_candidate(ri.wildcard@, ri.index@, post, x) && !ri.wildcard@.contains(x) {
                            let cc = choose|cc: StrId| #![trigger post.contains(cc)] post.contains(cc) && ri.index@.contains_key(cc.0) && ri.index@[cc.0]@.contains(x);
                            let w = choose|w: int| 0 <= w < post.len() && post[w] == cc;
                            if w < c {
                                assert(pre[w] == cc);
                                assert(pre.contains(cc));
                            } else {
                                assert(cc == class_id);
                            }
                        }
                    }
                }
            },
        }
        c += 1;
    }
    assert(classes@.take(nc as int) =~= classes@);
    out
}

} // verus!
