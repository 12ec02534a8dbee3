use rosin_core::css::rules::{build_stylesheet, candidate_rules, index_key_of, rules_from_prelude, sort_rules, specificity, Rule};
use rosin_core::css::selector::{parse_selector, pseudo_class_from_name, Selector, SelectorToken};
use rosin_core::interner::{StrId, StringInterner};

fn ident(s: &str) -> SelectorToken {
    SelectorToken::Ident(s.to_string())
}

#[test]
fn parse_descendant_and_child_selector() {
    let mut interner = StringInterner::new();
    // `.panel > .title:hover`
    let toks = vec![
        SelectorToken::Delim('.'),
        ident("panel"),
        SelectorToken::WhiteSpace,
        SelectorToken::Delim('>'),
        SelectorToken::WhiteSpace,
        SelectorToken::Delim('.'),
        ident("title"),
        SelectorToken::Colon,
        ident("hover"),
    ];
    let sels = parse_selector(&toks, &mut interner).unwrap();
    assert_eq!(sels, vec![Selector::Class(StrId(0)), Selector::Child, Selector::Class(StrId(1)), Selector::Hover]);
}

#[test]
fn parse_descendant_whitespace_and_wildcard() {
    let mut interner = StringInterner::new();
    // `.a .b *`
    let toks = vec![
        SelectorToken::Delim('.'),
        ident("a"),
        SelectorToken::WhiteSpace,
        SelectorToken::Delim('.'),
        ident("b"),
        SelectorToken::WhiteSpace,
        SelectorToken::Delim('*'),
    ];
    let sels = parse_selector(&toks, &mut interner).unwrap();
    assert_eq!(
        sels,
        vec![Selector::Class(StrId(0)), Selector::Descendant, Selector::Class(StrId(1)), Selector::Descendant, Selector::Wildcard]
    );
}

#[test]
fn parse_trailing_whitespace_is_ignored() {
    let mut interner = StringInterner::new();
    let toks = vec![SelectorToken::Delim('.'), ident("a"), SelectorToken::WhiteSpace];
    assert_eq!(parse_selector(&toks, &mut interner).unwrap(), vec![Selector::Class(StrId(0))]);
}

#[test]
fn parse_rejects_dangling_child_and_empty() {
    let mut interner = StringInterner::new();
    let toks = vec![SelectorToken::Delim('.'), ident("a"), SelectorToken::Delim('>')];
    assert!(parse_selector(&toks, &mut interner).is_none());
    assert!(parse_selector(&[], &mut interner).is_none());
    assert!(parse_selector(&[SelectorToken::Other], &mut interner).is_none());
}

#[test]
fn parse_rejects_unknown_pseudo_class() {
    let mut interner = StringInterner::new();
    let toks = vec![ident("a"), SelectorToken::Colon, ident("visited")];
    assert!(parse_selector(&toks, &mut interner).is_none());
}

#[test]
fn pseudo_class_names_ignore_ascii_case() {
    assert_eq!(pseudo_class_from_name("HOVER"), Some(Selector::Hover));
    assert_eq!(pseudo_class_from_name("Focus"), Some(Selector::Focus));
    assert_eq!(pseudo_class_from_name("active"), Some(Selector::Active));
    assert_eq!(pseudo_class_from_name("disabled"), Some(Selector::Disabled));
    assert_eq!(pseudo_class_from_name("enabled"), Some(Selector::Enabled));
    assert_eq!(pseudo_class_from_name("checked"), None);
}

#[test]
fn specificity_counts_classes_and_pseudos() {
    let sels = vec![Selector::Class(StrId(0)), Selector::Child, Selector::Class(StrId(1)), Selector::Hover];
    assert_eq!(specificity(&sels), (30, true));
    assert_eq!(specificity(&[Selector::Wildcard]), (0, false));
}

fn rule(sels: Vec<Selector>, properties: usize) -> Rule {
    let (specificity, has_pseudos) = specificity(&sels);
    Rule { selectors: sels, properties, specificity, has_pseudos, variables: Vec::new() }
}

#[test]
fn rules_from_prelude_shares_block() {
    let vars = vec![("--gap".to_string(), "4px".to_string())];
    let rules = rules_from_prelude(vec![vec![Selector::Class(StrId(0))], vec![Selector::Wildcard]], 7, &vars);
    assert_eq!(rules.len(), 2);
    assert_eq!(rules[0].properties, 7);
    assert_eq!(rules[1].properties, 7);
    assert_eq!(rules[0].specificity, 10);
    assert_eq!(rules[1].specificity, 0);
    assert_eq!(rules[1].variables, vars);
}

#[test]
fn sort_is_stable_by_specificity() {
    let rules = vec![
        rule(vec![Selector::Class(StrId(0)), Selector::Class(StrId(1))], 0),
        rule(vec![Selector::Class(StrId(2))], 1),
        rule(vec![Selector::Wildcard], 2),
        rule(vec![Selector::Class(StrId(3))], 3),
    ];
    let sorted = sort_rules(rules);
    let order: Vec<usize> = sorted.iter().map(|r| r.properties).collect();
    assert_eq!(order, vec![2, 1, 3, 0]);
}

#[test]
fn index_key_skips_pseudos_and_stops_at_combinators() {
    assert_eq!(index_key_of(&[Selector::Class(StrId(4)), Selector::Hover]), Some(StrId(4)));
    assert_eq!(index_key_of(&[Selector::Class(StrId(4)), Selector::Child, Selector::Hover]), None);
    assert_eq!(index_key_of(&[Selector::Wildcard]), None);
    assert_eq!(index_key_of(&[]), None);
}

#[test]
fn candidates_are_wildcards_and_indexed_rules_in_order() {
    let sheet = build_stylesheet(vec![
        rule(vec![Selector::Class(StrId(1))], 0),
        rule(vec![Selector::Wildcard], 1),
        rule(vec![Selector::Class(StrId(2))], 2),
        rule(vec![Selector::Class(StrId(1)), Selector::Focus], 3),
    ]);
    // Sorted by specificity: wildcard (0), .1 (10), .2 (10), .1:focus (20).
    let props: Vec<usize> = sheet.rules.iter().map(|r| r.properties).collect();
    assert_eq!(props, vec![1, 0, 2, 3]);
    assert_eq!(sheet.index.wildcard, vec![0]);
    assert_eq!(candidate_rules(&sheet.index, &[StrId(1)]), vec![0, 1, 3]);
    assert_eq!(candidate_rules(&sheet.index, &[StrId(2), StrId(1)]), vec![0, 1, 2, 3]);
    assert_eq!(candidate_rules(&sheet.index, &[StrId(9)]), vec![0]);
}
