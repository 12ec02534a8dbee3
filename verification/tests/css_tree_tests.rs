use qfilter::Filter;
use rosin_core::css::matching::{rule_matches_node, rule_pseudo_dependencies, PseudoKind, PseudoState};
use rosin_core::css::passes::{collect_candidates, sheet_candidates, style_pre_pass};
use rosin_core::css::rules::{build_stylesheet, specificity, Rule, StylesheetRules};
use rosin_core::css::selector::Selector;
use rosin_core::css::traversal::{update_ancestors, update_sheets};
use rosin_core::css::tree::{StyleNode, NO_PARENT};
use rosin_core::css::variables::VariableContext;
use rosin_core::css::walk::{advance_to_node, consume_dirty_roots, match_node, rebuild_ancestor_state, region_start, region_step};
use rosin_core::css::{ACTIVE_DIRTY, ENABLED_DIRTY, FOCUS_DIRTY, HOVER_DIRTY};
use rosin_core::interner::StrId;
use rosin_core::nodeid::NodeId;

const APP: StrId = StrId(0);
const PANEL: StrId = StrId(1);
const TITLE: StrId = StrId(2);
const BODY: StrId = StrId(3);
const FOOTER: StrId = StrId(4);

fn node(classes: Vec<StrId>, parent: usize, subtree_size: usize, style_sheet: Option<usize>) -> StyleNode {
    StyleNode { classes, parent, subtree_size, nid: None, enabled: None, style_sheet }
}

/// 0 .app (sheet 0) { 1 .panel { 2 .title, 3 .body (sheet 1) }, 4 .footer }
fn tree() -> Vec<StyleNode> {
    vec![
        node(vec![APP], NO_PARENT, 4, Some(0)),
        node(vec![PANEL], 0, 2, None),
        node(vec![TITLE], 1, 0, None),
        node(vec![BODY], 1, 0, Some(1)),
        node(vec![FOOTER], 0, 0, None),
    ]
}

fn rule(sels: Vec<Selector>, properties: usize, vars: Vec<(&str, &str)>) -> Rule {
    let (specificity, has_pseudos) = specificity(&sels);
    let variables = vars.into_iter().map(|(n, v)| (n.to_string(), v.to_string())).collect();
    Rule { selectors: sels, properties, specificity, has_pseudos, variables }
}

fn sheets() -> Vec<StylesheetRules> {
    vec![
        build_stylesheet(vec![
            rule(vec![Selector::Class(PANEL), Selector::Descendant, Selector::Class(TITLE)], 0, vec![]),
            rule(vec![Selector::Class(APP), Selector::Child, Selector::Class(PANEL)], 1, vec![]),
            rule(vec![Selector::Class(TITLE), Selector::Hover], 2, vec![("--accent", "red")]),
            rule(vec![Selector::Wildcard], 3, vec![("--gap", "4px")]),
            rule(vec![Selector::Class(APP), Selector::Descendant, Selector::Class(BODY), Selector::Focus], 4, vec![]),
        ]),
        build_stylesheet(vec![rule(vec![Selector::Class(BODY), Selector::Disabled], 10, vec![])]),
    ]
}

fn filter() -> Filter {
    Filter::new(1000, 0.01).unwrap()
}

fn no_state() -> PseudoState {
    PseudoState { focused_node: None, active_node: None, hot_nodes: Vec::new() }
}

fn filter_for(nodes: &[StyleNode], idx: usize) -> Filter {
    let mut f = filter();
    let mut cur = nodes[idx].parent;
    while cur != NO_PARENT {
        for c in &nodes[cur].classes {
            f.insert_duplicated(c.0).unwrap();
        }
        cur = nodes[cur].parent;
    }
    f
}

#[test]
fn descendant_rule_matches_through_ancestors() {
    let nodes = tree();
    let r = rule(vec![Selector::Class(APP), Selector::Descendant, Selector::Class(TITLE)], 0, vec![]);
    assert!(rule_matches_node(&r, &nodes, 2, &no_state(), &filter_for(&nodes, 2)));
    assert!(!rule_matches_node(&r, &nodes, 3, &no_state(), &filter_for(&nodes, 3)));
}

#[test]
fn child_rule_needs_parent() {
    let nodes = tree();
    let r = rule(vec![Selector::Class(APP), Selector::Child, Selector::Class(TITLE)], 0, vec![]);
    assert!(!rule_matches_node(&r, &nodes, 2, &no_state(), &filter_for(&nodes, 2)));
    let r2 = rule(vec![Selector::Class(PANEL), Selector::Child, Selector::Class(TITLE)], 0, vec![]);
    assert!(rule_matches_node(&r2, &nodes, 2, &no_state(), &filter_for(&nodes, 2)));
}

#[test]
fn wildcard_matches_every_node() {
    let nodes = tree();
    let r = rule(vec![Selector::Wildcard], 0, vec![]);
    for i in 0..nodes.len() {
        assert!(rule_matches_node(&r, &nodes, i, &no_state(), &filter_for(&nodes, i)));
    }
}

#[test]
fn pseudo_classes_follow_state() {
    let mut nodes = tree();
    nodes[2].nid = NodeId::from_value(42);
    let hover = rule(vec![Selector::Class(TITLE), Selector::Hover], 0, vec![]);
    let focus = rule(vec![Selector::Class(TITLE), Selector::Focus], 0, vec![]);
    let disabled = rule(vec![Selector::Class(TITLE), Selector::Disabled], 0, vec![]);
    let f = filter_for(&nodes, 2);
    assert!(!rule_matches_node(&hover, &nodes, 2, &no_state(), &f));
    let hot = PseudoState { focused_node: None, active_node: None, hot_nodes: vec![2] };
    assert!(rule_matches_node(&hover, &nodes, 2, &hot, &f));
    let focused = PseudoState { focused_node: NodeId::from_value(42), active_node: None, hot_nodes: Vec::new() };
    assert!(rule_matches_node(&focus, &nodes, 2, &focused, &f));
    assert!(!rule_matches_node(&disabled, &nodes, 2, &no_state(), &f));
    nodes[2].enabled = Some(false);
    assert!(rule_matches_node(&disabled, &nodes, 2, &no_state(), &f));
}

#[test]
fn pseudo_dependencies_record_nodes() {
    let nodes = tree();
    let r = rule(vec![Selector::Class(PANEL), Selector::Hover, Selector::Descendant, Selector::Class(TITLE), Selector::Focus], 0, vec![]);
    let mut out = Vec::new();
    assert!(rule_pseudo_dependencies(&r, &nodes, 2, &filter_for(&nodes, 2), &mut out));
    assert_eq!(out, vec![(PseudoKind::Focus, 2), (PseudoKind::Hover, 1)]);
}

#[test]
fn update_sheets_follows_preorder() {
    let nodes = tree();
    let mut active = Vec::new();
    update_sheets(&nodes, 0, &mut active);
    assert_eq!(active, vec![(0, 0)]);
    update_sheets(&nodes, 1, &mut active);
    update_sheets(&nodes, 2, &mut active);
    assert_eq!(active, vec![(0, 0)]);
    update_sheets(&nodes, 3, &mut active);
    assert_eq!(active, vec![(0, 0), (3, 1)]);
    update_sheets(&nodes, 4, &mut active);
    assert_eq!(active, vec![(0, 0)]);
}

#[test]
fn update_ancestors_tracks_classes() {
    let nodes = tree();
    let mut f = filter();
    assert!(update_ancestors(&nodes, 0, &mut f));
    assert!(update_ancestors(&nodes, 1, &mut f));
    assert!(f.contains(APP.0));
    assert!(update_ancestors(&nodes, 2, &mut f));
    assert!(f.contains(PANEL.0));
    assert!(update_ancestors(&nodes, 3, &mut f));
    assert!(f.contains(PANEL.0));
    assert!(update_ancestors(&nodes, 4, &mut f));
    assert!(f.contains(APP.0));
    assert_eq!(f.len(), 1);
}

#[test]
fn candidates_nearest_sheet_first() {
    let sheets = sheets();
    let active = vec![(0, 0), (3, 1)];
    let visits = collect_candidates(&sheets, &active, &[BODY]);
    // Sheet 1 (nearest): its one rule; then sheet 0: wildcard and the `.body:focus` rule.
    let s0 = sheet_candidates(&sheets[0], &[BODY]);
    let mut expected = vec![(1, 0)];
    expected.extend(s0.iter().map(|&x| (0, x)));
    assert_eq!(visits, expected);
    assert_eq!(s0.len(), 2);
}

#[test]
fn pre_pass_flags_and_variables() {
    let nodes = tree();
    let sheets = sheets();
    let mut f = filter();
    let (flags, caches) = style_pre_pass(&nodes, &sheets, &mut f);
    assert_eq!(flags.len(), 5);
    assert_eq!(flags[2], HOVER_DIRTY);
    assert_eq!(flags[3], FOCUS_DIRTY | ENABLED_DIRTY);
    assert_eq!(flags[0], 0);
    assert_eq!(flags[1], 0);
    assert_eq!(flags[4] & ACTIVE_DIRTY, 0);
    for cache in &caches {
        assert_eq!(cache, &vec![("--gap".to_string(), "4px".to_string())]);
    }
}

#[test]
fn rebuild_and_match_in_state() {
    let nodes = tree();
    let sheets = sheets();
    let (_, caches) = style_pre_pass(&nodes, &sheets, &mut filter());
    let hot = PseudoState { focused_node: None, active_node: None, hot_nodes: vec![2] };
    let mut active = Vec::new();
    let mut f = filter();
    let mut ctx = VariableContext::new();
    assert!(rebuild_ancestor_state(&nodes, &sheets, &caches, 2, &hot, &mut active, &mut f, &mut ctx));
    assert_eq!(active, vec![(0, 0)]);
    assert_eq!(ctx.get("--gap"), Some("4px"));
    assert_eq!(ctx.get("--accent"), Some("red"));
    let matched = match_node(&nodes, &sheets, &active, 2, &hot, Some(&f), &mut ctx);
    let props: Vec<usize> = matched.iter().map(|&(h, r)| sheets[h].rules[r].properties).collect();
    assert!(props.contains(&0) && props.contains(&2) && props.contains(&3));
    assert!(!props.contains(&1));
}

#[test]
fn advance_prunes_scopes_of_left_nodes() {
    let nodes = tree();
    let sheets = sheets();
    let (_, caches) = style_pre_pass(&nodes, &sheets, &mut filter());
    let state = no_state();
    let mut active = Vec::new();
    let mut f = filter();
    let mut ctx = VariableContext::new();
    assert!(rebuild_ancestor_state(&nodes, &sheets, &caches, 3, &state, &mut active, &mut f, &mut ctx));
    assert_eq!(active, vec![(0, 0), (3, 1)]);
    assert_eq!(ctx.depth(), 3);
    assert!(advance_to_node(&nodes, &caches, 4, true, &mut active, &mut f, &mut ctx));
    assert_eq!(active, vec![(0, 0)]);
    assert_eq!(ctx.depth(), 2);
    assert_eq!(ctx.get("--gap"), Some("4px"));
}

#[test]
fn dirty_roots_inside_region_are_consumed() {
    let nodes = tree();
    assert_eq!(consume_dirty_roots(&nodes, &[1, 2, 4], 0, 4), (2, 4));
    assert_eq!(consume_dirty_roots(&nodes, &[0, 4], 0, 1), (2, 5));
    assert_eq!(consume_dirty_roots(&nodes, &[4], 0, 4), (0, 4));
}

#[test]
fn variable_scopes_push_pop_prune() {
    let mut ctx = VariableContext::new();
    let outer = vec![("--a".to_string(), "1".to_string()), ("--b".to_string(), "2".to_string())];
    let inner = vec![("--a".to_string(), "3".to_string())];
    ctx.push_vars(0, &outer);
    ctx.push_vars(2, &inner);
    ctx.push_vars(3, &[]);
    assert_eq!(ctx.depth(), 2);
    assert_eq!(ctx.get("--a"), Some("3"));
    assert_eq!(ctx.get("--b"), Some("2"));
    ctx.pop_vars();
    assert_eq!(ctx.get("--a"), Some("1"));
    ctx.push_vars(5, &inner);
    ctx.prune(1);
    assert_eq!(ctx.depth(), 1);
    assert_eq!(ctx.get("--a"), Some("1"));
    ctx.prune(0);
    assert_eq!(ctx.depth(), 1);
    ctx.pop_vars();
    assert_eq!(ctx.get("--a"), None);
    ctx.pop_vars();
    assert_eq!(ctx.depth(), 0);
    ctx.push_vars(1, &outer);
    ctx.clear();
    assert_eq!(ctx.get("--b"), None);
}

#[test]
fn law_pop_undoes_push_on_values() {
    let mut ctx = VariableContext::new();
    ctx.push_vars(0, &[("--x".to_string(), "a".to_string())]);
    let before = ctx.get("--x").map(|s| s.to_string());
    ctx.push_vars(1, &[("--x".to_string(), "b".to_string()), ("--x".to_string(), "c".to_string())]);
    assert_eq!(ctx.get("--x"), Some("c"));
    ctx.pop_vars();
    assert_eq!(ctx.get("--x").map(|s| s.to_string()), before);
}

#[test]
fn regions_start_and_grow() {
    let nodes = tree();
    // The region of node 1 covers nodes 1..4 and takes in the dirty root 2.
    assert_eq!(region_start(&nodes, &[1, 2, 4], 0), (1, 4, 2));
    // After node 2 with no callback: on to node 3, the region unchanged.
    assert_eq!(region_step(&nodes, &[1, 2, 4], 2, 2, 4, false), (3, 4, 2, true));
    // After node 3: node 4 lies outside the region, which ends.
    assert_eq!(region_step(&nodes, &[1, 2, 4], 2, 3, 4, false), (4, 4, 2, false));
    // A callback that ran on node 1 grows a region ending at 2 over its subtree.
    assert_eq!(region_step(&nodes, &[1, 2, 4], 2, 1, 2, true), (2, 4, 2, true));
    // A callback on node 0 grows a region ending at 1 over the whole tree, taking in root 4.
    assert_eq!(region_step(&nodes, &[0, 4], 1, 0, 1, true), (1, 5, 2, true));
}
