use rosin_core::css::prelude::read_selector_tokens;
use rosin_core::stylesheet::{parse_prelude, Selector};

fn prelude(css: &str) -> Option<(bool, u32, Vec<Selector>)> {
    let toks = read_selector_tokens(css);
    parse_prelude(&toks)
}

fn describe(sels: &[Selector]) -> Vec<String> {
    sels.iter()
        .map(|s| match s {
            Selector::Wildcard => "*".to_string(),
            Selector::Id(name) => format!("#{name}"),
            Selector::Class(name) => format!(".{name}"),
            Selector::Children => "descendant".to_string(),
            Selector::DirectChildren => "child".to_string(),
            Selector::Hover => ":hover".to_string(),
            Selector::Focus => ":focus".to_string(),
        })
        .collect()
}

#[test]
fn ids_classes_and_pseudo_classes() {
    let (dynamic, specificity, sels) = prelude("#main > .item:hover").unwrap();
    assert!(dynamic);
    assert_eq!(specificity, 120);
    assert_eq!(describe(&sels), vec!["#main", "child", ".item", ":hover"]);
}

#[test]
fn whitespace_is_a_descendant_relationship() {
    let (dynamic, specificity, sels) = prelude(".a .b").unwrap();
    assert!(!dynamic);
    assert_eq!(specificity, 20);
    assert_eq!(describe(&sels), vec![".a", "descendant", ".b"]);
    let (_, specificity, sels) = prelude("* .b").unwrap();
    assert_eq!(specificity, 10);
    assert_eq!(describe(&sels), vec!["*", "descendant", ".b"]);
    let (_, _, sels) = prelude("panel:FOCUS").unwrap();
    assert_eq!(describe(&sels), vec![".panel", ":focus"]);
}

#[test]
fn unsupported_tokens_are_refused() {
    assert!(prelude(".a:active").is_none());
    assert!(prelude(".a, .b").is_none());
    assert!(prelude(".a + .b").is_none());
    assert!(prelude("[x]").is_none());
}
