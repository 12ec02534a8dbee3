use rosin_core::css::parser::{parse_text_align, read_value_tokens};
use rosin_core::css::prelude::{parse_selector_list, read_selector_tokens};
use rosin_core::css::selector::{Selector, SelectorToken};
use rosin_core::css::style::TextAlign;
use rosin_core::interner::{StrId, StringInterner};
use rosin_core::parser::ValueToken;

fn parse_list(css: &str, interner: &mut StringInterner) -> Option<Vec<Vec<Selector>>> {
    let toks = read_selector_tokens(css);
    parse_selector_list(&toks, interner)
}

#[test]
fn reads_selector_tokens() {
    let toks = read_selector_tokens(".a /* note */ >b, :hover");
    assert_eq!(
        toks,
        vec![
            SelectorToken::Delim('.'),
            SelectorToken::Ident("a".to_string()),
            SelectorToken::WhiteSpace,
            SelectorToken::WhiteSpace,
            SelectorToken::Delim('>'),
            SelectorToken::Ident("b".to_string()),
            SelectorToken::Comma,
            SelectorToken::WhiteSpace,
            SelectorToken::Colon,
            SelectorToken::Ident("hover".to_string()),
        ]
    );
    assert_eq!(read_selector_tokens("a b (c d) e").len(), 7);
    assert_eq!(read_selector_tokens("#x#1"), vec![SelectorToken::Hash("x".to_string()), SelectorToken::Hash("1".to_string())]);
}

#[test]
fn parses_selector_list() {
    let mut interner = StringInterner::new();
    let list = parse_list(".panel > .title, .footer:hover", &mut interner).unwrap();
    let panel = StrId(0);
    let title = StrId(1);
    let footer = StrId(2);
    assert_eq!(
        list,
        vec![
            vec![Selector::Class(panel), Selector::Child, Selector::Class(title)],
            vec![Selector::Class(footer), Selector::Hover],
        ]
    );
    assert_eq!(interner.get(footer), Some("footer".to_string()));
}

#[test]
fn descendant_and_wildcard() {
    let mut interner = StringInterner::new();
    let list = parse_list("a *", &mut interner).unwrap();
    assert_eq!(list, vec![vec![Selector::Class(StrId(0)), Selector::Descendant, Selector::Wildcard]]);
}

#[test]
fn invalid_lists_are_refused() {
    let mut interner = StringInterner::new();
    assert_eq!(parse_list(".a,", &mut interner), None);
    assert_eq!(parse_list(", .a", &mut interner), None);
    assert_eq!(parse_list(".a >", &mut interner), None);
    assert_eq!(parse_list(".a:visited", &mut interner), None);
    assert_eq!(parse_list(".a:is(.b)", &mut interner), None);
    assert_eq!(parse_list("", &mut interner), None);
}

#[test]
fn parsing_stops_at_first_invalid_selector() {
    let mut interner = StringInterner::new();
    assert_eq!(parse_list(".a, #id, .later", &mut interner), None);
    // `.a` was interned before the list was refused; `.later` was never read.
    assert_eq!(interner.get(StrId(0)), Some("a".to_string()));
    assert_eq!(interner.get(StrId(1)), None);
}

#[test]
fn reads_value_tokens() {
    let toks = read_value_tokens("  center /* c */ var(--x) 1px");
    assert_eq!(
        toks,
        vec![
            ValueToken::Ident("center".to_string()),
            ValueToken::Function("var".to_string()),
            ValueToken::Other,
        ]
    );
    assert_eq!(parse_text_align(&toks[0]), Ok(TextAlign::Center));
}
