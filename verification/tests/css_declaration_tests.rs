use rosin_core::css::declarations::{trim_text, Declaration, RuleBody};
use rosin_core::css::property_name::PropertyName;
use rosin_core::css::parser::{
    display_declaration, font_family_declaration, position_declaration, read_value_tokens, text_align_declaration, z_index_declaration, DeclaredValue,
};
use rosin_core::css::style::{Direction, Position, TextAlign};
use rosin_core::parser::{parse_i32, parse_u32, PropertyValue, ValueToken};

fn ident(s: &str) -> ValueToken {
    ValueToken::Ident(s.to_string())
}

#[test]
fn css_wide_keywords() {
    assert_eq!(text_align_declaration(&[ident("INITIAL")]), Some(DeclaredValue::Initial));
    assert_eq!(text_align_declaration(&[ident("inherit")]), Some(DeclaredValue::Inherit));
    assert_eq!(position_declaration(&[ident("Inherit")]), Some(DeclaredValue::Inherit));
}

#[test]
fn exact_keywords() {
    assert_eq!(text_align_declaration(&[ident("center")]), Some(DeclaredValue::Exact(TextAlign::Center)));
    assert_eq!(position_declaration(&[ident("fixed")]), Some(DeclaredValue::Exact(Position::Fixed)));
    assert_eq!(display_declaration(&[ident("none")]), Some(DeclaredValue::Exact(None)));
    assert_eq!(display_declaration(&[ident("Row-Reverse")]), Some(DeclaredValue::Exact(Some(Direction::RowReverse))));
}

#[test]
fn var_references_are_deferred() {
    let toks = vec![ValueToken::Function("var".to_string()), ValueToken::Other];
    assert_eq!(text_align_declaration(&toks), Some(DeclaredValue::Deferred));
    assert_eq!(display_declaration(&[ValueToken::Function("VAR".to_string())]), Some(DeclaredValue::Deferred));
}

#[test]
fn invalid_declarations() {
    assert_eq!(text_align_declaration(&[]), None);
    assert_eq!(text_align_declaration(&[ident("center"), ValueToken::Other]), None);
    assert_eq!(text_align_declaration(&[ident("initial"), ident("left")]), None);
    assert_eq!(text_align_declaration(&[ident("middle")]), None);
    assert_eq!(position_declaration(&[ValueToken::Function("calc".to_string())]), None);
    assert_eq!(display_declaration(&[ValueToken::Other]), None);
}

#[test]
fn integer_tokens_are_read() {
    assert_eq!(
        read_value_tokens("7 -3 1.5 2e3 auto"),
        vec![ValueToken::Integer(7), ValueToken::Integer(-3), ValueToken::Other, ValueToken::Other, ident("auto")]
    );
}

#[test]
fn z_index_declarations() {
    assert_eq!(z_index_declaration(&[ValueToken::Integer(-2)]), Some(DeclaredValue::Exact(-2)));
    assert_eq!(z_index_declaration(&[ident("inherit")]), Some(DeclaredValue::Inherit));
    assert_eq!(z_index_declaration(&[ValueToken::Function("var".to_string())]), Some(DeclaredValue::Deferred));
    assert_eq!(z_index_declaration(&[ident("auto")]), None);
    assert_eq!(z_index_declaration(&[ValueToken::Integer(1), ValueToken::Integer(2)]), None);
}

#[test]
fn legacy_integer_values() {
    assert_eq!(parse_i32(&ValueToken::Integer(12)), Some(PropertyValue::Exact(12)));
    assert_eq!(parse_i32(&ident("AUTO")), Some(PropertyValue::Auto));
    assert_eq!(parse_i32(&ident("initial")), Some(PropertyValue::Initial));
    assert_eq!(parse_i32(&ident("inherit")), Some(PropertyValue::Inherit));
    assert_eq!(parse_i32(&ident("none")), None);
    assert_eq!(parse_i32(&ValueToken::Other), None);
    assert_eq!(parse_u32(&ValueToken::Integer(5)), Some(PropertyValue::Exact(5)));
    assert_eq!(parse_u32(&ValueToken::Integer(-1)), Some(PropertyValue::Exact(u32::MAX)));
}

fn family_tokens(css: &str) -> Vec<ValueToken> {
    read_value_tokens(css)
}

#[test]
fn font_family_lists() {
    assert_eq!(font_family_declaration(&family_tokens("\"Fira Sans\", Helvetica Neue, sans-serif")), Some(DeclaredValue::Exact(())));
    assert_eq!(font_family_declaration(&family_tokens("serif")), Some(DeclaredValue::Exact(())));
    assert_eq!(font_family_declaration(&family_tokens("Initial")), Some(DeclaredValue::Initial));
    assert_eq!(font_family_declaration(&family_tokens("inherit")), Some(DeclaredValue::Inherit));
    assert_eq!(font_family_declaration(&family_tokens("Arial, var(--fallback)")), Some(DeclaredValue::Deferred));
    assert_eq!(font_family_declaration(&family_tokens("Open var(--x)")), Some(DeclaredValue::Deferred));
}

#[test]
fn invalid_font_family_lists() {
    assert_eq!(font_family_declaration(&family_tokens("")), None);
    assert_eq!(font_family_declaration(&family_tokens("Arial,")), None);
    assert_eq!(font_family_declaration(&family_tokens(", Arial")), None);
    assert_eq!(font_family_declaration(&family_tokens("\"A\" \"B\"")), None);
    assert_eq!(font_family_declaration(&family_tokens("\"A\" var(--x)")), None);
    assert_eq!(font_family_declaration(&family_tokens("Arial 12")), None);
}

#[test]
fn rule_body_splits_variables_from_declarations() {
    let mut body = RuleBody::new();
    assert!(body.add("--gap", "  4px \n"));
    assert!(body.add("color", "red "));
    assert!(!body.add("no-such-property", "1"));
    assert!(body.add("--b", "var(--gap)"));
    assert_eq!(body.variables, vec![("--gap".to_string(), "4px".to_string()), ("--b".to_string(), "var(--gap)".to_string())]);
    assert_eq!(body.declarations, vec![Declaration { property: PropertyName::Color, value: "red".to_string() }]);
    assert_eq!(trim_text("\u{3000} a b\t"), "a b");
    assert_eq!(trim_text("   "), "");
}
