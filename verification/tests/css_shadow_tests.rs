use rosin_core::css::shadow::{shadow_items, shadow_list, ShadowError, ShadowItem, ShadowPart};
use rosin_core::parser::PropertyValue;

fn ident(s: &str) -> ShadowPart {
    ShadowPart::Ident(s.to_string())
}

fn len(i: usize) -> ShadowPart {
    ShadowPart::Length(i, false)
}

#[test]
fn one_shadow_with_colour_anywhere() {
    let parts = [ShadowPart::Color(Some(0)), len(1), len(2)];
    assert_eq!(
        shadow_items(&parts, true),
        Ok(vec![ShadowItem { color: Some(0), inset: false, offset_x: 1, offset_y: 2, blur: None, spread: None }])
    );
    let parts = [len(0), len(1), ShadowPart::Color(None), len(2)];
    assert_eq!(
        shadow_items(&parts, false),
        Ok(vec![ShadowItem { color: None, inset: false, offset_x: 0, offset_y: 1, blur: Some(2), spread: None }])
    );
}

#[test]
fn shadows_split_at_commas() {
    let parts = [ident("inset"), len(0), len(1), len(2), len(3), ShadowPart::Color(Some(4)), ShadowPart::Comma, len(5), len(6)];
    assert_eq!(
        shadow_items(&parts, true),
        Ok(vec![
            ShadowItem { color: Some(4), inset: true, offset_x: 0, offset_y: 1, blur: Some(2), spread: Some(3) },
            ShadowItem { color: None, inset: false, offset_x: 5, offset_y: 6, blur: None, spread: None },
        ])
    );
}

#[test]
fn shadow_errors() {
    assert_eq!(shadow_items(&[len(0)], true), Err(ShadowError::Unexpected));
    assert_eq!(shadow_items(&[], true), Err(ShadowError::Unexpected));
    assert_eq!(shadow_items(&[len(0), len(1), len(2), len(3), len(4)], true), Err(ShadowError::Unexpected));
    assert_eq!(
        shadow_items(&[ShadowPart::Color(None), len(0), len(1), ShadowPart::Color(Some(2))], true),
        Err(ShadowError::Unexpected)
    );
    assert_eq!(shadow_items(&[ident("inset"), len(0), len(1)], false), Err(ShadowError::Unexpected));
    assert_eq!(shadow_items(&[ident("inset"), ident("inset"), len(0), len(1)], true), Err(ShadowError::Unexpected));
    assert_eq!(shadow_items(&[len(0), len(1), ShadowPart::Length(2, true)], true), Err(ShadowError::NegativeBlur));
    assert_eq!(shadow_items(&[len(0), ShadowPart::Length(1, true)], true).map(|v| v.len()), Ok(1));
    assert_eq!(shadow_items(&[len(0), ShadowPart::Var], true), Err(ShadowError::VarFunction));
    assert_eq!(shadow_items(&[len(0), len(1), ShadowPart::Comma], true), Err(ShadowError::Unexpected));
    assert_eq!(shadow_items(&[len(0), len(1), ShadowPart::Other], true), Err(ShadowError::Unexpected));
}

#[test]
fn shadow_list_none_is_initial() {
    assert_eq!(shadow_list(&[ident("none")], true), Ok(PropertyValue::Initial));
    assert_eq!(shadow_list(&[ident("NONE")], false), Ok(PropertyValue::Initial));
    assert_eq!(shadow_list(&[ident("none"), len(0), len(1)], true), Err(ShadowError::Unexpected));
    assert_eq!(shadow_list(&[ident("outset"), len(0), len(1)], true), Err(ShadowError::Unexpected));
    // `2px 3px 1px red`: one shadow with offsets, blur and colour.
    assert_eq!(
        shadow_list(&[len(0), len(1), len(2), ShadowPart::Color(Some(3))], true),
        Ok(PropertyValue::Exact(vec![ShadowItem { color: Some(3), inset: false, offset_x: 0, offset_y: 1, blur: Some(2), spread: None }]))
    );
    // `2px 3px -1px red`: a negative blur.
    assert_eq!(
        shadow_list(&[len(0), len(1), ShadowPart::Length(2, true), ShadowPart::Color(Some(3))], true),
        Err(ShadowError::NegativeBlur)
    );
    assert_eq!(shadow_list(&[ident("InSet"), len(0), len(1)], true).map(|v| matches!(v, PropertyValue::Exact(ref i) if i[0].inset)), Ok(true));
}
