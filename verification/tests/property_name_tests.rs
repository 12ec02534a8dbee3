use rosin_core::css::property_name::PropertyName;

#[test]
fn names_are_found_ignoring_case() {
    assert_eq!(PropertyName::from_css_name("background-color"), Some(PropertyName::BackgroundColor));
    assert_eq!(PropertyName::from_css_name("Background-Color"), Some(PropertyName::BackgroundColor));
    assert_eq!(PropertyName::from_css_name("z-index"), Some(PropertyName::ZIndex));
    assert_eq!(PropertyName::from_css_name("max-child-between"), Some(PropertyName::MaxChildBetween));
    assert_eq!(PropertyName::from_css_name("border"), Some(PropertyName::Border));
    assert_eq!(PropertyName::from_css_name("border-top"), Some(PropertyName::BorderTop));
}

#[test]
fn unknown_names_are_refused() {
    assert_eq!(PropertyName::from_css_name("margin"), None);
    assert_eq!(PropertyName::from_css_name("--custom"), None);
    assert_eq!(PropertyName::from_css_name(""), None);
    assert_eq!(PropertyName::from_css_name("colour"), None);
}

#[test]
fn layout_affecting_properties() {
    assert!(PropertyName::Width.affects_layout());
    assert!(PropertyName::FontSize.affects_layout());
    assert!(PropertyName::TextAlign.affects_layout());
    assert!(PropertyName::BorderWidth.affects_layout());
    assert!(!PropertyName::Color.affects_layout());
    assert!(!PropertyName::BorderTopColor.affects_layout());
    assert!(!PropertyName::OutlineWidth.affects_layout());
    assert!(!PropertyName::ZIndex.affects_layout());
    assert!(!PropertyName::Transform.affects_layout());
}

#[test]
fn shorthands() {
    assert!(PropertyName::Border.is_shorthand());
    assert!(PropertyName::Font.is_shorthand());
    assert!(PropertyName::Space.is_shorthand());
    assert!(PropertyName::ChildSpace.is_shorthand());
    assert!(!PropertyName::Width.is_shorthand());
    assert!(!PropertyName::BorderTopWidth.is_shorthand());
}
