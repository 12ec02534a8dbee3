use rosin_core::pointer::{PointerButton, PointerButtons};

#[test]
fn button_from_code_maps_known_codes() {
    assert_eq!(PointerButton::from(0isize), PointerButton::NoButton);
    assert_eq!(PointerButton::from(1isize), PointerButton::Primary);
    assert_eq!(PointerButton::from(2isize), PointerButton::Secondary);
    assert_eq!(PointerButton::from(3isize), PointerButton::Auxiliary);
    assert_eq!(PointerButton::from(4isize), PointerButton::X1);
    assert_eq!(PointerButton::from(5isize), PointerButton::X2);
}

#[test]
fn button_from_unknown_code_is_no_button() {
    assert_eq!(PointerButton::from(6isize), PointerButton::NoButton);
    assert_eq!(PointerButton::from(-1isize), PointerButton::NoButton);
}

#[test]
fn button_predicates() {
    assert!(PointerButton::Primary.is_primary());
    assert!(!PointerButton::Primary.is_secondary());
    assert!(PointerButton::Secondary.is_secondary());
    assert!(PointerButton::Auxiliary.is_auxiliary());
    assert!(PointerButton::X1.is_x1());
    assert!(PointerButton::X2.is_x2());
    assert!(!PointerButton::NoButton.is_x2());
    assert_eq!(PointerButton::X2.code(), 5);
}

#[test]
fn buttons_insert_contains_remove() {
    let mut set = PointerButtons::empty();
    assert!(set.is_empty());
    set.insert(PointerButton::Primary);
    set.insert(PointerButton::X1);
    assert!(set.contains(PointerButton::Primary));
    assert!(set.has_primary());
    assert!(set.has_x1());
    assert!(!set.has_secondary());
    assert!(!set.is_empty());
    assert_eq!(set.bits(), 0b0_1001);
    set.remove(PointerButton::Primary);
    assert!(!set.contains(PointerButton::Primary));
    assert_eq!(set.bits(), 0b0_1000);
}

#[test]
fn buttons_no_button_is_never_held() {
    let mut set = PointerButtons::empty();
    set.insert(PointerButton::NoButton);
    assert!(set.is_empty());
    assert!(!set.contains(PointerButton::NoButton));
}

#[test]
fn buttons_with_without_and_all() {
    let a = PointerButtons::empty().with(PointerButton::Secondary).with(PointerButton::Auxiliary);
    assert!(a.has_secondary() && a.has_auxiliary());
    let b = a.without(PointerButton::Secondary);
    assert!(!b.has_secondary() && b.has_auxiliary());
    let mut c = PointerButtons::empty().with(PointerButton::X2);
    c.insert_all(a);
    assert!(c.has_x2() && c.has_secondary() && c.has_auxiliary());
    assert!(c.is_superset(a));
    assert!(!a.is_superset(c));
    c.remove_all(a);
    assert!(c.has_x2() && !c.has_secondary() && !c.has_auxiliary());
    c.clear();
    assert!(c.is_empty());
}

#[test]
fn buttons_from_bits_keeps_low_bits() {
    let set = PointerButtons::from_bits(0b1110_0011);
    assert_eq!(set.bits(), 0b0_0011);
    assert!(set.has_primary() && set.has_secondary() && !set.has_auxiliary());
}

#[test]
fn law_insert_then_remove_gives_back_set() {
    let set = PointerButtons::empty().with(PointerButton::X1);
    let after = set.with(PointerButton::Primary).without(PointerButton::Primary);
    assert!(after == set);
}
