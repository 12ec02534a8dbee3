use rosin_core::callbacks::{Phase, PointerButton, PointerButtons, ShouldStop};

#[test]
fn phase_update_keeps_later_phase() {
    let mut p = Phase::Draw;
    p.update(Phase::Layout);
    assert_eq!(p, Phase::Layout);
    p.update(Phase::Idle);
    assert_eq!(p, Phase::Layout);
    p.update(Phase::Build);
    assert_eq!(p, Phase::Build);
}

#[test]
fn phase_order_matches_update() {
    assert!(Phase::Idle < Phase::Draw);
    assert!(Phase::Layout < Phase::Build);
}

#[test]
fn should_stop_values_differ() {
    assert!(ShouldStop::Yes != ShouldStop::No);
}

#[test]
fn callback_button_predicates() {
    assert!(PointerButton::Left.is_left());
    assert!(PointerButton::Right.is_right());
    assert!(PointerButton::Middle.is_middle());
    assert!(PointerButton::X1.is_x1());
    assert!(PointerButton::X2.is_x2());
    assert!(!PointerButton::NoButton.is_left());
}

#[test]
fn callback_buttons_set_operations() {
    let mut set = PointerButtons::new();
    assert!(set.is_empty());
    set.insert(PointerButton::Left);
    set.insert(PointerButton::X2);
    assert!(set.has_left() && set.has_x2() && !set.has_right());
    set.insert(PointerButton::NoButton);
    assert!(!set.contains(PointerButton::NoButton));
    set.remove(PointerButton::Left);
    assert!(!set.has_left() && set.has_x2());
    let other = PointerButtons::new().with(PointerButton::Middle).with(PointerButton::X1);
    let both = set.union(other);
    assert!(both.has_middle() && both.has_x1() && both.has_x2());
    assert!(both.is_superset(other));
    assert!(!other.is_superset(both));
    let mut ext = PointerButtons::new();
    ext.extend(both);
    assert!(ext == both);
    assert!(ext.without(PointerButton::Middle).has_x1());
    ext.clear();
    assert!(ext.is_empty());
}

#[test]
fn law_callbacks_insert_remove_on_values() {
    let s = PointerButtons::new().with(PointerButton::Right);
    assert!(s.with(PointerButton::Left).contains(PointerButton::Left));
    assert!(s.with(PointerButton::Left).without(PointerButton::Left) == s.without(PointerButton::Left));
}
