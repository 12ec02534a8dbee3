use rosin_core::hasher::{fnv1a_64, IdentityBuildHasher, IdentityHasher, FNV_OFFSET_BASIS};
use rosin_core::interner::{StrId, StringInterner};
use rosin_core::key::Key;
use rosin_core::nodeid::NodeId;

#[test]
fn fnv1a_known_values() {
    assert_eq!(fnv1a_64(FNV_OFFSET_BASIS, b""), 0xcbf29ce484222325);
    assert_eq!(fnv1a_64(FNV_OFFSET_BASIS, b"a"), 0xaf63dc4c8601ec8c);
    assert_eq!(fnv1a_64(FNV_OFFSET_BASIS, b"foobar"), 0x85944171f73967e8);
}

#[test]
fn identity_hasher_returns_last_integer() {
    let mut h = IdentityBuildHasher.build_hasher();
    assert_eq!(h.finish(), 0);
    h.write_u64(42);
    assert_eq!(h.finish(), 42);
    h.write_u32(7);
    assert_eq!(h.finish(), 7);
    h.write_usize(9);
    assert_eq!(h.finish(), 9);
    h.write(b"a");
    assert_eq!(h.finish(), 0xaf63dc4c8601ec8c);
    let fresh = IdentityHasher::default();
    assert_eq!(fresh.finish(), 0);
}

#[test]
fn node_id_from_location_matches_hash() {
    let id = NodeId::__internal_new("src/main.rs", 10, 5);
    let mut bytes = b"src/main.rs".to_vec();
    bytes.extend_from_slice(&10u32.to_le_bytes());
    bytes.extend_from_slice(&5u32.to_le_bytes());
    assert_eq!(id.as_u64(), fnv1a_64(FNV_OFFSET_BASIS, &bytes));
    assert_ne!(id.as_u64(), 0);
}

#[test]
fn node_id_mix_xors_then_multiplies() {
    let id = NodeId::__internal_new("a.rs", 1, 1);
    let mixed = id.__internal_mix(3);
    assert_eq!(mixed.as_u64(), (id.as_u64() ^ 3).wrapping_mul(0x100000001b3));
}

#[test]
fn node_id_counter_sequence() {
    let mut counter = 1u64;
    let a = NodeId::next(&mut counter);
    let b = NodeId::next(&mut counter);
    assert_eq!(a.as_u64(), 1);
    assert_eq!(b.as_u64(), 2);
    assert_ne!(a, b);
    assert_eq!(NodeId::get_counter(&counter), 3);
    NodeId::set_counter(&mut counter, 100);
    assert_eq!(NodeId::next(&mut counter).as_u64(), 100);
}

#[test]
fn node_id_counter_zero_gives_max() {
    let mut counter = 0u64;
    assert_eq!(NodeId::next(&mut counter).as_u64(), u64::MAX);
    let mut counter = u64::MAX;
    assert_eq!(NodeId::next(&mut counter).as_u64(), u64::MAX);
    assert_eq!(counter, 0);
}

#[test]
fn node_id_from_value() {
    assert!(NodeId::from_value(0).is_none());
    assert_eq!(NodeId::from_value(5).unwrap().as_u64(), 5);
}

#[test]
fn keys_are_consecutive() {
    let mut counter = 1u32;
    let a = Key::new(&mut counter);
    let b = Key::new(&mut counter);
    assert_ne!(a, b);
    assert_eq!(counter, 3);
}

#[test]
fn interner_assigns_ids_in_order_and_reuses_them() {
    let mut interner = StringInterner::new();
    let a = interner.intern("panel");
    let b = interner.intern("title");
    let a2 = interner.intern("panel");
    assert_eq!(a, StrId(0));
    assert_eq!(b, StrId(1));
    assert_eq!(a2, a);
    assert_eq!(interner.len(), 2);
    assert_eq!(interner.get(b).as_deref(), Some("title"));
    assert_eq!(interner.get(StrId(2)), None);
}

#[test]
fn law_intern_then_get_returns_string() {
    let mut interner = StringInterner::new();
    let id = interner.intern("button");
    assert_eq!(interner.get(id).as_deref(), Some("button"));
    let again = interner.intern("button");
    assert_eq!(again, id);
}
