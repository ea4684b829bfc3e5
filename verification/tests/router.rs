use rafka_core::router::{hash_key, route, DEFAULT_PARTITION, FNV_OFFSET_BASIS};

#[test]
fn hash_of_empty_key_is_the_offset_basis() {
    assert_eq!(hash_key(b""), FNV_OFFSET_BASIS);
}

#[test]
fn hash_matches_fnv1a_reference_values() {
    assert_eq!(hash_key(b"a"), 0xaf63dc4c8601ec8c);
    assert_eq!(hash_key(b"foobar"), 0x85944171f73967e8);
}

#[test]
fn route_is_hash_modulo_partition_count() {
    assert_eq!(route("orders", b"a", 7), (0xaf63dc4c8601ec8cu64 % 7) as u32);
    assert_eq!(route("orders", b"foobar", 16), (0x85944171f73967e8u64 % 16) as u32);
}

#[test]
fn route_is_the_same_on_every_call() {
    for n in 1..20u32 {
        let first = route("orders", b"k1", n);
        assert!(first < n);
        for _ in 0..5 {
            assert_eq!(route("orders", b"k1", n), first);
        }
    }
}

#[test]
fn route_ignores_the_topic() {
    assert_eq!(route("orders", b"k1", 12), route("payments", b"k1", 12));
}

#[test]
fn empty_key_goes_to_the_default_partition() {
    assert_eq!(route("orders", b"", 8), DEFAULT_PARTITION);
    assert_eq!(route("orders", b"", 1), 0);
}

#[test]
fn single_partition_takes_every_key() {
    assert_eq!(route("app", b"default_key", 1), 0);
}
