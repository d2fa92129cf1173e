use skl_arena::arena::Arena;
use skl_arena::arena::Shared;
use skl_arena::key::KeyRef;
use skl_arena::node::Node;
use skl_arena::node::MAX_NODE_SIZE;
use skl_arena::value::ValueRef;

#[test]
fn capacity_is_kept_when_large_enough() {
    let arena = Arena::new(1024);
    assert_eq!(arena.cap(), 1024);
}

#[test]
fn capacity_is_raised_to_one_max_node() {
    let arena = Arena::new(10);
    assert_eq!(arena.cap(), MAX_NODE_SIZE);
    assert_eq!(arena.cap(), 96);
}

#[test]
fn allocations_are_contiguous_from_one() {
    let mut arena = Arena::new(1024);
    let a = arena.allocate(3);
    let b = arena.allocate(10);
    let c = arena.allocate(5);
    assert_eq!(a, 1);
    assert_eq!(b, 4);
    assert_eq!(c, 14);
    // pairwise disjoint ranges: each ends where the next begins
    assert!(a + 3 <= b);
    assert!(b + 10 <= c);
}

#[test]
fn no_allocation_returns_the_nil_offset() {
    let mut arena = Arena::new(96);
    let first = arena.allocate(95);
    assert_ne!(first, 0);
    assert_eq!(first, 1);
}

#[test]
fn allocations_fill_exactly_to_capacity() {
    let mut arena = Arena::new(96);
    let a = arena.allocate(50);
    let b = arena.allocate(45);
    assert_eq!(a, 1);
    assert_eq!(b, 51);
    assert_eq!(arena.cap(), 96);
}

#[test]
fn nil_sentinel_translates_to_absent() {
    let arena = Arena::new(1024);
    assert!(arena.get_node(0).is_none());
}

#[test]
fn out_of_range_offset_translates_to_absent() {
    let arena = Arena::new(96);
    // a header starting at 81 would end past the 96-byte region
    assert!(arena.get_node(81).is_none());
    assert!(arena.get_node(200).is_none());
    assert!(arena.get_node(80).is_some());
}

#[test]
fn example_scenario() {
    let mut arena = Arena::new(1024);
    let key = KeyRef::new(b"abc".to_vec(), 0);
    let (key_offset, timestamped) = arena.put_key(&key);
    assert_eq!(key_offset, 1);
    assert!(!timestamped);

    let val = ValueRef::new(vec![9u8, 8, 7, 6, 5, 4, 3, 2, 1, 0]);
    let val_offset = arena.put_val(&val);
    assert_eq!(val_offset, 4);

    let got_key = arena.get_key(1, 3, false);
    assert_eq!(got_key.as_ref(), b"abc");
    assert_eq!(got_key.ttl(), 0);

    let got_val = arena.get_val(4, 10);
    assert_eq!(got_val.as_ref(), &vec![9u8, 8, 7, 6, 5, 4, 3, 2, 1, 0]);
}

#[test]
fn key_round_trip_with_expiry() {
    let mut arena = Arena::new(1024);
    let key = KeyRef::new(b"k1".to_vec(), 42);
    let (offset, timestamped) = arena.put_key(&key);
    assert_eq!(offset, 1);
    assert!(timestamped);

    let got = arena.get_key(offset, 2, timestamped);
    assert_eq!(got.as_ref(), b"k1");
    assert_eq!(got.ttl(), 42);

    // raw bytes plus the 8-byte expiry suffix were consumed
    assert_eq!(arena.allocate(1), 11);
}

#[test]
fn key_without_expiry_stores_no_suffix() {
    let mut arena = Arena::new(1024);
    let key = KeyRef::new(b"k1".to_vec(), 0);
    let (offset, timestamped) = arena.put_key(&key);
    assert_eq!(offset, 1);
    assert!(!timestamped);
    // only the raw bytes were consumed
    assert_eq!(arena.allocate(1), 3);
}

#[test]
fn value_round_trip() {
    let mut arena = Arena::new(1024);
    let val = ValueRef::new(vec![255u8, 0, 128, 7]);
    let offset = arena.put_val(&val);
    let got = arena.get_val(offset, 4);
    assert_eq!(got.as_ref(), &vec![255u8, 0, 128, 7]);
}

#[test]
fn node_allocation_is_height_proportional() {
    let mut arena = Arena::new(1024);
    let offset = arena.put_node(1);
    // the first node lands on the first 8-byte boundary past offset 1
    assert_eq!(offset, 8);
    assert_eq!(offset % 8, 0);
    // header (16) + one link word (4) + alignment padding (7) were consumed
    assert_eq!(arena.allocate(1), 28);
}

#[test]
fn full_height_node_consumes_the_maximum() {
    let mut arena = Arena::new(1024);
    let offset = arena.put_node(20);
    assert_eq!(offset, 8);
    // header (16) + twenty link words (80) + alignment padding (7)
    assert_eq!(arena.allocate(1), 104);
}

#[test]
fn unused_size_formula() {
    let arena = Arena::new(1024);
    assert_eq!(arena.unused_size(20), 0);
    assert_eq!(arena.unused_size(1), 76);
    assert_eq!(arena.unused_size(0), 80);
}

#[test]
fn new_node_stitches_offsets_and_sizes() {
    let mut arena = Arena::new(1024);
    let key = KeyRef::new(b"abc".to_vec(), 0);
    let val = ValueRef::new(vec![9u8, 8, 7, 6, 5, 4, 3, 2, 1, 0]);
    let (node, tower_offset) = arena.new_node(&key, &val, 4);

    // node region: [1, 40) reserved, node placed at 8, tower at 8 + 16
    assert_eq!(tower_offset, 24);
    assert_eq!(node.key_offset, 40);
    assert_eq!(node.key_size, 3);
    assert_eq!(node.height, 4);
    assert_eq!(node.timestamped, 0);
    let (val_offset, val_size) = Node::decode_value(node.val);
    assert_eq!(val_offset, 43);
    assert_eq!(val_size, 10);

    let got_key = arena.get_key(node.key_offset, node.key_size, node.timestamped != 0);
    assert_eq!(got_key.as_ref(), b"abc");
    assert_eq!(got_key.ttl(), 0);
    let got_val = arena.get_val(val_offset, val_size);
    assert_eq!(got_val.as_ref(), &vec![9u8, 8, 7, 6, 5, 4, 3, 2, 1, 0]);
}

#[test]
fn new_node_round_trips_through_get_node() {
    let mut arena = Arena::new(1024);
    let key = KeyRef::new(b"hello".to_vec(), 7);
    let val = ValueRef::new(vec![1u8, 2, 3]);
    let (node, tower_offset) = arena.new_node(&key, &val, 2);
    assert_eq!(node.timestamped, 1);

    let (read_back, read_tower) = arena.get_node(8).expect("node at offset 8");
    assert_eq!(read_tower, tower_offset);
    assert_eq!(read_back.key_offset, node.key_offset);
    assert_eq!(read_back.key_size, node.key_size);
    assert_eq!(read_back.height, node.height);
    assert_eq!(read_back.timestamped, node.timestamped);
    assert_eq!(read_back.val, node.val);

    let got_key = arena.get_key(read_back.key_offset, read_back.key_size, true);
    assert_eq!(got_key.as_ref(), b"hello");
    assert_eq!(got_key.ttl(), 7);
}

#[test]
fn tower_links_start_nil_and_take_stores() {
    let mut arena = Arena::new(1024);
    let key = KeyRef::new(b"abc".to_vec(), 0);
    let val = ValueRef::new(vec![1u8]);
    let (_, tower_offset) = arena.new_node(&key, &val, 4);
    let tower_offset = tower_offset as usize;

    // freshly allocated links hold the nil sentinel
    assert_eq!(arena.tower(tower_offset, 0), 0);
    assert_eq!(arena.tower(tower_offset, 3), 0);

    arena.tower_store(tower_offset, 2, 77);
    assert_eq!(arena.tower(tower_offset, 2), 77);
    // the neighbouring levels are untouched
    assert_eq!(arena.tower(tower_offset, 1), 0);
    assert_eq!(arena.tower(tower_offset, 3), 0);
}

#[test]
fn tower_cas_swaps_only_on_a_match() {
    let mut arena = Arena::new(1024);
    let key = KeyRef::new(b"abc".to_vec(), 0);
    let val = ValueRef::new(vec![1u8]);
    let (_, tower_offset) = arena.new_node(&key, &val, 1);
    let tower_offset = tower_offset as usize;

    arena.tower_store(tower_offset, 0, 77);
    assert_eq!(arena.tower_cas(tower_offset, 0, 77, 123), Ok(77));
    assert_eq!(arena.tower(tower_offset, 0), 123);
    assert_eq!(arena.tower_cas(tower_offset, 0, 77, 9), Err(123));
    assert_eq!(arena.tower(tower_offset, 0), 123);
}

#[test]
fn get_node_offset_maps_absent_to_nil() {
    let arena = Arena::new(1024);
    assert_eq!(arena.get_node_offset(None), 0);
    assert_eq!(arena.get_node_offset(Some(24)), 24);
}

#[test]
fn refcount_frees_exactly_once() {
    // one region, cloned three times: four handles in all
    let mut shared = Shared::new(100);
    shared.acquire();
    shared.acquire();
    shared.acquire();
    // dropping all four handles frees the region exactly once, at the last
    assert!(!shared.release());
    assert!(!shared.release());
    assert!(!shared.release());
    assert!(shared.release());
}

#[test]
fn sole_handle_frees_immediately() {
    let mut shared = Shared::new(100);
    assert!(shared.release());
}

#[test]
fn key_and_value_accessors() {
    let key = KeyRef::new(b"xy".to_vec(), 5);
    assert_eq!(key.len(), 2);
    assert_eq!(key.ttl(), 5);
    assert_eq!(key.as_ref(), b"xy");

    let val = ValueRef::new(vec![1u8, 2, 3]);
    assert_eq!(val.encoded_size(), 3);
    assert_eq!(val.as_ref(), &vec![1u8, 2, 3]);
    let decoded = ValueRef::decode(vec![4u8, 5]);
    assert_eq!(decoded.as_ref(), &vec![4u8, 5]);
}
