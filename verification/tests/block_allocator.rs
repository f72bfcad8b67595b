use ferumfs::common::error::FfsError;
use ferumfs::storage::block_allocator::Allocator;

#[test]
fn alloc_increments_when_no_free() {
    let mut a = Allocator::new();
    assert_eq!(a.allocate(), 0);
    assert_eq!(a.allocate(), 1);
    assert_eq!(a.allocate(), 2);
}

#[test]
fn free_is_reused_before_allocating_new() {
    let mut a = Allocator::new();
    let x = a.allocate();
    let y = a.allocate();
    a.free(x);
    assert_eq!(a.allocate(), x);
    // the next allocation takes a fresh block, not y
    assert_eq!(a.allocate(), 2);
    let _ = y;
}

#[test]
fn free_below_high_water_mark_only() {
    let mut a = Allocator::new();
    a.free(999);
    // 999 was never handed out, so it is ignored
    assert_eq!(a.allocate(), 0);
}

#[test]
fn smallest_freed_block_goes_first() {
    let mut a = Allocator::new();
    for _ in 0..5 {
        a.allocate();
    }
    a.free(3);
    a.free(1);
    a.free(4);
    assert_eq!(a.allocate(), 1);
    assert_eq!(a.allocate(), 3);
    assert_eq!(a.allocate(), 4);
    assert_eq!(a.allocate(), 5);
}

#[test]
fn freeing_twice_hands_out_once() {
    let mut a = Allocator::new();
    a.allocate();
    a.allocate();
    a.free(0);
    a.free(0);
    assert_eq!(a.allocate(), 0);
    assert_eq!(a.allocate(), 2);
}

#[test]
fn consecutive_allocations_differ() {
    let mut a = Allocator::new();
    a.allocate();
    a.allocate();
    a.free(0);
    let first = a.allocate();
    let second = a.allocate();
    assert_ne!(first, second);
}

#[test]
fn persisted_state_loads_back() {
    let mut a = Allocator::new();
    a.allocate();
    a.allocate();
    a.free(0);
    let bytes = a.to_bytes().unwrap();
    let mut b = Allocator::from_bytes(&bytes).unwrap();
    // 0 is in the free set, so it comes back first
    assert_eq!(b.allocate(), 0);
    // the high-water mark is 2
    assert_eq!(b.allocate(), 2);
}

#[test]
fn persisted_bytes_are_bincode_standard() {
    let mut a = Allocator::new();
    a.allocate();
    a.allocate();
    a.allocate();
    a.free(1);
    // one free block (1), then the high-water mark 3, as varints
    assert_eq!(a.to_bytes().unwrap(), vec![1u8, 1, 3]);
}

#[test]
fn empty_bytes_are_corruption() {
    match Allocator::from_bytes(&[]) {
        Err(FfsError::Corruption(msg)) => assert!(msg.starts_with("allocator decode: ")),
        _ => panic!("expected a corruption error"),
    }
}

#[test]
fn default_is_new() {
    let mut a = Allocator::default();
    assert_eq!(a.allocate(), 0);
}

#[test]
fn no_block_in_use_is_handed_out_twice() {
    let mut a = Allocator::new();
    let mut in_use: Vec<u64> = Vec::new();
    for round in 0..50u64 {
        if round % 3 == 2 && !in_use.is_empty() {
            let victim = in_use.remove((round as usize * 7) % in_use.len());
            a.free(victim);
        } else {
            let id = a.allocate();
            assert!(!in_use.contains(&id));
            in_use.push(id);
        }
    }
}
