use ntc::arena::ArenaAllocator;

#[test]
fn offsets_grow_monotonically_by_requested_size() {
    let mut arena = ArenaAllocator::new(1024);
    assert_eq!(arena.allocate(16), 0);
    assert_eq!(arena.allocate(8), 16);
    assert_eq!(arena.allocate(1), 24);
    assert_eq!(arena.allocate(0), 25);
    assert_eq!(arena.allocate(7), 25);
}

#[test]
fn fresh_arena_starts_at_offset_zero() {
    let mut arena = ArenaAllocator::new(64);
    assert_eq!(arena.allocate(64), 0);
}
