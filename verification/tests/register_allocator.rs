use lua_codegen::opcode::RegisterIndex;
use lua_codegen::register_allocator::RegisterAllocator;

#[test]
fn new_allocator_is_empty() {
    let ra = RegisterAllocator::new();
    assert_eq!(ra.first_free, 0);
    assert_eq!(ra.stack_top, 0);
    assert_eq!(ra.stack_size, 0);
    assert!(ra.registers.iter().all(|r| !r));
}

#[test]
fn allocate_takes_lowest_free_register() {
    let mut ra = RegisterAllocator::new();
    assert_eq!(ra.allocate(), Some(RegisterIndex(0)));
    assert_eq!(ra.allocate(), Some(RegisterIndex(1)));
    assert_eq!(ra.allocate(), Some(RegisterIndex(2)));
    assert_eq!(ra.first_free, 3);
    assert_eq!(ra.stack_top, 3);
    assert_eq!(ra.stack_size, 3);
    ra.free(RegisterIndex(1));
    assert_eq!(ra.first_free, 1);
    assert_eq!(ra.allocate(), Some(RegisterIndex(1)));
    assert_eq!(ra.first_free, 3);
    assert_eq!(ra.stack_top, 3);
}

#[test]
fn allocate_fails_when_all_registers_are_taken() {
    let mut ra = RegisterAllocator::new();
    for i in 0..256u16 {
        assert_eq!(ra.allocate(), Some(RegisterIndex(i as u8)));
    }
    assert_eq!(ra.first_free, 256);
    assert_eq!(ra.stack_top, 256);
    assert_eq!(ra.stack_size, 256);
    assert_eq!(ra.allocate(), None);
    assert_eq!(ra.stack_top, 256);
    ra.free(RegisterIndex(200));
    assert_eq!(ra.allocate(), Some(RegisterIndex(200)));
    assert_eq!(ra.allocate(), None);
}

#[test]
fn free_below_top_leaves_hole() {
    let mut ra = RegisterAllocator::new();
    ra.allocate();
    ra.allocate();
    ra.allocate();
    ra.free(RegisterIndex(0));
    assert_eq!(ra.stack_top, 3);
    assert_eq!(ra.first_free, 0);
    assert!(!ra.is_allocated(RegisterIndex(0)));
    assert!(ra.is_allocated(RegisterIndex(1)));
    assert_eq!(ra.stack_size, 3);
}

#[test]
fn free_of_top_lowers_top_by_one_only() {
    let mut ra = RegisterAllocator::new();
    ra.allocate();
    ra.allocate();
    ra.allocate();
    ra.free(RegisterIndex(1));
    ra.free(RegisterIndex(2));
    // the hole at 1 is not reclaimed by the top
    assert_eq!(ra.stack_top, 2);
    assert_eq!(ra.first_free, 1);
    ra.free(RegisterIndex(0));
    assert_eq!(ra.stack_top, 2);
    assert_eq!(ra.first_free, 0);
    assert_eq!(ra.stack_size, 3);
}

#[test]
fn push_allocates_block_at_top() {
    let mut ra = RegisterAllocator::new();
    ra.allocate();
    ra.allocate();
    ra.free(RegisterIndex(0));
    assert_eq!(ra.push(3), Some(RegisterIndex(2)));
    assert_eq!(ra.stack_top, 5);
    assert_eq!(ra.stack_size, 5);
    // the hole below stays the first free register
    assert_eq!(ra.first_free, 0);
    assert!(ra.is_allocated(RegisterIndex(2)));
    assert!(ra.is_allocated(RegisterIndex(3)));
    assert!(ra.is_allocated(RegisterIndex(4)));
    assert!(!ra.is_allocated(RegisterIndex(5)));
}

#[test]
fn push_moves_first_free_when_it_is_the_top() {
    let mut ra = RegisterAllocator::new();
    ra.allocate();
    assert_eq!(ra.push(4), Some(RegisterIndex(1)));
    assert_eq!(ra.first_free, 5);
    assert_eq!(ra.stack_top, 5);
}

#[test]
fn push_of_zero_fails() {
    let mut ra = RegisterAllocator::new();
    assert_eq!(ra.push(0), None);
    assert_eq!(ra.stack_top, 0);
    assert_eq!(ra.stack_size, 0);
}

#[test]
fn push_fails_without_room() {
    let mut ra = RegisterAllocator::new();
    assert_eq!(ra.push(255), Some(RegisterIndex(0)));
    assert_eq!(ra.push(2), None);
    assert_eq!(ra.stack_top, 255);
    assert_eq!(ra.push(1), Some(RegisterIndex(255)));
    assert_eq!(ra.stack_top, 256);
    assert_eq!(ra.first_free, 256);
    assert_eq!(ra.push(1), None);
}

#[test]
fn pop_to_frees_everything_above() {
    let mut ra = RegisterAllocator::new();
    ra.push(6);
    ra.free(RegisterIndex(1));
    ra.pop_to(3);
    assert_eq!(ra.stack_top, 3);
    assert_eq!(ra.first_free, 1);
    assert_eq!(ra.stack_size, 6);
    assert!(ra.is_allocated(RegisterIndex(0)));
    assert!(!ra.is_allocated(RegisterIndex(1)));
    assert!(ra.is_allocated(RegisterIndex(2)));
    assert!(!ra.is_allocated(RegisterIndex(3)));
    assert!(!ra.is_allocated(RegisterIndex(5)));
}

#[test]
fn pop_to_lowers_first_free() {
    let mut ra = RegisterAllocator::new();
    ra.push(6);
    assert_eq!(ra.first_free, 6);
    ra.pop_to(2);
    assert_eq!(ra.first_free, 2);
    assert_eq!(ra.stack_top, 2);
}

#[test]
fn pop_to_at_or_above_top_does_nothing() {
    let mut ra = RegisterAllocator::new();
    ra.push(3);
    ra.pop_to(3);
    assert_eq!(ra.stack_top, 3);
    ra.pop_to(10);
    assert_eq!(ra.stack_top, 3);
    assert_eq!(ra.first_free, 3);
    assert!(ra.is_allocated(RegisterIndex(2)));
}

#[test]
fn stack_size_is_high_water_mark() {
    let mut ra = RegisterAllocator::new();
    ra.push(10);
    ra.pop_to(0);
    assert_eq!(ra.stack_top, 0);
    assert_eq!(ra.stack_size, 10);
    ra.allocate();
    assert_eq!(ra.stack_size, 10);
    ra.push(10);
    assert_eq!(ra.stack_size, 11);
}

#[test]
fn default_allocator_is_empty() {
    let ra = RegisterAllocator::default();
    assert_eq!(ra.first_free, 0);
    assert_eq!(ra.stack_top, 0);
    assert_eq!(ra.stack_size, 0);
    assert!(ra.registers.iter().all(|r| !r));
}
