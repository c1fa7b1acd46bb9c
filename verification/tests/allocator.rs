use vm::allocator::RegionAllocator;
use vm::VmError;

#[test]
fn alloc_advances_offset_by_each_requested_size() {
    let mut allocator = RegionAllocator::new(1024);
    assert_eq!(allocator.allocate(100), Ok(0));
    assert_eq!(allocator.allocate(24), Ok(100));
    assert_eq!(allocator.allocate(300), Ok(124));
    // Offset equals the sum of the requested sizes.
    assert_eq!(allocator.current_offset(), 424);
}

#[test]
fn failing_alloc_leaves_offset_unchanged() {
    let mut allocator = RegionAllocator::new(128);
    assert_eq!(allocator.allocate(100), Ok(0));
    assert_eq!(allocator.allocate(29), Err(VmError::OutOfMemory));
    assert_eq!(allocator.current_offset(), 100);
    // The exact remainder still fits.
    assert_eq!(allocator.allocate(28), Ok(100));
    assert_eq!(allocator.current_offset(), 128);
}

#[test]
fn clear_resets_offset_and_full_capacity_fits_again() {
    let mut allocator = RegionAllocator::new(256);
    allocator.allocate(200).unwrap();
    allocator.allocate(56).unwrap();
    allocator.clear().unwrap();
    assert_eq!(allocator.current_offset(), 0);
    // An allocation of the whole original capacity succeeds after clear.
    assert_eq!(allocator.allocate(256), Ok(0));
}

#[test]
fn emplace_buffer_copies_bytes_into_the_region() {
    let mut allocator = RegionAllocator::new(64);
    let base = allocator.emplace_buffer(&[11, 22, 33]).unwrap();
    assert_eq!(base, 0);
    assert_eq!(allocator.current_offset(), 3);
    assert_eq!(allocator.get_byte(0), 11);
    assert_eq!(allocator.get_byte(1), 22);
    assert_eq!(allocator.get_byte(2), 33);
}

#[test]
fn write_bytes_at_patches_in_place() {
    let mut allocator = RegionAllocator::new(64);
    allocator.emplace_buffer(&[1, 2, 3, 4, 5]).unwrap();
    allocator.write_bytes_at(1, &[9, 8]);
    assert_eq!(allocator.current_offset(), 5);
    assert_eq!(allocator.get_byte(0), 1);
    assert_eq!(allocator.get_byte(1), 9);
    assert_eq!(allocator.get_byte(2), 8);
    assert_eq!(allocator.get_byte(3), 4);
    assert_eq!(allocator.get_byte(4), 5);
}

#[test]
fn new_region_is_zeroed_and_sized() {
    let allocator = RegionAllocator::new(16);
    assert_eq!(allocator.get_buffer_size(), 16);
    assert_eq!(allocator.current_offset(), 0);
    let copy = allocator.copy_contents();
    assert_eq!(copy, vec![0u8; 16]);
}
