use rustos::allocator::{align_up, power_of_two, Dummy, Layout, HEAP_SIZE, HEAP_START};
use rustos::bump::BumpAllocator;
use rustos::fixed_size_block::{block_size, list_index, FixedSizeBlockAllocator};
use rustos::linked_list::{LinkedListAllocator, ListNode};

fn layout(size: usize, align: usize) -> Layout {
    Layout::from_size_align(size, align).unwrap()
}

#[test]
fn align_up_rounds_to_next_multiple() {
    assert_eq!(align_up(0x1001, 0x1000), 0x2000);
    assert_eq!(align_up(0x1000, 0x1000), 0x1000);
    assert_eq!(align_up(0, 8), 0);
    assert_eq!(align_up(13, 1), 13);
    assert_eq!(align_up(17, 16), 32);
}

#[test]
fn power_of_two_detects_single_bits() {
    assert!(power_of_two(1));
    assert!(power_of_two(4096));
    assert!(!power_of_two(0));
    assert!(!power_of_two(12));
    assert!(power_of_two(1 << 63));
    assert!(!power_of_two(usize::MAX));
}

#[test]
fn layout_checks_alignment_and_size() {
    assert!(Layout::from_size_align(8, 3).is_none());
    assert!(Layout::from_size_align(8, 0).is_none());
    assert!(Layout::from_size_align(isize::MAX as usize, 2).is_none());
    let l = Layout::from_size_align(24, 8).unwrap();
    assert_eq!(l.size(), 24);
    assert_eq!(l.align(), 8);
}

#[test]
fn dummy_allocator_hands_out_nothing() {
    assert_eq!(Dummy.allocate(layout(8, 8)), None);
}

#[test]
fn heap_constants() {
    assert_eq!(HEAP_START, 0x_4444_4444_0000);
    assert_eq!(HEAP_SIZE, 100 * 1024);
}

#[test]
fn bump_allocates_upwards_and_aligned() {
    let mut bump = BumpAllocator::new();
    bump.init(0x1000, 100);
    assert_eq!(bump.allocate(layout(8, 8)), Some(0x1000));
    assert_eq!(bump.next(), 0x1008);
    assert_eq!(bump.allocate(layout(16, 16)), Some(0x1010));
    assert_eq!(bump.next(), 0x1020);
    assert_eq!(bump.allocations(), 2);
    // does not fit in what is left
    assert_eq!(bump.allocate(layout(100, 1)), None);
    assert_eq!(bump.next(), 0x1020);
    assert_eq!(bump.allocate(layout(68, 1)), Some(0x1020));
    assert_eq!(bump.next(), 0x1064);
}

#[test]
fn bump_reuses_heap_after_last_free() {
    let mut bump = BumpAllocator::new();
    bump.init(0x1000, 64);
    assert_eq!(bump.allocate(layout(32, 8)), Some(0x1000));
    assert_eq!(bump.allocate(layout(32, 8)), Some(0x1020));
    bump.deallocate();
    assert_eq!(bump.next(), 0x1040);
    bump.deallocate();
    assert_eq!(bump.next(), 0x1000);
    assert_eq!(bump.allocations(), 0);
    assert_eq!(bump.allocate(layout(64, 8)), Some(0x1000));
}

#[test]
fn bump_many_boxes() {
    let mut bump = BumpAllocator::new();
    bump.init(HEAP_START as usize, HEAP_SIZE as usize);
    for _ in 0..HEAP_SIZE {
        let a = bump.allocate(layout(8, 8));
        assert_eq!(a, Some(HEAP_START as usize));
        bump.deallocate();
    }
}

#[test]
fn bump_many_boxes_long_lived_runs_out() {
    let mut bump = BumpAllocator::new();
    bump.init(HEAP_START as usize, HEAP_SIZE as usize);
    let long_lived = bump.allocate(layout(8, 8));
    assert_eq!(long_lived, Some(HEAP_START as usize));
    let mut failed = false;
    for _ in 0..HEAP_SIZE {
        match bump.allocate(layout(8, 8)) {
            Some(_) => bump.deallocate(),
            None => {
                failed = true;
                break;
            }
        }
    }
    assert!(failed);
}

#[test]
fn list_node_addresses() {
    let node = ListNode::new(0x2000, 0x40);
    assert_eq!(node.start_addr(), 0x2000);
    assert_eq!(node.end_addr(), 0x2040);
}

#[test]
fn alloc_from_region_cases() {
    let region = ListNode::new(0x1000, 0x100);
    assert_eq!(LinkedListAllocator::alloc_from_region(&region, 0x100, 8), Ok(0x1000));
    assert_eq!(LinkedListAllocator::alloc_from_region(&region, 0x20, 0x40), Ok(0x1000));
    let unaligned = ListNode::new(0x1008, 0x100);
    assert_eq!(LinkedListAllocator::alloc_from_region(&unaligned, 0x20, 0x40), Ok(0x1040));
    // too big
    assert_eq!(LinkedListAllocator::alloc_from_region(&region, 0x101, 8), Err(()));
    // remainder too small for a node
    assert_eq!(LinkedListAllocator::alloc_from_region(&region, 0xf8, 8), Err(()));
    // remainder large enough
    assert_eq!(LinkedListAllocator::alloc_from_region(&region, 0xf0, 8), Ok(0x1000));
}

#[test]
fn linked_list_first_fit_and_reuse() {
    let mut heap = LinkedListAllocator::new();
    heap.init(0x1000, 0x1000);
    assert_eq!(LinkedListAllocator::size_align(layout(1, 1)), (16, 8));
    assert_eq!(LinkedListAllocator::size_align(layout(20, 4)), (24, 8));
    assert_eq!(LinkedListAllocator::size_align(layout(20, 32)), (32, 32));
    let a = heap.allocate_first_fit(layout(20, 8));
    assert_eq!(a, Some(0x1000));
    let b = heap.allocate_first_fit(layout(8, 8));
    assert_eq!(b, Some(0x1018));
    heap.deallocate(0x1000, layout(20, 8));
    assert_eq!(heap.allocate_first_fit(layout(20, 8)), Some(0x1000));
    // a request larger than the heap fails
    assert_eq!(heap.allocate_first_fit(layout(0x2000, 8)), None);
}

#[test]
fn scan_can_align_looks_only_up_to_first_fit() {
    let mut heap = LinkedListAllocator::new();
    // a region at the top of the address space, behind one that fits
    heap.add_free_region(usize::MAX - 0x100 - 7, 0x100);
    heap.add_free_region(0x1000, 0x100);
    assert!(heap.scan_can_align(0x20, 0x1000));
    // nothing fits in front, so the search reaches the top region
    assert!(!heap.scan_can_align(0x200, 0x1000));
}

#[test]
fn linked_list_find_region_takes_first_fit() {
    let mut heap = LinkedListAllocator::new();
    heap.add_free_region(0x8000, 0x100);
    heap.add_free_region(0x1000, 0x20);
    // the front region is too small for 0x40 bytes, the next one fits
    let (region, start) = heap.find_region(0x40, 8).unwrap();
    assert_eq!(region, ListNode::new(0x8000, 0x100));
    assert_eq!(start, 0x8000);
    assert!(heap.find_region(0x40, 8).is_none());
    let (region, start) = heap.find_region(0x20, 8).unwrap();
    assert_eq!(region, ListNode::new(0x1000, 0x20));
    assert_eq!(start, 0x1000);
    assert!(heap.scan_can_align(0x40, 8));
}

#[test]
fn block_sizes_and_list_index() {
    assert_eq!(block_size(0), 8);
    assert_eq!(block_size(8), 2048);
    assert_eq!(list_index(&layout(1, 1)), Some(0));
    assert_eq!(list_index(&layout(9, 8)), Some(1));
    assert_eq!(list_index(&layout(8, 64)), Some(3));
    assert_eq!(list_index(&layout(2048, 1)), Some(8));
    assert_eq!(list_index(&layout(2049, 1)), None);
    assert_eq!(list_index(&layout(1, 4096)), None);
}

#[test]
fn fixed_size_block_reuses_freed_blocks() {
    let mut alloc = FixedSizeBlockAllocator::new();
    alloc.init(0x10000, 0x10000);
    let a = alloc.allocate(layout(8, 8)).unwrap();
    assert_eq!(a, 0x10000);
    let b = alloc.allocate(layout(8, 8)).unwrap();
    assert_eq!(b, 0x10010);
    alloc.deallocate(a, layout(8, 8));
    alloc.deallocate(b, layout(5, 1));
    // last freed first
    assert_eq!(alloc.allocate(layout(7, 2)), Some(b));
    assert_eq!(alloc.allocate(layout(8, 8)), Some(a));
    // a block of the 64-byte class comes from the fallback, aligned to 64
    assert_eq!(alloc.allocate(layout(40, 8)), Some(0x10040));
}

#[test]
fn fixed_size_block_large_requests_use_fallback() {
    let mut alloc = FixedSizeBlockAllocator::new();
    alloc.init(0x10000, 0x10000);
    let big = alloc.allocate(layout(4096, 8)).unwrap();
    assert_eq!(big, 0x10000);
    alloc.deallocate(big, layout(4096, 8));
    assert_eq!(alloc.allocate(layout(4096, 8)), Some(0x10000));
    assert!(alloc.fallback_can_align(layout(4096, 8)));
    assert!(alloc.fallback_can_align(layout(8, 8)));
    assert_eq!(alloc.allocate(layout(0x20000, 8)), None);
}

#[test]
fn fixed_size_block_many_boxes_long_lived() {
    let mut alloc = FixedSizeBlockAllocator::new();
    alloc.init(HEAP_START as usize, HEAP_SIZE as usize);
    let long_lived = alloc.allocate(layout(8, 8)).unwrap();
    assert_eq!(long_lived, HEAP_START as usize);
    let first = alloc.allocate(layout(8, 8)).unwrap();
    assert_ne!(first, long_lived);
    alloc.deallocate(first, layout(8, 8));
    for _ in 0..HEAP_SIZE {
        let x = alloc.allocate(layout(8, 8)).unwrap();
        // the freed block is reused, never the long-lived one
        assert_eq!(x, first);
        alloc.deallocate(x, layout(8, 8));
    }
    assert_eq!(alloc.allocate(layout(8, 8)), Some(first));
}

#[test]
fn bump_fits_matches_allocate() {
    let mut bump = BumpAllocator::new();
    bump.init(0x1000, 16);
    assert!(bump.fits(layout(16, 8)));
    assert!(!bump.fits(layout(17, 8)));
    assert_eq!(bump.allocate(layout(8, 8)), Some(0x1000));
    assert!(bump.fits(layout(8, 8)));
    assert!(!bump.fits(layout(1, 16)));
    assert_eq!(bump.allocate(layout(1, 16)), None);
}
