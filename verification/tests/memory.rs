use rustos::memory::{
    entry_frame, heap_page_bounds, recursive_table_addrs, table_virt_addr, BootInfoFrameAllocator,
    EmptyFrameAllocator, EntryError, MemoryRegion, PageWalk, WalkStep,
};
use rustos::allocator::{HEAP_SIZE, HEAP_START};

fn region(start: u64, end: u64, usable: bool) -> MemoryRegion {
    MemoryRegion { start_addr: start, end_addr: end, usable }
}

#[test]
fn frame_allocator_hands_out_usable_frames_in_order() {
    let map = vec![
        region(0, 0x1000, false),
        region(0x1000, 0x3000, true),
        region(0x3000, 0x5000, false),
        region(0x10000, 0x11800, true),
    ];
    let mut frames = BootInfoFrameAllocator::init(map);
    assert_eq!(frames.frames_requested(), 0);
    assert_eq!(frames.allocate_frame(), Some(0x1000));
    assert_eq!(frames.frames_requested(), 1);
    assert_eq!(frames.allocate_frame(), Some(0x2000));
    assert_eq!(frames.allocate_frame(), Some(0x10000));
    assert_eq!(frames.allocate_frame(), Some(0x11000));
    assert_eq!(frames.allocate_frame(), None);
    assert_eq!(frames.allocate_frame(), None);
}

#[test]
fn frame_allocator_rounds_unaligned_start_down() {
    let frames = BootInfoFrameAllocator::init(vec![region(0x1234, 0x3000, true)]);
    assert_eq!(frames.nth_usable_frame(0), Some(0x1000));
    assert_eq!(frames.nth_usable_frame(1), Some(0x2000));
    assert_eq!(frames.nth_usable_frame(2), None);
}

#[test]
fn empty_frame_allocator_has_none() {
    assert_eq!(EmptyFrameAllocator.allocate_frame(), None);
}

#[test]
fn heap_pages_cover_the_heap() {
    assert_eq!(heap_page_bounds(HEAP_START, HEAP_SIZE), (0x4444_4444_0000, 0x4444_4445_8000));
    assert_eq!(heap_page_bounds(0x1234, 0x1000), (0x1000, 0x2000));
    assert_eq!(heap_page_bounds(0x1000, 1), (0x1000, 0x1000));
    assert_eq!(heap_page_bounds(0xffff_8000_0000_1234, 0x2000), (0xffff_8000_0000_1000, 0xffff_8000_0000_3000));
    // bit 47 set without sign extension is extended
    assert_eq!(heap_page_bounds(0x0000_8000_0000_0000, 0x1000), (0xffff_8000_0000_0000, 0xffff_8000_0000_0000));
}

#[test]
fn table_address_in_physical_memory_window() {
    let offset = 0x0000_1000_0000_0000;
    assert_eq!(table_virt_addr(offset, 0x5000), Some(0x0000_1000_0000_5000));
    // crossing into bit 47 gets sign-extended
    assert_eq!(table_virt_addr(0x0000_7fff_ffff_f000, 0x1000), Some(0xffff_8000_0000_0000));
    assert_eq!(table_virt_addr(0xffff_ffff_ffff_f000, 0x2000), None);
}

#[test]
fn page_walk_translates_through_four_levels() {
    // indices 1, 2, 3, 4 and page offset 0x567
    let addr: u64 = (1 << 39) | (2 << 30) | (3 << 21) | (4 << 12) | 0x567;
    let offset: u64 = 0x0000_1000_0000_0000;
    let (mut walk, step) = PageWalk::start(addr, offset, 0x1000);
    assert_eq!(step, WalkStep::ReadEntry { table_addr: offset + 0x1000, index: 1 });
    assert_eq!(walk.advance(Ok(0x2000)), WalkStep::ReadEntry { table_addr: offset + 0x2000, index: 2 });
    assert_eq!(walk.advance(Ok(0x3000)), WalkStep::ReadEntry { table_addr: offset + 0x3000, index: 3 });
    assert_eq!(walk.advance(Ok(0x4000)), WalkStep::ReadEntry { table_addr: offset + 0x4000, index: 4 });
    assert_eq!(walk.advance(Ok(0xabc000)), WalkStep::Translated(0xabc567));
}

#[test]
fn page_walk_stops_at_missing_or_huge_entries() {
    let addr: u64 = 0x1234_5678;
    let (mut walk, _) = PageWalk::start(addr, 0, 0x1000);
    assert_eq!(walk.advance(Err(EntryError::FrameNotPresent)), WalkStep::NotMapped);
    let (mut walk, _) = PageWalk::start(addr, 0, 0x1000);
    assert_eq!(walk.advance(Ok(0x2000)), WalkStep::ReadEntry { table_addr: 0x2000, index: 0 });
    assert_eq!(walk.advance(Err(EntryError::HugeFrame)), WalkStep::HugeFrame);
    let (_, step) = PageWalk::start(addr, 0xffff_ffff_ffff_f000, 0x2000);
    assert_eq!(step, WalkStep::InvalidTableAddress);
}

#[test]
fn entry_frames_follow_the_flags() {
    assert_eq!(entry_frame(0x5000 | 0b11), Ok(0x5000));
    assert_eq!(entry_frame(0x5000), Err(EntryError::FrameNotPresent));
    assert_eq!(entry_frame(0x20_0000 | 0x80 | 1), Err(EntryError::HugeFrame));
    // bits above the address and the flag bits are no part of the frame
    assert_eq!(entry_frame(0x8000_0000_0000_5063), Ok(0x5000));
    assert_eq!(entry_frame(0x000f_ffff_ffff_f001), Ok(0x000f_ffff_ffff_f000));
}

#[test]
fn page_walk_reads_raw_entries() {
    let (mut walk, _) = PageWalk::start(0, 0, 0x1000);
    assert_eq!(walk.advance_with_entry(0x5000 | 0b11), WalkStep::ReadEntry { table_addr: 0x5000, index: 0 });
    assert_eq!(walk.advance_with_entry(0x20_0000 | 0x81), WalkStep::HugeFrame);
    let (mut walk, _) = PageWalk::start(0, 0, 0x1000);
    assert_eq!(walk.advance_with_entry(0x5002), WalkStep::NotMapped);
}

#[test]
fn frames_beyond_physical_memory_are_flagged() {
    let frames = BootInfoFrameAllocator::init(vec![
        region(0x1000, 0x2000, true),
        region(0x10_0000_0000_0000, 0x10_0000_0000_1000, true),
    ]);
    assert!(frames.nth_frame_is_physical(0));
    assert!(!frames.nth_frame_is_physical(1));
    assert!(frames.nth_frame_is_physical(2));
    assert_eq!(frames.nth_usable_frame(0), Some(0x1000));
}

#[test]
fn recursive_table_addresses() {
    let addr: u64 = 0o_000000_001_002_003_004_0000;
    let t = recursive_table_addrs(addr);
    assert_eq!(t.level_4, 0o_177777_777_777_777_777_0000);
    assert_eq!(t.level_3, 0o_177777_777_777_777_001_0000);
    assert_eq!(t.level_2, 0o_177777_777_777_001_002_0000);
    assert_eq!(t.level_1, 0o_177777_777_001_002_003_0000);
    assert_eq!(t.level_4, 0xffff_ffff_ffff_f000);
}

#[test]
fn addresses_in_one_page_translate_alike() {
    let a1: u64 = (1 << 39) | (2 << 30) | (3 << 21) | (4 << 12) | 0x010;
    let a2: u64 = (1 << 39) | (2 << 30) | (3 << 21) | (4 << 12) | 0xff8;
    let mut results = Vec::new();
    for addr in [a1, a2] {
        let (mut walk, _) = PageWalk::start(addr, 0, 0x1000);
        walk.advance(Ok(0x2000));
        walk.advance(Ok(0x3000));
        walk.advance(Ok(0x4000));
        results.push(walk.advance(Ok(0x9000)));
    }
    assert_eq!(results[0], WalkStep::Translated(0x9010));
    assert_eq!(results[1], WalkStep::Translated(0x9ff8));
}
