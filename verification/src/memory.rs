use vstd::prelude::*;
use x86_64::{PhysAddr, VirtAddr};
use x86_64::structures::paging::{Page, PhysFrame, Size4KiB};
use x86_64::structures::paging::PageTableFlags;

verus! {

/// The first address that no physical address reaches (addresses have 52 bits).
pub const PHYS_ADDR_LIMIT: u64 = 0x10_0000_0000_0000;

/// `addr` is accepted as a virtual address: bits 48 to 63 are all zero,
/// all copies of bit 47, or zero with bit 47 set (then they get sign-extended).
pub open spec fn virt_valid(addr: u64) -> bool {
    (addr >> 47u64) == 0 || (addr >> 47u64) == 1 || (addr >> 47u64) == 0x1ffff
}

/// The canonical form of a valid virtual address: bit 47 copied into bits 48 to 63.
pub open spec fn virt_canonical(addr: u64) -> u64 {
    if (addr >> 47u64) == 1 { addr | 0xffff_0000_0000_0000u64 } else { addr }
}

/// `addr` is a canonical virtual address.
pub open spec fn is_canonical(addr: u64) -> bool {
    virt_valid(addr) && virt_canonical(addr) == addr
}

/// `VirtAddr::new(addr)`: the canonical form of `addr`, which must be valid.
#[verifier::external_body]
fn virt_addr_new(addr: u64) -> (r: u64)
    requires
        virt_valid(addr),
    ensures
        r == virt_canonical(addr),
{
    VirtAddr::new(addr).as_u64()
}

/// `VirtAddr + u64`: the canonical form of the sum, which must not overflow
/// and must be a valid virtual address.
#[verifier::external_body]
fn virt_addr_add(base: u64, offset: u64) -> (r: u64)
    requires
        is_canonical(base),
        base + offset <= u64::MAX,
        virt_valid((base + offset) as u64),
    ensures
        r == virt_canonical((base + offset) as u64),
{
    (VirtAddr::new(base) + offset).as_u64()
}

/// `VirtAddr - u64`: the canonical form of the difference, which must not
/// underflow and must be a valid virtual address.
#[verifier::external_body]
fn virt_addr_sub(base: u64, offset: u64) -> (r: u64)
    requires
        is_canonical(base),
        offset <= base,
        virt_valid((base - offset) as u64),
    ensures
        r == virt_canonical((base - offset) as u64),
{
    (VirtAddr::new(base) - offset).as_u64()
}

/// `Page::containing_address`: the start of the 4 KiB page holding a canonical address.
#[verifier::external_body]
fn page_containing(addr: u64) -> (r: u64)
    requires
        is_canonical(addr),
    ensures
        r == addr - addr % 4096,
{
    Page::<Size4KiB>::containing_address(VirtAddr::new(addr)).start_address().as_u64()
}

/// `VirtAddr::p4_index`: bits 39 to 47 of the address.
#[verifier::external_body]
fn p4_index(addr: u64) -> (r: u16)
    requires
        is_canonical(addr),
    ensures
        r == (addr >> 39u64) % 512,
{
    u16::from(VirtAddr::new(addr).p4_index())
}

/// `VirtAddr::p3_index`: bits 30 to 38 of the address.
#[verifier::external_body]
fn p3_index(addr: u64) -> (r: u16)
    requires
        is_canonical(addr),
    ensures
        r == (addr >> 30u64) % 512,
{
    u16::from(VirtAddr::new(addr).p3_index())
}

/// `VirtAddr::p2_index`: bits 21 to 29 of the address.
#[verifier::external_body]
fn p2_index(addr: u64) -> (r: u16)
    requires
        is_canonical(addr),
    ensures
        r == (addr >> 21u64) % 512,
{
    u16::from(VirtAddr::new(addr).p2_index())
}

/// `VirtAddr::p1_index`: bits 12 to 20 of the address.
#[verifier::external_body]
fn p1_index(addr: u64) -> (r: u16)
    requires
        is_canonical(addr),
    ensures
        r == (addr >> 12u64) % 512,
{
    u16::from(VirtAddr::new(addr).p1_index())
}

/// `VirtAddr::page_offset`: bits 0 to 11 of the address.
#[verifier::external_body]
fn page_offset(addr: u64) -> (r: u64)
    requires
        is_canonical(addr),
    ensures
        r == addr % 4096,
{
    u64::from(VirtAddr::new(addr).page_offset())
}

/// `PhysFrame::containing_address`: the start of the 4 KiB frame holding a
/// physical address.
#[verifier::external_body]
fn frame_containing(addr: u64) -> (r: u64)
    requires
        addr < PHYS_ADDR_LIMIT,
    ensures
        r == addr - addr % 4096,
{
    PhysFrame::<Size4KiB>::containing_address(PhysAddr::new(addr)).start_address().as_u64()
}

/// `PhysAddr + u64`: the sum, which must stay a physical address.
#[verifier::external_body]
fn phys_addr_add(base: u64, offset: u64) -> (r: u64)
    requires
        base + offset < PHYS_ADDR_LIMIT,
    ensures
        r == base + offset,
{
    (PhysAddr::new(base) + offset).as_u64()
}

/// Why a page table entry maps no 4 KiB frame.
#[derive(Debug, Clone, Copy, PartialEq, Eq, Structural)]
pub enum EntryError {
    /// The entry is not present.
    FrameNotPresent,
    /// The entry maps a huge page.
    HugeFrame,
}

/// The flag bit of a present entry.
pub const PRESENT: u64 = 1;

/// The flag bit of an entry that maps a huge page.
pub const HUGE_PAGE: u64 = 0x80;

/// The bits of an entry that hold the physical address it maps.
pub const ENTRY_ADDR_MASK: u64 = 0x000f_ffff_ffff_f000;

/// `PageTableFlags::contains` on the flags of a raw page table entry
/// (`PageTableFlags::from_bits_truncate`): whether the entry has `flag` set,
/// for a flag that the crate defines.
#[verifier::external_body]
fn entry_has_flag(entry: u64, flag: u64) -> (r: bool)
    requires
        flag == PRESENT || flag == HUGE_PAGE,
    ensures
        r == (entry & flag == flag),
{
    PageTableFlags::from_bits_truncate(entry).contains(PageTableFlags::from_bits_truncate(flag))
}

/// What `PageTableEntry::frame` gives for an entry with bits `entry`: not
/// present without the present flag, a huge page with the huge page flag,
/// else the frame at the address bits.
pub open spec fn entry_frame_rule(entry: u64) -> Result<u64, EntryError> {
    if entry & PRESENT != PRESENT {
        Err(EntryError::FrameNotPresent)
    } else if entry & HUGE_PAGE == HUGE_PAGE {
        Err(EntryError::HugeFrame)
    } else {
        Ok(entry & ENTRY_ADDR_MASK)
    }
}

/// The frame a page table entry with bits `entry` maps, or why it maps none,
/// as `PageTableEntry::frame` decides: from the entry's flags, and the
/// frame holding its address (`PageTableEntry::addr`, `PhysFrame::containing_address`).
pub fn entry_frame(entry: u64) -> (r: Result<u64, EntryError>)
    ensures
        r == entry_frame_rule(entry),
        r matches Ok(f) ==> f % 4096 == 0 && f < PHYS_ADDR_LIMIT,
{
    if !entry_has_flag(entry, PRESENT) {
        Err(EntryError::FrameNotPresent)
    } else if entry_has_flag(entry, HUGE_PAGE) {
        Err(EntryError::HugeFrame)
    } else {
        let addr = entry & ENTRY_ADDR_MASK;
        assert(addr < 0x10_0000_0000_0000u64 && addr % 4096 == 0) by (bit_vector)
            requires addr == entry & 0x000f_ffff_ffff_f000u64;
        Ok(frame_containing(addr))
    }
}


/// A region of physical memory `[start_addr, end_addr)` from the boot
/// loader's memory map, and whether the kernel may use it.
#[derive(Debug, Clone, Copy, PartialEq, Eq, Structural)]
pub struct MemoryRegion {
    pub start_addr: u64,
    pub end_addr: u64,
    pub usable: bool,
}

/// How many frames a region yields: one every 4 KiB from its start, before its end.
pub open spec fn frame_count(r: MemoryRegion) -> int {
    if r.end_addr > r.start_addr { (r.end_addr - r.start_addr + 4095) / 4096 } else { 0 }
}

/// The frames of a region: the frames that hold its start and every 4 KiB after it.
pub open spec fn region_frames(r: MemoryRegion) -> Seq<u64> {
    Seq::new(frame_count(r) as nat, |k: int| {
        let a = r.start_addr + 4096 * k;
        (a - a % 4096) as u64
    })
}

/// The usable frames of a memory map, region by region.
pub open spec fn usable_frames(regions: Seq<MemoryRegion>) -> Seq<u64>
    decreases regions.len(),
{
    if regions.len() == 0 {
        Seq::empty()
    } else {
        (if regions[0].usable { region_frames(regions[0]) } else { Seq::empty() })
            + usable_frames(regions.drop_first())
    }
}

/// The `n`-th usable frame, where there is one, is a physical address.
pub open spec fn nth_frame_physical(regions: Seq<MemoryRegion>, n: int) -> bool {
    0 <= n < usable_frames(regions).len() ==> usable_frames(regions)[n] < PHYS_ADDR_LIMIT
}

/// The frames in a span of `d` bytes: `d` over 4096, rounded up.
proof fn lemma_frame_count(d: int)
    requires
        d >= 0,
    ensures
        (d + 4095) / 4096 == d / 4096 + if d % 4096 == 0 { 0int } else { 1int },
{
    vstd::arithmetic::div_mod::lemma_fundamental_div_mod(d, 4096);
    vstd::arithmetic::div_mod::lemma_fundamental_div_mod(d + 4095, 4096);
    let q = d / 4096;
    let r = d % 4096;
    let q2 = (d + 4095) / 4096;
    let r2 = (d + 4095) % 4096;
    assert(q2 == q + if r == 0 { 0int } else { 1int }) by (nonlinear_arith)
        requires
            d == 4096 * q + r,
            0 <= r < 4096,
            d + 4095 == 4096 * q2 + r2,
            0 <= r2 < 4096;
}

/// Rounding down to a frame boundary keeps an address below the physical
/// limit exactly when the address is below it.
proof fn lemma_round_down_below_limit(a: int)
    requires
        a >= 0,
    ensures
        (a - a % 4096 < PHYS_ADDR_LIMIT) == (a < PHYS_ADDR_LIMIT),
{
    vstd::arithmetic::div_mod::lemma_fundamental_div_mod(a, 4096);
    let q = a / 4096;
    let r = a % 4096;
    assert((a - r < 0x10_0000_0000_0000) == (a < 0x10_0000_0000_0000)) by (nonlinear_arith)
        requires
            a == 4096 * q + r,
            0 <= r < 4096;
}

/// Hands out the usable frames of the boot loader's memory map in order.
pub struct BootInfoFrameAllocator {
    memory_map: Vec<MemoryRegion>,
    next: usize,
}

impl BootInfoFrameAllocator {
    pub closed spec fn memory_map(&self) -> Seq<MemoryRegion> {
        self.memory_map@
    }

    /// How many frames have been asked for.
    pub closed spec fn next_index(&self) -> int {
        self.next as int
    }

    /// An allocator over `memory_map` that has handed out nothing.
    pub fn init(memory_map: Vec<MemoryRegion>) -> (r: BootInfoFrameAllocator)
        ensures
            r.memory_map() == memory_map@,
            r.next_index() == 0,
    {
        BootInfoFrameAllocator { memory_map, next: 0 }
    }

    /// How many frames have been asked for.
    pub fn frames_requested(&self) -> (r: usize)
        ensures
            r == self.next_index(),
    {
        self.next
    }

    /// The address from which the `n`-th usable frame is rounded down, if
    /// the memory map has that many.
    fn nth_usable_addr(&self, n: usize) -> (r: Option<u64>)
        ensures
            r is Some <==> n < usable_frames(self.memory_map()).len(),
            r matches Some(a) ==> usable_frames(self.memory_map())[n as int] == (a - a % 4096) as u64,
    {
        let ghost regions = self.memory_map@;
        let mut remaining: u64 = n as u64;
        let mut i: usize = 0;
        proof { assert(regions.skip(0) =~= regions); }
        while i < self.memory_map.len()
            invariant
                regions == self.memory_map@,
                i <= regions.len(),
                (n < usable_frames(regions).len()) == (remaining < usable_frames(regions.skip(i as int)).len()),
                n < usable_frames(regions).len() ==>
                    usable_frames(regions)[n as int] == usable_frames(regions.skip(i as int))[remaining as int],
            decreases regions.len() - i,
        {
            let region = self.memory_map[i];
            proof {
                lemma_usable_frames_skip(regions, i as int);
            }
            if region.usable {
                proof { assert(regions[i as int].usable); }
                if region.end_addr > region.start_addr {
                    let span = region.end_addr - region.start_addr;
                    let count = span / 4096 + if span % 4096 == 0 { 0 } else { 1 };
                    proof { lemma_frame_count(span as int); }
                    if remaining < count {
                        proof {
                            assert(remaining * 4096 < region.end_addr - region.start_addr) by (nonlinear_arith)
                                requires
                                    remaining < count,
                                    count == (region.end_addr - region.start_addr + 4095) / 4096;
                        }
                        let addr = region.start_addr + remaining * 4096;
                        return Some(addr);
                    }
                    remaining = remaining - count;
                }
            }
            i = i + 1;
        }
        proof {
            assert(regions.skip(i as int) =~= Seq::<MemoryRegion>::empty());
        }
        None
    }

    /// Whether the `n`-th usable frame, where there is one, is a physical
    /// address (below 2^52).
    pub fn nth_frame_is_physical(&self, n: usize) -> (r: bool)
        ensures
            r == nth_frame_physical(self.memory_map(), n as int),
    {
        match self.nth_usable_addr(n) {
            Some(addr) => {
                proof { lemma_round_down_below_limit(addr as int); }
                addr < PHYS_ADDR_LIMIT
            },
            None => true,
        }
    }

    /// The `n`-th usable frame of the memory map, if it has that many.
    pub fn nth_usable_frame(&self, n: usize) -> (r: Option<u64>)
        requires
            nth_frame_physical(self.memory_map(), n as int),
        ensures
            r == (if n < usable_frames(self.memory_map()).len() {
                Some(usable_frames(self.memory_map())[n as int])
            } else {
                None
            }),
    {
        match self.nth_usable_addr(n) {
            Some(addr) => {
                proof { lemma_round_down_below_limit(addr as int); }
                Some(frame_containing(addr))
            },
            None => None,
        }
    }

    /// The next usable frame, or `None` once all are handed out; every call
    /// moves on by one.
    pub fn allocate_frame(&mut self) -> (r: Option<u64>)
        requires
            old(self).next_index() < usize::MAX,
            nth_frame_physical(old(self).memory_map(), old(self).next_index()),
        ensures
            final(self).memory_map() == old(self).memory_map(),
            final(self).next_index() == old(self).next_index() + 1,
            r == (if old(self).next_index() < usable_frames(old(self).memory_map()).len() {
                Some(usable_frames(old(self).memory_map())[old(self).next_index()])
            } else {
                None
            }),
    {
        let frame = self.nth_usable_frame(self.next);
        self.next = self.next + 1;
        frame
    }
}

/// The usable frames of two memory maps one after the other are those of
/// the first followed by those of the second.
pub proof fn lemma_usable_frames_concat(a: Seq<MemoryRegion>, b: Seq<MemoryRegion>)
    ensures
        usable_frames(a + b) == usable_frames(a) + usable_frames(b),
    decreases a.len(),
{
    if a.len() == 0 {
        assert(a + b =~= b);
        assert(usable_frames(a) + usable_frames(b) =~= usable_frames(b));
    } else {
        assert((a + b).drop_first() =~= a.drop_first() + b);
        assert((a + b)[0] == a[0]);
        lemma_usable_frames_concat(a.drop_first(), b);
        let head = if a[0].usable { region_frames(a[0]) } else { Seq::empty() };
        assert(head + (usable_frames(a.drop_first()) + usable_frames(b))
            =~= (head + usable_frames(a.drop_first())) + usable_frames(b));
    }
}

/// A usable region `[start, end)` yields a frame for every 4 KiB step from
/// its start that lies before its end, and no other: its `n`-th frame is
/// there exactly when `start + 4096 * n < end`, and is the frame holding
/// that address. A region of unusable memory yields none.
pub proof fn lemma_region_yields_every_step(r: MemoryRegion, n: int)
    requires
        n >= 0,
    ensures
        r.usable ==> (n < usable_frames(seq![r]).len() <==> r.start_addr + 4096 * n < r.end_addr),
        r.usable && r.start_addr + 4096 * n < r.end_addr ==> ({
            let a = r.start_addr + 4096 * n;
            usable_frames(seq![r])[n] == (a - a % 4096) as u64
        }),
        !r.usable ==> usable_frames(seq![r]).len() == 0,
{
    let single = seq![r];
    assert(single.drop_first() =~= Seq::<MemoryRegion>::empty());
    assert(usable_frames(single.drop_first()) =~= Seq::<u64>::empty());
    assert(usable_frames(single) =~= (if r.usable { region_frames(r) } else { Seq::empty() }));
    if r.end_addr > r.start_addr {
        let d = r.end_addr - r.start_addr;
        vstd::arithmetic::div_mod::lemma_fundamental_div_mod(d + 4095, 4096);
        let q = (d + 4095) / 4096;
        let rem = (d + 4095) % 4096;
        assert((n < q) <==> (4096 * n < d)) by (nonlinear_arith)
            requires
                d + 4095 == 4096 * q + rem,
                0 <= rem < 4096,
                n >= 0;
    }
}

/// The usable frames from region `i` on are those of region `i` followed by
/// those from region `i + 1` on.
proof fn lemma_usable_frames_skip(regions: Seq<MemoryRegion>, i: int)
    requires
        0 <= i < regions.len(),
    ensures
        usable_frames(regions.skip(i)) == (if regions[i].usable { region_frames(regions[i]) } else { Seq::empty() })
            + usable_frames(regions.skip(i + 1)),
{
    assert(regions.skip(i).drop_first() =~= regions.skip(i + 1));
    assert(regions.skip(i)[0] == regions[i]);
}

/// Every usable frame is page aligned.
pub proof fn lemma_usable_frames_aligned(regions: Seq<MemoryRegion>, k: int)
    requires
        0 <= k < usable_frames(regions).len(),
    ensures
        usable_frames(regions)[k] % 4096 == 0,
    decreases regions.len(),
{
    let head = if regions[0].usable { region_frames(regions[0]) } else { Seq::empty() };
    let tail = regions.drop_first();
    assert(usable_frames(regions) == head + usable_frames(tail));
    if k < head.len() {
        let r = regions[0];
        let a = r.start_addr + 4096 * k;
        assert(4096 * k < r.end_addr - r.start_addr) by (nonlinear_arith)
            requires
                0 <= k < (r.end_addr - r.start_addr + 4095) / 4096,
                r.end_addr > r.start_addr;
        assert(head[k] == (a - a % 4096) as u64);
        vstd::arithmetic::div_mod::lemma_fundamental_div_mod(a, 4096);
        vstd::arithmetic::div_mod::lemma_mod_multiples_basic(a / 4096, 4096);
        assert((a / 4096) * 4096 == 4096 * (a / 4096)) by (nonlinear_arith);
    } else {
        lemma_usable_frames_aligned(tail, k - head.len());
    }
}

/// The usable regions start on a frame boundary and do not overlap.
pub open spec fn usable_regions_disjoint(regions: Seq<MemoryRegion>) -> bool {
    &&& forall|i: int| 0 <= i < regions.len() && #[trigger] regions[i].usable ==> regions[i].start_addr % 4096 == 0
    &&& forall|i: int, j: int|
        0 <= i < regions.len() && 0 <= j < regions.len() && i != j && #[trigger] regions[i].usable
            && #[trigger] regions[j].usable
            ==> regions[i].end_addr <= regions[j].start_addr || regions[j].end_addr <= regions[i].start_addr
}

proof fn lemma_usable_frame_in_region(regions: Seq<MemoryRegion>, k: int)
    requires
        usable_regions_disjoint(regions),
        0 <= k < usable_frames(regions).len(),
    ensures
        exists|i: int| 0 <= i < regions.len() && #[trigger] regions[i].usable
            && regions[i].start_addr <= usable_frames(regions)[k] < regions[i].end_addr,
    decreases regions.len(),
{
    let head = if regions[0].usable { region_frames(regions[0]) } else { Seq::empty() };
    let tail = regions.drop_first();
    assert(usable_frames(regions) == head + usable_frames(tail));
    if k < head.len() {
        let r = regions[0];
        let a = r.start_addr + 4096 * k;
        assert(4096 * k < r.end_addr - r.start_addr) by (nonlinear_arith)
            requires
                0 <= k < (r.end_addr - r.start_addr + 4095) / 4096,
                r.end_addr > r.start_addr;
        lemma_aligned_step(r.start_addr as int, k);
        assert(regions[0].usable);
    } else {
        lemma_tail_disjoint(regions);
        lemma_usable_frame_in_region(tail, k - head.len());
        let i = choose|i: int| 0 <= i < tail.len() && #[trigger] tail[i].usable
            && tail[i].start_addr <= usable_frames(tail)[k - head.len()] < tail[i].end_addr;
        assert(regions[i + 1] == tail[i]);
    }
}

/// A frame-aligned start plus whole frames stays frame aligned.
proof fn lemma_aligned_step(start: int, k: int)
    requires
        start >= 0,
        k >= 0,
        start % 4096 == 0,
    ensures
        (start + 4096 * k) % 4096 == 0,
{
    vstd::arithmetic::div_mod::lemma_mod_multiples_vanish(k, start, 4096);
    assert(4096 * k + start == start + 4096 * k);
}

proof fn lemma_tail_disjoint(regions: Seq<MemoryRegion>)
    requires
        usable_regions_disjoint(regions),
        regions.len() > 0,
    ensures
        usable_regions_disjoint(regions.drop_first()),
{
    let tail = regions.drop_first();
    assert forall|i: int| 0 <= i < tail.len() && #[trigger] tail[i].usable implies tail[i].start_addr % 4096 == 0 by {
        assert(tail[i] == regions[i + 1]);
    }
    assert forall|i: int, j: int|
        0 <= i < tail.len() && 0 <= j < tail.len() && i != j && #[trigger] tail[i].usable && #[trigger] tail[j].usable
        implies tail[i].end_addr <= tail[j].start_addr || tail[j].end_addr <= tail[i].start_addr by {
        assert(tail[i] == regions[i + 1]);
        assert(tail[j] == regions[j + 1]);
    }
}

/// Where the usable regions start on frame boundaries and do not overlap,
/// no frame is handed out twice: the usable frames are all different.
pub proof fn lemma_usable_frames_distinct(regions: Seq<MemoryRegion>)
    requires
        usable_regions_disjoint(regions),
    ensures
        forall|a: int, b: int| 0 <= a < b < usable_frames(regions).len()
            ==> #[trigger] usable_frames(regions)[a] != #[trigger] usable_frames(regions)[b],
    decreases regions.len(),
{
    if regions.len() > 0 {
        let head = if regions[0].usable { region_frames(regions[0]) } else { Seq::empty() };
        let tail = regions.drop_first();
        let all = usable_frames(regions);
        assert(all == head + usable_frames(tail));
        lemma_tail_disjoint(regions);
        lemma_usable_frames_distinct(tail);
        assert forall|a: int, b: int| 0 <= a < b < all.len() implies #[trigger] all[a] != #[trigger] all[b] by {
            if b < head.len() {
                let r = regions[0];
                lemma_aligned_step(r.start_addr as int, a);
                lemma_aligned_step(r.start_addr as int, b);
                assert(4096 * a < 4096 * b) by (nonlinear_arith) requires a < b;
            } else if a < head.len() {
                let r = regions[0];
                assert(4096 * a < r.end_addr - r.start_addr) by (nonlinear_arith)
                    requires
                        0 <= a < (r.end_addr - r.start_addr + 4095) / 4096,
                        r.end_addr > r.start_addr;
                lemma_aligned_step(r.start_addr as int, a);
                lemma_usable_frame_in_region(tail, b - head.len());
                let i = choose|i: int| 0 <= i < tail.len() && #[trigger] tail[i].usable
                    && tail[i].start_addr <= usable_frames(tail)[b - head.len()] < tail[i].end_addr;
                assert(regions[i + 1] == tail[i]);
                assert(regions[0].usable && regions[i + 1].usable);
            } else {
                assert(all[a] == usable_frames(tail)[a - head.len()]);
                assert(all[b] == usable_frames(tail)[b - head.len()]);
            }
        }
    }
}

/// A frame allocator that has no frames.
pub struct EmptyFrameAllocator;

impl EmptyFrameAllocator {
    /// Always `None`.
    pub fn allocate_frame(&mut self) -> (r: Option<u64>)
        ensures
            r is None,
    {
        None
    }
}


/// What the address translation does next.
#[derive(Debug, Clone, Copy, PartialEq, Eq, Structural)]
pub enum WalkStep {
    /// Read entry `index` of the page table mapped at virtual address `table_addr`.
    ReadEntry { table_addr: u64, index: u16 },
    /// The address translates to this physical address.
    Translated(u64),
    /// An entry on the way is not present: the address is not mapped.
    NotMapped,
    /// An entry on the way maps a huge page, which the translation does not support.
    HugeFrame,
    /// The table's frame lies outside the virtual window onto physical memory.
    InvalidTableAddress,
}

/// The state of a translation: the address, the offset at which physical
/// memory is mapped, how many tables have been read, and the frame of the
/// table to read next (after four, the frame of the page).
pub struct WalkState {
    pub addr: u64,
    pub phys_offset: u64,
    pub level: int,
    pub frame: u64,
}

/// The index into the table at `level` (0 for the level 4 table).
pub open spec fn table_index(addr: u64, level: int) -> u16 {
    if level == 0 {
        ((addr >> 39u64) % 512) as u16
    } else if level == 1 {
        ((addr >> 30u64) % 512) as u16
    } else if level == 2 {
        ((addr >> 21u64) % 512) as u16
    } else {
        ((addr >> 12u64) % 512) as u16
    }
}

/// The table at physical frame `frame` is reachable at `phys_offset + frame`.
pub open spec fn table_addr_valid(phys_offset: u64, frame: u64) -> bool {
    phys_offset + frame <= u64::MAX && virt_valid((phys_offset + frame) as u64)
}

/// The virtual address at which the table in physical frame `frame` is
/// seen, where all physical memory is mapped at `phys_offset`; `None` where
/// that address is no valid virtual address.
pub fn table_virt_addr(phys_offset: u64, frame: u64) -> (r: Option<u64>)
    requires
        is_canonical(phys_offset),
    ensures
        r == (if table_addr_valid(phys_offset, frame) {
            Some(virt_canonical((phys_offset + frame) as u64))
        } else {
            None
        }),
{
    if phys_offset > u64::MAX - frame {
        return None;
    }
    let sum = phys_offset + frame;
    let top = sum >> 47;
    if !(top == 0 || top == 1 || top == 0x1ffff) {
        return None;
    }
    Some(virt_addr_add(phys_offset, frame))
}

/// What the translation in state `w` does next.
pub open spec fn walk_request(w: WalkState) -> WalkStep {
    if w.level < 4 {
        if table_addr_valid(w.phys_offset, w.frame) {
            WalkStep::ReadEntry {
                table_addr: virt_canonical((w.phys_offset + w.frame) as u64),
                index: table_index(w.addr, w.level),
            }
        } else {
            WalkStep::InvalidTableAddress
        }
    } else {
        WalkStep::Translated((w.frame + w.addr % 4096) as u64)
    }
}

/// The state and the next step after the entry that was read yields `entry`.
pub open spec fn walk_advance(w: WalkState, entry: Result<u64, EntryError>) -> (WalkState, WalkStep) {
    match entry {
        Ok(f) => {
            let next = WalkState { level: w.level + 1, frame: f, ..w };
            (next, walk_request(next))
        },
        Err(EntryError::FrameNotPresent) => (w, WalkStep::NotMapped),
        Err(EntryError::HugeFrame) => (w, WalkStep::HugeFrame),
    }
}

/// A translation of a virtual address to a physical one through the four
/// levels of page tables, one entry read at a time.
pub struct PageWalk {
    addr: u64,
    phys_offset: u64,
    level: u8,
    frame: u64,
}

impl View for PageWalk {
    type V = WalkState;

    closed spec fn view(&self) -> WalkState {
        WalkState { addr: self.addr, phys_offset: self.phys_offset, level: self.level as int, frame: self.frame }
    }
}

impl WalkState {
    pub open spec fn wf(self) -> bool {
        &&& is_canonical(self.addr)
        &&& 0 <= self.level <= 4
        &&& self.frame % 4096 == 0
        &&& self.frame < PHYS_ADDR_LIMIT
    }
}

impl PageWalk {
    /// Starts translating `addr`, with the level 4 table in frame `level_4_frame`.
    pub fn start(addr: u64, phys_offset: u64, level_4_frame: u64) -> (r: (PageWalk, WalkStep))
        requires
            is_canonical(addr),
            is_canonical(phys_offset),
            level_4_frame % 4096 == 0,
            level_4_frame < PHYS_ADDR_LIMIT,
        ensures
            r.0@ == (WalkState { addr, phys_offset, level: 0, frame: level_4_frame }),
            r.0@.wf(),
            r.1 == walk_request(r.0@),
    {
        let walk = PageWalk { addr, phys_offset, level: 0, frame: level_4_frame };
        let step = walk.request();
        (walk, step)
    }

    /// What the translation does next.
    fn request(&self) -> (r: WalkStep)
        requires
            self@.wf(),
            is_canonical(self.phys_offset),
        ensures
            r == walk_request(self@),
    {
        if self.level < 4 {
            let table_addr = match table_virt_addr(self.phys_offset, self.frame) {
                Some(a) => a,
                None => return WalkStep::InvalidTableAddress,
            };
            let index = if self.level == 0 {
                p4_index(self.addr)
            } else if self.level == 1 {
                p3_index(self.addr)
            } else if self.level == 2 {
                p2_index(self.addr)
            } else {
                p1_index(self.addr)
            };
            WalkStep::ReadEntry { table_addr, index }
        } else {
            let offset = page_offset(self.addr);
            WalkStep::Translated(phys_addr_add(self.frame, offset))
        }
    }

    /// Moves on with the outcome of the entry that was read: the frame it
    /// maps, or why it maps none.
    pub fn advance(&mut self, entry: Result<u64, EntryError>) -> (r: WalkStep)
        requires
            old(self)@.wf(),
            is_canonical(old(self)@.phys_offset),
            old(self)@.level < 4,
            entry matches Ok(f) ==> f % 4096 == 0 && f < PHYS_ADDR_LIMIT,
        ensures
            final(self)@.wf(),
            (final(self)@, r) == walk_advance(old(self)@, entry),
    {
        match entry {
            Ok(frame) => {
                self.frame = frame;
                self.level = self.level + 1;
                self.request()
            },
            Err(EntryError::FrameNotPresent) => WalkStep::NotMapped,
            Err(EntryError::HugeFrame) => WalkStep::HugeFrame,
        }
    }

    /// Moves on with the bits of the page table entry read at the place the
    /// last step named.
    pub fn advance_with_entry(&mut self, entry: u64) -> (r: WalkStep)
        requires
            old(self)@.wf(),
            is_canonical(old(self)@.phys_offset),
            old(self)@.level < 4,
        ensures
            final(self)@.wf(),
            (final(self)@, r) == walk_advance(old(self)@, entry_frame_rule(entry)),
    {
        let frame = entry_frame(entry);
        self.advance(frame)
    }
}


/// Four tables read in a row, each entry mapping a frame, take the
/// translation through the level 4, 3, 2 and 1 tables, at the indices taken
/// from the address, to the page's frame plus the address's page offset.
pub proof fn lemma_walk_four_levels(addr: u64, phys_offset: u64, l4: u64, f3: u64, f2: u64, f1: u64, page: u64)
    requires
        is_canonical(addr),
        table_addr_valid(phys_offset, l4),
        table_addr_valid(phys_offset, f3),
        table_addr_valid(phys_offset, f2),
        table_addr_valid(phys_offset, f1),
    ensures
        ({
            let w0 = WalkState { addr, phys_offset, level: 0, frame: l4 };
            let (w1, s1) = walk_advance(w0, Ok(f3));
            let (w2, s2) = walk_advance(w1, Ok(f2));
            let (w3, s3) = walk_advance(w2, Ok(f1));
            let (w4, s4) = walk_advance(w3, Ok(page));
            &&& walk_request(w0) == (WalkStep::ReadEntry {
                table_addr: virt_canonical((phys_offset + l4) as u64),
                index: ((addr >> 39u64) % 512) as u16,
            })
            &&& s1 == (WalkStep::ReadEntry {
                table_addr: virt_canonical((phys_offset + f3) as u64),
                index: ((addr >> 30u64) % 512) as u16,
            })
            &&& s2 == (WalkStep::ReadEntry {
                table_addr: virt_canonical((phys_offset + f2) as u64),
                index: ((addr >> 21u64) % 512) as u16,
            })
            &&& s3 == (WalkStep::ReadEntry {
                table_addr: virt_canonical((phys_offset + f1) as u64),
                index: ((addr >> 12u64) % 512) as u16,
            })
            &&& s4 == WalkStep::Translated((page + addr % 4096) as u64)
        }),
{
}

/// A step of a walk for address `a1` seen from address `a2` in the same
/// page: only a translated address changes, by the difference of the page offsets.
pub open spec fn same_page_step(step: WalkStep, a1: u64, a2: u64) -> WalkStep {
    match step {
        WalkStep::Translated(p) => WalkStep::Translated((p - a1 % 4096 + a2 % 4096) as u64),
        _ => step,
    }
}

proof fn lemma_same_page_indices(a1: u64, a2: u64)
    requires
        a1 >> 12u64 == a2 >> 12u64,
    ensures
        forall|l: int| 0 <= l < 4 ==> #[trigger] table_index(a1, l) == table_index(a2, l),
{
    assert((a1 >> 39u64) % 512 == (a2 >> 39u64) % 512 && (a1 >> 30u64) % 512 == (a2 >> 30u64) % 512
        && (a1 >> 21u64) % 512 == (a2 >> 21u64) % 512 && (a1 >> 12u64) % 512 == (a2 >> 12u64) % 512) by (bit_vector)
        requires
            a1 >> 12u64 == a2 >> 12u64;
}

/// A translated address keeps the page offset of the address translated.
proof fn lemma_translated_offset(w: WalkState)
    requires
        w.wf(),
        w.level >= 4,
    ensures
        walk_request(w) matches WalkStep::Translated(p) ==> p % 4096 == w.addr % 4096,
{
    let o = w.addr % 4096;
    vstd::arithmetic::div_mod::lemma_fundamental_div_mod(w.frame as int, 4096);
    vstd::arithmetic::div_mod::lemma_mod_multiples_vanish(w.frame as int / 4096, o as int, 4096);
    vstd::arithmetic::div_mod::lemma_small_mod(o as nat, 4096);
    assert(4096 * (w.frame as int / 4096) + o == w.frame + o);
}

/// Two addresses in the same 4 KiB page take the same walk through the same
/// tables and entries; a translation of one gives that of the other by the
/// difference of their page offsets, and keeps the page offset.
pub proof fn lemma_walk_same_page(w: WalkState, a2: u64, entry: Result<u64, EntryError>)
    requires
        w.wf(),
        is_canonical(a2),
        w.addr >> 12u64 == a2 >> 12u64,
        entry matches Ok(f) ==> f % 4096 == 0 && f < PHYS_ADDR_LIMIT,
    ensures
        walk_request(WalkState { addr: a2, ..w }) == same_page_step(walk_request(w), w.addr, a2),
        walk_request(w) matches WalkStep::Translated(p) ==> p % 4096 == w.addr % 4096,
        w.level < 4 ==> {
            &&& walk_advance(WalkState { addr: a2, ..w }, entry).0 == (WalkState { addr: a2, ..walk_advance(w, entry).0 })
            &&& walk_advance(WalkState { addr: a2, ..w }, entry).1
                == same_page_step(walk_advance(w, entry).1, w.addr, a2)
        },
{
    lemma_same_page_indices(w.addr, a2);
    let w2 = WalkState { addr: a2, ..w };
    if w.level >= 4 {
        lemma_translated_offset(w);
        lemma_translated_offset(w2);
        assert(w.frame + w.addr % 4096 - w.addr % 4096 + a2 % 4096 == w.frame + a2 % 4096);
    }
    if w.level < 4 {
        if let Ok(f) = entry {
            let n = WalkState { level: w.level + 1, frame: f, ..w };
            let n2 = WalkState { addr: a2, ..n };
            if n.level >= 4 {
                lemma_translated_offset(n);
                lemma_translated_offset(n2);
            }
        }
    }
}

/// The state and the last step after the entries in `entries` were read in
/// turn, from state `w`; the walk stops at the first step that reads no entry.
pub open spec fn walk_run(w: WalkState, entries: Seq<Result<u64, EntryError>>) -> (WalkState, WalkStep)
    decreases entries.len(),
{
    if entries.len() == 0 {
        (w, walk_request(w))
    } else {
        let (w1, s1) = walk_run(w, entries.drop_last());
        if s1 is ReadEntry {
            walk_advance(w1, entries.last())
        } else {
            (w1, s1)
        }
    }
}

/// Entries that map frames map page aligned physical frames.
pub open spec fn entries_valid(entries: Seq<Result<u64, EntryError>>) -> bool {
    forall|i: int| 0 <= i < entries.len() ==>
        (#[trigger] entries[i] matches Ok(f) ==> f % 4096 == 0 && f < PHYS_ADDR_LIMIT)
}

/// Two addresses in the same 4 KiB page, walked over the same page tables,
/// read the same tables at the same indices and end alike: where one is
/// translated, the other is translated by the difference of their page
/// offsets, and a translation keeps the page offset of its address.
pub proof fn lemma_walk_run_same_page(w: WalkState, a2: u64, entries: Seq<Result<u64, EntryError>>)
    requires
        w.wf(),
        is_canonical(a2),
        w.addr >> 12u64 == a2 >> 12u64,
        entries_valid(entries),
    ensures
        walk_run(WalkState { addr: a2, ..w }, entries).0 == (WalkState { addr: a2, ..walk_run(w, entries).0 }),
        walk_run(WalkState { addr: a2, ..w }, entries).1 == same_page_step(walk_run(w, entries).1, w.addr, a2),
        walk_run(w, entries).0.wf(),
        walk_run(w, entries).0.addr == w.addr,
        walk_run(w, entries).1 is ReadEntry ==> walk_run(w, entries).0.level < 4,
        walk_run(w, entries).1 matches WalkStep::Translated(p) ==> p % 4096 == w.addr % 4096,
    decreases entries.len(),
{
    let w2 = WalkState { addr: a2, ..w };
    if entries.len() == 0 {
        lemma_walk_same_page(w, a2, Err(EntryError::FrameNotPresent));
    } else {
        let prefix = entries.drop_last();
        assert forall|i: int| 0 <= i < prefix.len() implies
            (#[trigger] prefix[i] matches Ok(f) ==> f % 4096 == 0 && f < PHYS_ADDR_LIMIT) by {
            assert(prefix[i] == entries[i]);
        }
        lemma_walk_run_same_page(w, a2, prefix);
        let (w1, s1) = walk_run(w, prefix);
        let e = entries.last();
        assert(e == entries[entries.len() - 1]);
        if s1 is ReadEntry {
            lemma_walk_same_page(w1, a2, e);
            let n = walk_advance(w1, e).0;
            if n.level >= 4 {
                lemma_walk_same_page(n, a2, e);
            }
        }
    }
}

/// The canonical form of a valid virtual address is canonical and no smaller.
proof fn lemma_canonical_of_valid(a: u64)
    requires
        virt_valid(a),
    ensures
        is_canonical(virt_canonical(a)),
        virt_canonical(a) >= a,
{
    let c = virt_canonical(a);
    if (a >> 47u64) == 1 {
        assert(c >> 47u64 == 0x1ffff && c | 0xffff_0000_0000_0000u64 == c && c >= a) by (bit_vector)
            requires
                a >> 47u64 == 1,
                c == a | 0xffff_0000_0000_0000u64;
    }
}

/// The heap's last byte: the canonical form of one below the canonical
/// address just after the heap.
pub open spec fn heap_last_byte(heap_start: u64, heap_size: u64) -> u64 {
    let end = virt_canonical((virt_canonical(heap_start) + heap_size) as u64);
    virt_canonical((end - 1) as u64)
}

/// The first and the last page of the heap `[heap_start, heap_start + heap_size)`,
/// taken as virtual addresses as `VirtAddr` does.
pub fn heap_page_bounds(heap_start: u64, heap_size: u64) -> (r: (u64, u64))
    requires
        heap_size >= 1,
        virt_valid(heap_start),
        virt_canonical(heap_start) + heap_size <= u64::MAX,
        virt_valid((virt_canonical(heap_start) + heap_size) as u64),
        virt_valid((virt_canonical((virt_canonical(heap_start) + heap_size) as u64) - 1) as u64),
    ensures
        r.0 == virt_canonical(heap_start) - virt_canonical(heap_start) % 4096,
        r.1 == heap_last_byte(heap_start, heap_size) - heap_last_byte(heap_start, heap_size) % 4096,
{
    let start = virt_addr_new(heap_start);
    proof { lemma_canonical_of_valid(heap_start); }
    let end_excl = virt_addr_add(start, heap_size);
    proof { lemma_canonical_of_valid((start + heap_size) as u64); }
    let end = virt_addr_sub(end_excl, 1);
    proof { lemma_canonical_of_valid((end_excl - 1) as u64); }
    let start_page = page_containing(start);
    let end_page = page_containing(end);
    (start_page, end_page)
}

/// The virtual addresses at which a page table mapped into its own last
/// entry shows the four tables on the way to an address.
#[derive(Debug, Clone, Copy, PartialEq, Eq, Structural)]
pub struct RecursiveTableAddrs {
    pub level_4: u64,
    pub level_3: u64,
    pub level_2: u64,
    pub level_1: u64,
}

/// The recursive index.
pub const RECURSIVE_INDEX: u64 = 0o777;

/// Bits 48 to 63 set, as sign extension of bit 47 of an address in the upper half.
pub const SIGN_EXTENSION: u64 = 0o177777 << 48;

/// The table addresses for `addr`: each level down replaces one recursive
/// index at the top by the next index of `addr`.
pub open spec fn spec_recursive_table_addrs(addr: u64) -> RecursiveTableAddrs {
    let r = RECURSIVE_INDEX;
    let l4 = (addr >> 39u64) & 0o777;
    let l3 = (addr >> 30u64) & 0o777;
    let l2 = (addr >> 21u64) & 0o777;
    RecursiveTableAddrs {
        level_4: SIGN_EXTENSION | (r << 39u64) | (r << 30u64) | (r << 21u64) | (r << 12u64),
        level_3: SIGN_EXTENSION | (r << 39u64) | (r << 30u64) | (r << 21u64) | (l4 << 12u64),
        level_2: SIGN_EXTENSION | (r << 39u64) | (r << 30u64) | (l4 << 21u64) | (l3 << 12u64),
        level_1: SIGN_EXTENSION | (r << 39u64) | (l4 << 30u64) | (l3 << 21u64) | (l2 << 12u64),
    }
}

/// The virtual addresses of the four tables on the way to `addr` under
/// recursive mapping through entry 511 of the level 4 table.
pub fn recursive_table_addrs(addr: u64) -> (r: RecursiveTableAddrs)
    ensures
        r == spec_recursive_table_addrs(addr),
{
    let r = RECURSIVE_INDEX;
    let sign = SIGN_EXTENSION;
    let l4_idx = (addr >> 39) & 0o777;
    let l3_idx = (addr >> 30) & 0o777;
    let l2_idx = (addr >> 21) & 0o777;
    RecursiveTableAddrs {
        level_4: sign | (r << 39) | (r << 30) | (r << 21) | (r << 12),
        level_3: sign | (r << 39) | (r << 30) | (r << 21) | (l4_idx << 12),
        level_2: sign | (r << 39) | (r << 30) | (l4_idx << 21) | (l3_idx << 12),
        level_1: sign | (r << 39) | (l4_idx << 30) | (l3_idx << 21) | (l2_idx << 12),
    }
}

/// Under recursive mapping, each table address is canonical and page
/// aligned, and the walk to it follows entry 511 as often as there are
/// levels above the table, then the indices of `addr` from the top: the
/// level 1 table of `addr` is reached through 511, then `addr`'s level 4,
/// 3 and 2 indices.
pub proof fn lemma_recursive_table_indices(addr: u64)
    ensures
        ({
            let t = spec_recursive_table_addrs(addr);
            &&& is_canonical(t.level_4) && t.level_4 % 4096 == 0
            &&& is_canonical(t.level_3) && t.level_3 % 4096 == 0
            &&& is_canonical(t.level_2) && t.level_2 % 4096 == 0
            &&& is_canonical(t.level_1) && t.level_1 % 4096 == 0
            &&& table_index(t.level_4, 0) == 511 && table_index(t.level_4, 1) == 511
            &&& table_index(t.level_4, 2) == 511 && table_index(t.level_4, 3) == 511
            &&& table_index(t.level_3, 0) == 511 && table_index(t.level_3, 1) == 511
            &&& table_index(t.level_3, 2) == 511 && table_index(t.level_3, 3) == table_index(addr, 0)
            &&& table_index(t.level_2, 0) == 511 && table_index(t.level_2, 1) == 511
            &&& table_index(t.level_2, 2) == table_index(addr, 0) && table_index(t.level_2, 3) == table_index(addr, 1)
            &&& table_index(t.level_1, 0) == 511 && table_index(t.level_1, 1) == table_index(addr, 0)
            &&& table_index(t.level_1, 2) == table_index(addr, 1) && table_index(t.level_1, 3) == table_index(addr, 2)
        }),
{
    let t = spec_recursive_table_addrs(addr);
    let s = SIGN_EXTENSION;
    let a4 = t.level_4;
    let a3 = t.level_3;
    let a2 = t.level_2;
    let a1 = t.level_1;
    assert(s == 0xffff_0000_0000_0000u64) by (bit_vector)
        requires s == 0o177777u64 << 48u64;
    assert(RECURSIVE_INDEX == 0o777u64);
    assert(a4 >> 47u64 == 0x1ffff && a4 % 4096 == 0 && (a4 >> 39u64) % 512 == 511 && (a4 >> 30u64) % 512 == 511
        && (a4 >> 21u64) % 512 == 511 && (a4 >> 12u64) % 512 == 511) by (bit_vector)
        requires
            a4 == 0xffff_0000_0000_0000u64 | (0o777u64 << 39u64) | (0o777u64 << 30u64) | (0o777u64 << 21u64) | (0o777u64 << 12u64);
    assert(a3 >> 47u64 == 0x1ffff && a3 % 4096 == 0 && (a3 >> 39u64) % 512 == 511 && (a3 >> 30u64) % 512 == 511
        && (a3 >> 21u64) % 512 == 511 && (a3 >> 12u64) % 512 == (addr >> 39u64) % 512) by (bit_vector)
        requires
            a3 == 0xffff_0000_0000_0000u64 | (0o777u64 << 39u64) | (0o777u64 << 30u64) | (0o777u64 << 21u64)
                | (((addr >> 39u64) & 0o777) << 12u64);
    assert(a2 >> 47u64 == 0x1ffff && a2 % 4096 == 0 && (a2 >> 39u64) % 512 == 511 && (a2 >> 30u64) % 512 == 511
        && (a2 >> 21u64) % 512 == (addr >> 39u64) % 512 && (a2 >> 12u64) % 512 == (addr >> 30u64) % 512) by (bit_vector)
        requires
            a2 == 0xffff_0000_0000_0000u64 | (0o777u64 << 39u64) | (0o777u64 << 30u64)
                | (((addr >> 39u64) & 0o777) << 21u64) | (((addr >> 30u64) & 0o777) << 12u64);
    assert(a1 >> 47u64 == 0x1ffff && a1 % 4096 == 0 && (a1 >> 39u64) % 512 == 511
        && (a1 >> 30u64) % 512 == (addr >> 39u64) % 512 && (a1 >> 21u64) % 512 == (addr >> 30u64) % 512
        && (a1 >> 12u64) % 512 == (addr >> 21u64) % 512) by (bit_vector)
        requires
            a1 == 0xffff_0000_0000_0000u64 | (0o777u64 << 39u64) | (((addr >> 39u64) & 0o777) << 30u64)
                | (((addr >> 30u64) & 0o777) << 21u64) | (((addr >> 21u64) & 0o777) << 12u64);
    assert(a4 | 0xffff_0000_0000_0000u64 == a4 && a3 | 0xffff_0000_0000_0000u64 == a3
        && a2 | 0xffff_0000_0000_0000u64 == a2 && a1 | 0xffff_0000_0000_0000u64 == a1) by (bit_vector)
        requires
            a4 >> 47u64 == 0x1ffff, a3 >> 47u64 == 0x1ffff, a2 >> 47u64 == 0x1ffff, a1 >> 47u64 == 0x1ffff;
}

} // verus!
