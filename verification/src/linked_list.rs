use vstd::prelude::*;
use vstd::arithmetic::power2::pow2;
use crate::allocator::{
    Layout, align_up, spec_align_up, lemma_align_up_properties, lemma_power_of_two_pos, lemma_align_up_aligned,
    is_power_of_two,
};

verus! {

/// Size in bytes of a free-list node (a size and a link, on x86_64).
pub const LIST_NODE_SIZE: usize = 16;

/// Alignment in bytes of a free-list node (on x86_64).
pub const LIST_NODE_ALIGN: usize = 8;

/// A free region of memory: `size` bytes starting at `start`.
#[derive(Clone, Copy, Debug, PartialEq, Eq, Structural)]
pub struct ListNode {
    pub start: usize,
    pub size: usize,
}

impl ListNode {
    /// A free region of `size` bytes at `start`.
    pub fn new(start: usize, size: usize) -> (r: ListNode)
        ensures
            r.start == start,
            r.size == size,
    {
        ListNode { start, size }
    }

    pub open spec fn end(self) -> int {
        self.start + self.size
    }

    /// The first address of the region.
    pub fn start_addr(&self) -> (r: usize)
        ensures
            r == self.start,
    {
        self.start
    }

    /// The first address after the region.
    pub fn end_addr(&self) -> (r: usize)
        requires
            self.end() <= usize::MAX,
        ensures
            r == self.end(),
    {
        self.start + self.size
    }

    /// A region that can hold a node of the free list.
    pub open spec fn wf(self) -> bool {
        &&& self.start % LIST_NODE_ALIGN == 0
        &&& self.size >= LIST_NODE_SIZE
        &&& self.end() <= usize::MAX
    }

    /// The set of addresses in the region.
    pub open spec fn addrs(self) -> Set<int> {
        Set::new(|x: int| self.start <= x < self.end())
    }
}

/// The start of a block of `size` bytes aligned to `align` carved out of the
/// front of `region`, or `None` where the block does not fit or would leave a
/// remainder too small to hold a free-list node.
pub open spec fn region_alloc_start(region: ListNode, size: int, align: int) -> Option<int> {
    let start = spec_align_up(region.start as int, align);
    let end = start + size;
    if end > usize::MAX {
        None
    } else if end > region.end() {
        None
    } else if region.end() - end > 0 && region.end() - end < LIST_NODE_SIZE {
        None
    } else {
        Some(start)
    }
}

/// Whether the free list `regions` holds a region that fits the request.
pub open spec fn any_fits(regions: Seq<ListNode>, size: int, align: int) -> bool {
    exists|i: int| 0 <= i < regions.len() && #[trigger] region_alloc_start(regions[i], size, align) is Some
}

/// The first region of the free list that fits the request.
pub open spec fn first_fit(regions: Seq<ListNode>, size: int, align: int) -> int {
    choose|i: int|
        0 <= i < regions.len() && region_alloc_start(regions[i], size, align) is Some
            && forall|j: int| 0 <= j < i ==> #[trigger] region_alloc_start(regions[j], size, align) is None
}

/// Size and alignment of the block that serves `layout`: the alignment is at
/// least that of a node, the size a multiple of the alignment and at least
/// the size of a node, so that the block can later hold a node when freed.
pub open spec fn spec_size_align(size: int, align: int) -> (int, int) {
    let a = if align < LIST_NODE_ALIGN { LIST_NODE_ALIGN as int } else { align };
    let s = spec_align_up(size, a);
    (if s < LIST_NODE_SIZE { LIST_NODE_SIZE as int } else { s }, a)
}

/// Every address covered by a region of the free list.
pub open spec fn free_addrs(regions: Seq<ListNode>) -> Set<int> {
    Set::new(|x: int| exists|i: int| 0 <= i < regions.len() && #[trigger] regions[i].addrs().contains(x))
}

/// The regions of the free list do not overlap.
pub open spec fn pairwise_disjoint(regions: Seq<ListNode>) -> bool {
    forall|i: int, j: int|
        0 <= i < regions.len() && 0 <= j < regions.len() && i != j
            ==> #[trigger] regions[i].end() <= #[trigger] regions[j].start || regions[j].end() <= regions[i].start
}

/// The free list and the result after a first-fit allocation of `layout`
/// from `regions`: the block is cut from the front of the first region that
/// fits, and what is left of that region after the block goes back to the
/// front of the list.
#[verifier::opaque]
pub open spec fn first_fit_alloc(regions: Seq<ListNode>, size: int, align: int) -> (Seq<ListNode>, Option<int>) {
    let (s, a) = spec_size_align(size, align);
    if any_fits(regions, s, a) {
        let i = first_fit(regions, s, a);
        let region = regions[i];
        let start = region_alloc_start(region, s, a)->0;
        let end = start + s;
        let rest = regions.remove(i);
        if region.end() - end > 0 {
            (seq![ListNode { start: end as usize, size: (region.end() - end) as usize }] + rest, Some(start))
        } else {
            (rest, Some(start))
        }
    } else {
        (regions, None)
    }
}

/// A first-fit search for a block of `size` bytes aligned to `align` never
/// rounds a start up past the address space: every region it looks at,
/// which is every region up to the first that fits, has room to round up.
pub open spec fn scan_can_align(regions: Seq<ListNode>, size: int, align: int) -> bool {
    forall|i: int| #![trigger regions[i]]
        0 <= i < regions.len()
            && (forall|j: int| 0 <= j < i ==> #[trigger] region_alloc_start(regions[j], size, align) is None)
            ==> regions[i].start + align - 1 <= usize::MAX
}

/// An allocator that keeps its free memory as a list of regions and serves a
/// request from the first region that fits.
pub struct LinkedListAllocator {
    regions: Vec<ListNode>,
}

impl View for LinkedListAllocator {
    type V = Seq<ListNode>;

    closed spec fn view(&self) -> Seq<ListNode> {
        self.regions@
    }
}

impl LinkedListAllocator {
    /// Every free region can hold a node.
    pub open spec fn wf(&self) -> bool {
        forall|i: int| 0 <= i < self@.len() ==> #[trigger] self@[i].wf()
    }

    /// An allocator with no free memory.
    pub fn new() -> (r: LinkedListAllocator)
        ensures
            r@ == Seq::<ListNode>::empty(),
            r.wf(),
    {
        LinkedListAllocator { regions: Vec::new() }
    }

    /// Hands the allocator the memory `[heap_start, heap_start + heap_size)`.
    pub fn init(&mut self, heap_start: usize, heap_size: usize)
        requires
            old(self).wf(),
            heap_start % LIST_NODE_ALIGN == 0,
            heap_size >= LIST_NODE_SIZE,
            heap_start + heap_size <= usize::MAX,
        ensures
            final(self)@ == seq![ListNode { start: heap_start, size: heap_size }] + old(self)@,
            final(self).wf(),
    {
        self.add_free_region(heap_start, heap_size);
    }

    /// Puts the region `[addr, addr + size)` at the front of the free list.
    pub fn add_free_region(&mut self, addr: usize, size: usize)
        requires
            old(self).wf(),
            addr % LIST_NODE_ALIGN == 0,
            size >= LIST_NODE_SIZE,
            addr + size <= usize::MAX,
        ensures
            final(self)@ == seq![ListNode { start: addr, size }] + old(self)@,
            final(self).wf(),
    {
        proof {
            vstd::arithmetic::power2::lemma2_to64();
            lemma_align_up_properties(addr as int, LIST_NODE_ALIGN as int);
        }
        let node = ListNode::new(addr, size);
        self.regions.insert(0, node);
        proof {
            assert(self@ =~= seq![ListNode { start: addr, size }] + old(self)@);
        }
    }

    /// Size and alignment of the block that serves `layout`.
    pub fn size_align(layout: Layout) -> (r: (usize, usize))
        requires
            layout.is_valid(),
            Layout::valid(layout.size as int, spec_size_align(layout.size as int, layout.align as int).1),
        ensures
            r.0 as int == spec_size_align(layout.size as int, layout.align as int).0,
            r.1 as int == spec_size_align(layout.size as int, layout.align as int).1,
            is_power_of_two(r.1 as int),
            r.1 >= LIST_NODE_ALIGN,
            r.0 >= LIST_NODE_SIZE,
            r.0 % LIST_NODE_ALIGN == 0,
    {
        let align = if layout.align < LIST_NODE_ALIGN { LIST_NODE_ALIGN } else { layout.align };
        proof {
            vstd::arithmetic::power2::lemma2_to64();
            if layout.align < LIST_NODE_ALIGN {
                assert(is_power_of_two(8)) by { assert(8 == pow2(3)); }
            }
            lemma_power_of_two_pos(align as int);
            lemma_align_up_properties(layout.size as int, align as int);
            lemma_node_align_divides(align as int);
        }
        let size = align_up(layout.size, align);
        proof {
            lemma_multiple_of_node_align(size as int, align as int);
        }
        let size = if size < LIST_NODE_SIZE { LIST_NODE_SIZE } else { size };
        (size, align)
    }

    /// Allocates a block for `layout` from the first free region that fits;
    /// `None` where no region fits.
    pub fn allocate_first_fit(&mut self, layout: Layout) -> (r: Option<usize>)
        requires
            old(self).wf(),
            layout.is_valid(),
            Layout::valid(layout.size as int, spec_size_align(layout.size as int, layout.align as int).1),
            scan_can_align(
                old(self)@,
                spec_size_align(layout.size as int, layout.align as int).0,
                spec_size_align(layout.size as int, layout.align as int).1,
            ),
        ensures
            final(self).wf(),
            final(self)@ == first_fit_alloc(old(self)@, layout.size as int, layout.align as int).0,
            r == (match first_fit_alloc(old(self)@, layout.size as int, layout.align as int).1 {
                Some(a) => Some(a as usize),
                None => None,
            }),
    {
        let (size, align) = Self::size_align(layout);
        let ghost regions = self@;
        let ghost (ss, aa) = spec_size_align(layout.size as int, layout.align as int);
        assert(ss == size && aa == align);
        match self.find_region(size, align) {
            Some((region, alloc_start)) => {
                let ghost i = first_fit(regions, size as int, align as int);
                proof { lemma_first_fit(regions, size as int, align as int); }
                assert(region.wf()) by { assert(region == regions[i]); }
                let alloc_end = alloc_start + size;
                let excess_size = region.end_addr() - alloc_end;
                if excess_size > 0 {
                    proof {
                        lemma_power_of_two_pos(align as int);
                        lemma_align_up_properties(region.start as int, align as int);
                        lemma_node_align_divides(align as int);
                        lemma_multiple_of_node_align(alloc_start as int, align as int);
                        vstd::arithmetic::div_mod::lemma_add_mod_noop(alloc_start as int, size as int, 8);
                    }
                    self.add_free_region(alloc_end, excess_size);
                }
                proof {
                    reveal(first_fit_alloc);
                }
                Some(alloc_start)
            },
            None => {
                proof {
                    reveal(first_fit_alloc);
                }
                None
            },
        }
    }

    /// Whether a first-fit search for a block of `size` bytes aligned to
    /// `align` can round up every start it looks at.
    pub fn scan_can_align(&self, size: usize, align: usize) -> (r: bool)
        requires
            self.wf(),
            is_power_of_two(align as int),
        ensures
            r == scan_can_align(self@, size as int, align as int),
    {
        let mut i: usize = 0;
        while i < self.regions.len()
            invariant
                self.wf(),
                is_power_of_two(align as int),
                i <= self@.len(),
                forall|j: int| 0 <= j < i ==> #[trigger] region_alloc_start(self@[j], size as int, align as int) is None,
                forall|j: int| #![trigger self@[j]] 0 <= j < i ==> self@[j].start + align - 1 <= usize::MAX,
            decreases self@.len() - i,
        {
            proof { lemma_power_of_two_pos(align as int); }
            if self.regions[i].start > usize::MAX - (align - 1) {
                return false;
            }
            let region = self.regions[i];
            proof { assert(self@[i as int].wf()); }
            match Self::alloc_from_region(&region, size, align) {
                Ok(_) => {
                    proof {
                        assert forall|k: int| #![trigger self@[k]]
                            0 <= k < self@.len()
                                && (forall|j: int| 0 <= j < k ==> #[trigger] region_alloc_start(self@[j], size as int, align as int) is None)
                            implies self@[k].start + align - 1 <= usize::MAX by {
                            if k > i {
                                assert(region_alloc_start(self@[i as int], size as int, align as int) is None);
                            }
                        }
                    }
                    return true;
                },
                Err(()) => {},
            }
            i = i + 1;
        }
        true
    }

    /// Returns the block at `addr` allocated for `layout` to the free list.
    pub fn deallocate(&mut self, addr: usize, layout: Layout)
        requires
            old(self).wf(),
            layout.is_valid(),
            Layout::valid(layout.size as int, spec_size_align(layout.size as int, layout.align as int).1),
            addr % LIST_NODE_ALIGN == 0,
            addr + spec_size_align(layout.size as int, layout.align as int).0 <= usize::MAX,
        ensures
            final(self).wf(),
            final(self)@ == seq![ListNode {
                start: addr,
                size: spec_size_align(layout.size as int, layout.align as int).0 as usize,
            }] + old(self)@,
    {
        let (size, _) = Self::size_align(layout);
        self.add_free_region(addr, size);
    }

    /// The start of a block of `size` bytes aligned to `align` at the front of
    /// `region`; `Err` where it does not fit or leaves a remainder too small
    /// for a node.
    pub fn alloc_from_region(region: &ListNode, size: usize, align: usize) -> (r: Result<usize, ()>)
        requires
            is_power_of_two(align as int),
            region.start + align - 1 <= usize::MAX,
            region.end() <= usize::MAX,
        ensures
            r matches Ok(a) ==> region_alloc_start(*region, size as int, align as int) == Some(a as int),
            r is Err ==> region_alloc_start(*region, size as int, align as int) is None,
    {
        let alloc_start = align_up(region.start_addr(), align);
        let alloc_end = match alloc_start.checked_add(size) {
            Some(end) => end,
            None => return Err(()),
        };
        if alloc_end > region.end_addr() {
            return Err(());
        }
        let excess_size = region.end_addr() - alloc_end;
        if excess_size > 0 && excess_size < LIST_NODE_SIZE {
            return Err(());
        }
        Ok(alloc_start)
    }

    /// Removes from the free list the first region that fits a block of
    /// `size` bytes aligned to `align`, and returns it with the block's start.
    pub fn find_region(&mut self, size: usize, align: usize) -> (r: Option<(ListNode, usize)>)
        requires
            old(self).wf(),
            is_power_of_two(align as int),
            scan_can_align(old(self)@, size as int, align as int),
        ensures
            final(self).wf(),
            r is Some <==> any_fits(old(self)@, size as int, align as int),
            r matches Some((region, start)) ==> {
                let i = first_fit(old(self)@, size as int, align as int);
                &&& region == old(self)@[i]
                &&& region_alloc_start(region, size as int, align as int) == Some(start as int)
                &&& final(self)@ == old(self)@.remove(i)
            },
            r is None ==> final(self)@ == old(self)@,
    {
        let mut i: usize = 0;
        while i < self.regions.len()
            invariant
                self.wf(),
                self@ == old(self)@,
                is_power_of_two(align as int),
                scan_can_align(self@, size as int, align as int),
                i <= self@.len(),
                forall|j: int| 0 <= j < i ==> #[trigger] region_alloc_start(self@[j], size as int, align as int) is None,
            decreases self@.len() - i,
        {
            let region = self.regions[i];
            proof { assert(self@[i as int].wf()); }
            match Self::alloc_from_region(&region, size, align) {
                Ok(alloc_start) => {
                    let ghost regions = self@;
                    proof {
                        assert(0 <= i < regions.len() && region_alloc_start(regions[i as int], size as int, align as int) is Some
                            && forall|j: int| 0 <= j < i ==> #[trigger] region_alloc_start(regions[j], size as int, align as int) is None);
                        lemma_first_fit_unique(regions, size as int, align as int, i as int);
                    }
                    let removed = self.regions.remove(i);
                    proof {
                        assert forall|k: int| 0 <= k < self@.len() implies #[trigger] self@[k].wf() by {
                            if k < i { assert(self@[k] == regions[k]); } else { assert(self@[k] == regions[k + 1]); }
                        }
                    }
                    return Some((removed, alloc_start));
                },
                Err(()) => {},
            }
            i = i + 1;
        }
        None
    }
}

/// A region has room for a block of `size` bytes aligned to `align`: placed
/// at the region's start rounded up to the alignment, however far that is,
/// the block ends within the region and leaves nothing or room for a node.
pub open spec fn has_room(region: ListNode, size: int, align: int) -> bool {
    let start = spec_align_up(region.start as int, align);
    &&& start + size <= region.end()
    &&& (region.end() - (start + size) == 0 || region.end() - (start + size) >= LIST_NODE_SIZE)
}

/// A region hands out a block exactly when it has room for it, and then the
/// block starts at the region's start rounded up to the alignment: an
/// aligned address in the region, whatever the padding before it.
pub proof fn lemma_region_alloc_iff_room(region: ListNode, size: int, align: int)
    requires
        region.end() <= usize::MAX,
        align > 0,
        size >= 0,
    ensures
        region_alloc_start(region, size, align) is Some <==> has_room(region, size, align),
        region_alloc_start(region, size, align) matches Some(a) ==> {
            &&& a == spec_align_up(region.start as int, align)
            &&& a % align == 0
            &&& region.start <= a
            &&& a + size <= region.end()
        },
{
    lemma_align_up_properties(region.start as int, align);
}

/// A first-fit allocation fails only where no free region has room for the
/// block that serves the request; where it succeeds, the block starts at
/// the rounded-up start of the first region with room.
pub proof fn lemma_first_fit_fails_only_without_room(regions: Seq<ListNode>, size: int, align: int)
    requires
        forall|i: int| 0 <= i < regions.len() ==> #[trigger] regions[i].wf(),
        Layout::valid(size, align),
    ensures
        ({
            let (s, a2) = spec_size_align(size, align);
            &&& first_fit_alloc(regions, size, align).1 is None
                <==> forall|k: int| 0 <= k < regions.len() ==> !#[trigger] has_room(regions[k], s, a2)
            &&& first_fit_alloc(regions, size, align).1 matches Some(a) ==> exists|k: int|
                0 <= k < regions.len() && #[trigger] has_room(regions[k], s, a2)
                    && a == spec_align_up(regions[k].start as int, a2)
                    && forall|j: int| 0 <= j < k ==> !#[trigger] has_room(regions[j], s, a2)
        }),
{
    reveal(first_fit_alloc);
    let (s, a2) = spec_size_align(size, align);
    lemma_power_of_two_pos(align);
    lemma_align_up_properties(size, a2);
    assert forall|k: int| 0 <= k < regions.len() implies
        (region_alloc_start(regions[k], s, a2) is Some <==> #[trigger] has_room(regions[k], s, a2)) by {
        assert(regions[k].wf());
        lemma_region_alloc_iff_room(regions[k], s, a2);
    }
    if any_fits(regions, s, a2) {
        lemma_first_fit(regions, s, a2);
        let i = first_fit(regions, s, a2);
        assert(regions[i].wf());
        lemma_region_alloc_iff_room(regions[i], s, a2);
        assert(has_room(regions[i], s, a2));
        assert forall|j: int| 0 <= j < i implies !#[trigger] has_room(regions[j], s, a2) by {
            assert(region_alloc_start(regions[j], s, a2) is None);
        }
    } else {
        assert forall|k: int| 0 <= k < regions.len() implies !#[trigger] has_room(regions[k], s, a2) by {
            if has_room(regions[k], s, a2) {
                assert(region_alloc_start(regions[k], s, a2) is Some);
            }
        }
    }
}

/// A smaller power of two divides a larger one.
pub proof fn lemma_power_of_two_divides(small: int, large: int)
    requires
        is_power_of_two(small),
        is_power_of_two(large),
        small <= large,
    ensures
        large % small == 0,
{
    let k1 = choose|k: nat| k < 64 && small == pow2(k);
    let k2 = choose|k: nat| k < 64 && large == pow2(k);
    if k1 > k2 {
        vstd::arithmetic::power2::lemma_pow2_strictly_increases(k2, k1);
    }
    let d = (k2 - k1) as nat;
    vstd::arithmetic::power2::lemma_pow2_adds(k1, d);
    assert(k1 + d == k2);
    vstd::arithmetic::power2::lemma_pow2_pos(k1);
    vstd::arithmetic::div_mod::lemma_mod_multiples_basic(pow2(d) as int, small);
    assert(pow2(k1) * pow2(d) == pow2(d) * pow2(k1)) by (nonlinear_arith);
}

/// The free list after the block that ends at `end` is cut from the front of
/// region `i`: what is left of the region goes to the front.
pub open spec fn cut_region(regions: Seq<ListNode>, i: int, end: int) -> Seq<ListNode> {
    let region = regions[i];
    let rest = regions.remove(i);
    if region.end() - end > 0 {
        seq![ListNode { start: end as usize, size: (region.end() - end) as usize }] + rest
    } else {
        rest
    }
}

/// Where entry `j` of `cut_region(regions, i, end)` other than the remainder
/// came from.
spec fn cut_origin(regions: Seq<ListNode>, i: int, end: int, j: int) -> int {
    if regions[i].end() - end > 0 {
        if j - 1 < i { j - 1 } else { j }
    } else {
        if j < i { j } else { j + 1 }
    }
}

proof fn lemma_cut_region_entries(regions: Seq<ListNode>, i: int, end: int, j: int)
    requires
        0 <= i < regions.len(),
        regions[i].end() <= usize::MAX,
        0 <= regions[i].start,
        regions[i].start <= end <= regions[i].end(),
        0 <= j < cut_region(regions, i, end).len(),
    ensures
        cut_region(regions, i, end).len() <= regions.len(),
        regions[i].end() - end > 0 && j == 0 ==> {
            &&& cut_region(regions, i, end)[j].start == end
            &&& cut_region(regions, i, end)[j].end() == regions[i].end()
        },
        !(regions[i].end() - end > 0 && j == 0) ==> {
            &&& 0 <= cut_origin(regions, i, end, j) < regions.len()
            &&& cut_origin(regions, i, end, j) != i
            &&& cut_region(regions, i, end)[j] == regions[cut_origin(regions, i, end, j)]
        },
{
}

proof fn lemma_cut_region_addrs(regions: Seq<ListNode>, i: int, end: int)
    requires
        0 <= i < regions.len(),
        regions[i].end() <= usize::MAX,
        regions[i].start <= end <= regions[i].end(),
        pairwise_disjoint(regions),
    ensures
        free_addrs(cut_region(regions, i, end)).subset_of(free_addrs(regions)),
        forall|x: int| regions[i].start <= x < end ==> #[trigger] free_addrs(regions).contains(x)
            && !free_addrs(cut_region(regions, i, end)).contains(x),
{
    let new_regions = cut_region(regions, i, end);
    assert forall|x: int| free_addrs(new_regions).contains(x) implies #[trigger] free_addrs(regions).contains(x) by {
        let j = choose|j: int| 0 <= j < new_regions.len() && #[trigger] new_regions[j].addrs().contains(x);
        lemma_cut_region_entries(regions, i, end, j);
        if regions[i].end() - end > 0 && j == 0 {
            assert(regions[i].addrs().contains(x));
        } else {
            assert(regions[cut_origin(regions, i, end, j)].addrs().contains(x));
        }
    }
    assert forall|x: int| regions[i].start <= x < end implies #[trigger] free_addrs(regions).contains(x)
        && !free_addrs(new_regions).contains(x) by {
        assert(regions[i].addrs().contains(x));
        if free_addrs(new_regions).contains(x) {
            let j = choose|j: int| 0 <= j < new_regions.len() && #[trigger] new_regions[j].addrs().contains(x);
            lemma_cut_region_entries(regions, i, end, j);
            if !(regions[i].end() - end > 0 && j == 0) {
                let k = cut_origin(regions, i, end, j);
                assert(regions[k].end() <= regions[i].start || regions[i].end() <= regions[k].start);
            }
        }
    }
}

proof fn lemma_cut_region_disjoint(regions: Seq<ListNode>, i: int, end: int)
    requires
        0 <= i < regions.len(),
        regions[i].start <= end <= regions[i].end(),
        pairwise_disjoint(regions),
        forall|k: int| 0 <= k < regions.len() ==> #[trigger] regions[k].wf(),
        regions[i].end() - end > 0 ==> end % (LIST_NODE_ALIGN as int) == 0
            && regions[i].end() - end >= LIST_NODE_SIZE,
    ensures
        pairwise_disjoint(cut_region(regions, i, end)),
        forall|j: int| 0 <= j < cut_region(regions, i, end).len() ==> #[trigger] cut_region(regions, i, end)[j].wf(),
{
    let new_regions = cut_region(regions, i, end);
    let has_tail = regions[i].end() - end > 0;
    assert(regions[i].wf());
    assert forall|j: int| 0 <= j < new_regions.len() implies #[trigger] new_regions[j].wf() by {
        lemma_cut_region_entries(regions, i, end, j);
        if !(has_tail && j == 0) {
            assert(regions[cut_origin(regions, i, end, j)].wf());
        }
    }
    assert forall|j1: int, j2: int|
        0 <= j1 < new_regions.len() && 0 <= j2 < new_regions.len() && j1 != j2
        implies #[trigger] new_regions[j1].end() <= #[trigger] new_regions[j2].start
            || new_regions[j2].end() <= new_regions[j1].start by {
        lemma_cut_region_entries(regions, i, end, j1);
        lemma_cut_region_entries(regions, i, end, j2);
        let k1 = cut_origin(regions, i, end, j1);
        let k2 = cut_origin(regions, i, end, j2);
        if has_tail && j1 == 0 {
            assert(regions[k2].end() <= regions[i].start || regions[i].end() <= regions[k2].start);
        } else if has_tail && j2 == 0 {
            assert(regions[k1].end() <= regions[i].start || regions[i].end() <= regions[k1].start);
        } else {
            assert(k1 != k2);
            assert(regions[k1].end() <= regions[k2].start || regions[k2].end() <= regions[k1].start);
        }
    }
}

/// Where a region fits, first-fit allocation cuts the block from the front
/// of the first such region.
proof fn lemma_first_fit_alloc_cuts(regions: Seq<ListNode>, size: int, align: int)
    requires
        any_fits(regions, spec_size_align(size, align).0, spec_size_align(size, align).1),
    ensures
        ({
            let (s, a2) = spec_size_align(size, align);
            let i = first_fit(regions, s, a2);
            let start = spec_align_up(regions[i].start as int, a2);
            &&& region_alloc_start(regions[i], s, a2) == Some(start)
            &&& first_fit_alloc(regions, size, align) == (cut_region(regions, i, start + s), Some(start))
        }),
{
    reveal(first_fit_alloc);
    let (s, a2) = spec_size_align(size, align);
    lemma_first_fit(regions, s, a2);
}

/// The block's start is aligned as requested, and its end to a node.
proof fn lemma_block_alignment(start: int, s: int, size: int, align: int)
    requires
        Layout::valid(size, align),
        Layout::valid(size, spec_size_align(size, align).1),
        s == spec_size_align(size, align).0,
        start >= 0,
        start % spec_size_align(size, align).1 == 0,
    ensures
        start % align == 0,
        (start + s) % (LIST_NODE_ALIGN as int) == 0,
        s >= size,
{
    let a2 = spec_size_align(size, align).1;
    lemma_power_of_two_pos(align);
    lemma_align_up_properties(size, a2);
    if align < LIST_NODE_ALIGN {
        vstd::arithmetic::power2::lemma2_to64();
        assert(is_power_of_two(8)) by { assert(8 == pow2(3)); }
    }
    lemma_power_of_two_pos(a2);
    lemma_power_of_two_divides(align, a2);
    lemma_multiple_of(start, a2, align);
    lemma_node_align_divides(a2);
    lemma_multiple_of(start, a2, 8);
    if s != LIST_NODE_SIZE {
        lemma_multiple_of(s, a2, 8);
    }
    vstd::arithmetic::div_mod::lemma_add_mod_noop(start, s, 8);
}

/// Handing out memory keeps the books: the block lies in free memory, is
/// aligned as requested and no smaller than requested, none of it stays
/// free, no address becomes free, and the free regions still do not overlap.
pub proof fn lemma_first_fit_alloc_safe(regions: Seq<ListNode>, size: int, align: int)
    requires
        forall|i: int| 0 <= i < regions.len() ==> #[trigger] regions[i].wf(),
        pairwise_disjoint(regions),
        Layout::valid(size, align),
        Layout::valid(size, spec_size_align(size, align).1),
    ensures
        ({
            let (new_regions, r) = first_fit_alloc(regions, size, align);
            let block = spec_size_align(size, align).0;
            &&& r is None ==> new_regions == regions
            &&& r matches Some(a) ==> {
                &&& a % align == 0
                &&& block >= size
                &&& forall|x: int| a <= x < a + block ==> #[trigger] free_addrs(regions).contains(x)
                        && !free_addrs(new_regions).contains(x)
                &&& free_addrs(new_regions).subset_of(free_addrs(regions))
                &&& pairwise_disjoint(new_regions)
                &&& forall|i: int| 0 <= i < new_regions.len() ==> #[trigger] new_regions[i].wf()
            }
        }),
{
    let s = spec_size_align(size, align).0;
    let a2 = spec_size_align(size, align).1;
    if any_fits(regions, s, a2) {
        lemma_first_fit(regions, s, a2);
        lemma_first_fit_alloc_cuts(regions, size, align);
        let i = first_fit(regions, s, a2);
        let region = regions[i];
        assert(region.wf());
        lemma_power_of_two_pos(align);
        lemma_align_up_properties(size, a2);
        lemma_power_of_two_pos(a2);
        lemma_align_up_properties(region.start as int, a2);
        let start = spec_align_up(region.start as int, a2);
        lemma_block_alignment(start, s, size, align);
        lemma_cut_region_addrs(regions, i, start + s);
        lemma_cut_region_disjoint(regions, i, start + s);
    } else {
        reveal(first_fit_alloc);
    }
}

/// A freed block is handed out again by the next request of the same layout:
/// it sits at the front of the free list, fits exactly, and taking it
/// restores the free list as it was before the block was freed.
pub proof fn lemma_dealloc_then_alloc_reuses(regions: Seq<ListNode>, addr: int, size: int, align: int)
    requires
        Layout::valid(size, align),
        Layout::valid(size, spec_size_align(size, align).1),
        0 <= addr,
        addr % spec_size_align(size, align).1 == 0,
        addr + spec_size_align(size, align).0 <= usize::MAX,
    ensures
        first_fit_alloc(
            seq![ListNode { start: addr as usize, size: spec_size_align(size, align).0 as usize }] + regions,
            size,
            align,
        ) == (regions, Some(addr)),
{
    reveal(first_fit_alloc);
    let (s, a2) = spec_size_align(size, align);
    lemma_power_of_two_pos(align);
    lemma_align_up_properties(size, a2);
    lemma_power_of_two_pos(a2);
    let node = ListNode { start: addr as usize, size: s as usize };
    let list = seq![node] + regions;
    lemma_align_up_aligned(addr, a2);
    assert(list[0] == node);
    assert(region_alloc_start(list[0], s, a2) == Some(addr));
    lemma_first_fit_unique(list, s, a2, 0);
    assert(list.remove(0) =~= regions);
}

/// A multiple of `a` is a multiple of every divisor of `a`.
proof fn lemma_multiple_of(x: int, a: int, d: int)
    requires
        a > 0,
        d > 0,
        a % d == 0,
        x % a == 0,
    ensures
        x % d == 0,
{
    vstd::arithmetic::div_mod::lemma_fundamental_div_mod(x, a);
    vstd::arithmetic::div_mod::lemma_fundamental_div_mod(a, d);
    let q = x / a;
    let r = a / d;
    assert(x == d * (r * q)) by (nonlinear_arith)
        requires x == a * q, a == d * r;
    vstd::arithmetic::div_mod::lemma_mod_multiples_basic(r * q, d);
    assert((r * q) * d == d * (r * q)) by (nonlinear_arith);
}

/// A power of two of at least the node alignment is a multiple of it.
proof fn lemma_node_align_divides(a: int)
    requires
        is_power_of_two(a),
        a >= LIST_NODE_ALIGN,
    ensures
        a % (LIST_NODE_ALIGN as int) == 0,
{
    let k = choose|k: nat| k < 64 && a == pow2(k);
    vstd::arithmetic::power2::lemma2_to64();
    if k < 3 {
        vstd::arithmetic::power2::lemma_pow2_strictly_increases(k, 3);
    } else {
        vstd::arithmetic::power2::lemma_pow2_adds(3, (k - 3) as nat);
        vstd::arithmetic::div_mod::lemma_mod_multiples_basic(pow2((k - 3) as nat) as int, 8);
        assert(pow2((k - 3) as nat) * 8 == 8 * pow2((k - 3) as nat)) by (nonlinear_arith);
    }
}

/// A multiple of a multiple of the node alignment is a multiple of it.
proof fn lemma_multiple_of_node_align(x: int, a: int)
    requires
        a > 0,
        a % (LIST_NODE_ALIGN as int) == 0,
        x % a == 0,
    ensures
        x % (LIST_NODE_ALIGN as int) == 0,
{
    vstd::arithmetic::div_mod::lemma_fundamental_div_mod(x, a);
    vstd::arithmetic::div_mod::lemma_fundamental_div_mod(a, 8);
    let q = x / a;
    let r = a / 8;
    assert(x == 8 * (r * q)) by (nonlinear_arith)
        requires x == a * q, a == 8 * r;
    vstd::arithmetic::div_mod::lemma_mod_multiples_basic(r * q, 8);
    assert((r * q) * 8 == 8 * (r * q)) by (nonlinear_arith);
}

/// Where some region fits, a first one does.
pub proof fn lemma_first_fit(regions: Seq<ListNode>, size: int, align: int)
    requires
        any_fits(regions, size, align),
    ensures
        0 <= first_fit(regions, size, align) < regions.len(),
        region_alloc_start(regions[first_fit(regions, size, align)], size, align) is Some,
        forall|j: int| 0 <= j < first_fit(regions, size, align) ==> #[trigger] region_alloc_start(regions[j], size, align) is None,
{
    let w = choose|i: int| 0 <= i < regions.len() && #[trigger] region_alloc_start(regions[i], size, align) is Some;
    lemma_minimal_fit(regions, size, align, w);
}

proof fn lemma_minimal_fit(regions: Seq<ListNode>, size: int, align: int, w: int)
    requires
        0 <= w < regions.len(),
        region_alloc_start(regions[w], size, align) is Some,
    ensures
        exists|i: int| 0 <= i < regions.len() && region_alloc_start(regions[i], size, align) is Some
            && forall|j: int| 0 <= j < i ==> #[trigger] region_alloc_start(regions[j], size, align) is None,
    decreases w,
{
    if exists|j: int| 0 <= j < w && #[trigger] region_alloc_start(regions[j], size, align) is Some {
        let j = choose|j: int| 0 <= j < w && #[trigger] region_alloc_start(regions[j], size, align) is Some;
        lemma_minimal_fit(regions, size, align, j);
    } else {
        assert(forall|j: int| 0 <= j < w ==> #[trigger] region_alloc_start(regions[j], size, align) is None);
    }
}

/// The first fitting region is the only one with no fitting region before it.
proof fn lemma_first_fit_unique(regions: Seq<ListNode>, size: int, align: int, i: int)
    requires
        0 <= i < regions.len(),
        region_alloc_start(regions[i], size, align) is Some,
        forall|j: int| 0 <= j < i ==> #[trigger] region_alloc_start(regions[j], size, align) is None,
    ensures
        first_fit(regions, size, align) == i,
        any_fits(regions, size, align),
{
    let f = first_fit(regions, size, align);
    assert(f < i ==> region_alloc_start(regions[f], size, align) is None);
    assert(f > i ==> region_alloc_start(regions[i], size, align) is None);
}

} // verus!
