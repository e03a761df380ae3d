use vstd::prelude::*;
use crate::allocator::{Layout, align_up, spec_align_up, lemma_align_up_properties, lemma_power_of_two_pos};

verus! {

/// An allocator that hands out the heap from low to high addresses and takes
/// the whole heap back once every allocation has been freed.
pub struct BumpAllocator {
    heap_start: usize,
    heap_end: usize,
    next: usize,
    allocations: usize,
}

/// The state of a bump allocator as plain numbers.
pub struct BumpState {
    pub heap_start: int,
    pub heap_end: int,
    pub next: int,
    pub allocations: int,
}

impl View for BumpAllocator {
    type V = BumpState;

    closed spec fn view(&self) -> BumpState {
        BumpState {
            heap_start: self.heap_start as int,
            heap_end: self.heap_end as int,
            next: self.next as int,
            allocations: self.allocations as int,
        }
    }
}

/// The outcome of an allocation request on a bump allocator in state `s`:
/// the block starts at `next` rounded up to the alignment, and is handed out
/// when it fits below `heap_end`.
pub open spec fn bump_alloc(s: BumpState, size: int, align: int) -> (BumpState, Option<int>) {
    let start = spec_align_up(s.next, align);
    if start + size <= usize::MAX && start + size <= s.heap_end {
        (BumpState { next: start + size, allocations: s.allocations + 1, ..s }, Some(start))
    } else {
        (s, None)
    }
}

/// The state after one allocation is freed: once none is left, the whole heap
/// is free again.
pub open spec fn bump_dealloc(s: BumpState) -> BumpState {
    if s.allocations - 1 == 0 {
        BumpState { next: s.heap_start, allocations: 0, ..s }
    } else {
        BumpState { allocations: s.allocations - 1, ..s }
    }
}

impl BumpState {
    /// `next` lies within the heap.
    pub open spec fn wf(self) -> bool {
        &&& 0 <= self.heap_start <= self.next <= self.heap_end <= usize::MAX
        &&& 0 <= self.allocations <= usize::MAX
    }
}

impl BumpAllocator {
    /// An allocator with an empty heap.
    pub fn new() -> (r: BumpAllocator)
        ensures
            r@ == (BumpState { heap_start: 0, heap_end: 0, next: 0, allocations: 0 }),
            r@.wf(),
    {
        BumpAllocator { heap_start: 0, heap_end: 0, next: 0, allocations: 0 }
    }

    /// Hands the allocator the memory `[heap_start, heap_start + heap_size)`,
    /// which nothing else may use; called once.
    pub fn init(&mut self, heap_start: usize, heap_size: usize)
        requires
            heap_start + heap_size <= usize::MAX,
        ensures
            final(self)@ == (BumpState {
                heap_start: heap_start as int,
                heap_end: heap_start + heap_size,
                next: heap_start as int,
                allocations: old(self)@.allocations,
            }),
            final(self)@.wf(),
    {
        self.heap_start = heap_start;
        self.heap_end = heap_start + heap_size;
        self.next = heap_start;
    }

    /// The next free address.
    pub fn next(&self) -> (r: usize)
        ensures
            r == self@.next,
    {
        self.next
    }

    /// The number of allocations not yet freed.
    pub fn allocations(&self) -> (r: usize)
        ensures
            r == self@.allocations,
    {
        self.allocations
    }

    /// Whether a block for `layout` fits in the rest of the heap.
    pub fn fits(&self, layout: Layout) -> (r: bool)
        requires
            layout.is_valid(),
            self@.wf(),
            self@.next + layout.align - 1 <= usize::MAX,
        ensures
            r == bump_alloc(self@, layout.size as int, layout.align as int).1 is Some,
    {
        let alloc_start = align_up(self.next, layout.align);
        proof {
            lemma_power_of_two_pos(layout.align as int);
            lemma_align_up_properties(self.next as int, layout.align as int);
        }
        match alloc_start.checked_add(layout.size) {
            Some(end) => end <= self.heap_end,
            None => false,
        }
    }

    /// Allocates a block for `layout`; `None` where it does not fit in the heap.
    pub fn allocate(&mut self, layout: Layout) -> (r: Option<usize>)
        requires
            layout.is_valid(),
            old(self)@.wf(),
            old(self)@.next + layout.align - 1 <= usize::MAX,
            bump_alloc(old(self)@, layout.size as int, layout.align as int).1 is Some
                ==> old(self)@.allocations < usize::MAX,
        ensures
            final(self)@ == bump_alloc(old(self)@, layout.size as int, layout.align as int).0,
            r == (match bump_alloc(old(self)@, layout.size as int, layout.align as int).1 {
                Some(a) => Some(a as usize),
                None => None,
            }),
            final(self)@.wf(),
    {
        let alloc_start = align_up(self.next, layout.align);
        proof {
            lemma_power_of_two_pos(layout.align as int);
            lemma_align_up_properties(self.next as int, layout.align as int);
        }
        let alloc_end = match alloc_start.checked_add(layout.size) {
            Some(end) => end,
            None => return None,
        };
        if alloc_end > self.heap_end {
            None
        } else {
            self.next = alloc_end;
            self.allocations = self.allocations + 1;
            Some(alloc_start)
        }
    }

    /// Frees one allocation; the heap is reused once none is left.
    pub fn deallocate(&mut self)
        requires
            old(self)@.wf(),
            old(self)@.allocations > 0,
        ensures
            final(self)@ == bump_dealloc(old(self)@),
            final(self)@.wf(),
    {
        self.allocations = self.allocations - 1;
        if self.allocations == 0 {
            self.next = self.heap_start;
        }
    }
}


/// A block handed out by a bump allocator is aligned, lies between the old
/// `next` and the end of the heap, and `next` moves to its end.
pub proof fn lemma_bump_alloc_within_heap(s: BumpState, size: int, align: int)
    requires
        s.wf(),
        Layout::valid(size, align),
    ensures
        s.allocations < usize::MAX ==> bump_alloc(s, size, align).0.wf(),
        bump_alloc(s, size, align).1 matches Some(a) ==> {
            &&& a % align == 0
            &&& s.next <= a
            &&& a + size <= s.heap_end
            &&& bump_alloc(s, size, align).0.next == a + size
        },
{
    lemma_power_of_two_pos(align);
    lemma_align_up_properties(s.next, align);
}

/// Two allocations in a row do not overlap: the second block starts at or
/// after the end of the first.
pub proof fn lemma_bump_allocs_disjoint(s: BumpState, size1: int, align1: int, size2: int, align2: int)
    requires
        s.wf(),
        Layout::valid(size1, align1),
        Layout::valid(size2, align2),
        bump_alloc(s, size1, align1).1 is Some,
        bump_alloc(bump_alloc(s, size1, align1).0, size2, align2).1 is Some,
    ensures
        bump_alloc(s, size1, align1).1->0 + size1
            <= bump_alloc(bump_alloc(s, size1, align1).0, size2, align2).1->0,
{
    let a1 = bump_alloc(s, size1, align1).1->0;
    lemma_power_of_two_pos(align1);
    lemma_align_up_properties(s.next, align1);
    lemma_power_of_two_pos(align2);
    lemma_align_up_properties(a1 + size1, align2);
}

/// From a heap with nothing allocated, allocating a block and freeing it
/// brings the allocator back to where it was, so the same request gets the
/// same block again.
pub proof fn lemma_bump_alloc_free_restores(s: BumpState, size: int, align: int)
    requires
        s.wf(),
        s.allocations == 0,
        s.next == s.heap_start,
        Layout::valid(size, align),
        bump_alloc(s, size, align).1 is Some,
    ensures
        bump_dealloc(bump_alloc(s, size, align).0) == s,
        bump_alloc(bump_dealloc(bump_alloc(s, size, align).0), size, align) == bump_alloc(s, size, align),
{
}

/// Every block handed out counts as one more live allocation, and freeing
/// one of several live blocks leaves `next` where it was: the heap is taken
/// back only when the last live block is freed.
pub proof fn lemma_bump_alloc_counts(s: BumpState, size: int, align: int)
    requires
        s.wf(),
        Layout::valid(size, align),
        bump_alloc(s, size, align).1 is Some,
    ensures
        bump_alloc(s, size, align).0.allocations == s.allocations + 1,
        s.allocations > 0 ==> bump_dealloc(bump_alloc(s, size, align).0)
            == (BumpState { next: bump_alloc(s, size, align).0.next, ..s }),
        s.allocations > 0 ==> bump_dealloc(bump_alloc(s, size, align).0).next >= s.next + size,
{
    lemma_power_of_two_pos(align);
    lemma_align_up_properties(s.next, align);
}

/// Freeing the last outstanding allocation makes the whole heap free again:
/// the next request is served from the start of the heap.
pub proof fn lemma_bump_free_last_reuses_heap(s: BumpState, size: int, align: int)
    requires
        s.wf(),
        s.allocations == 1,
        Layout::valid(size, align),
    ensures
        bump_dealloc(s).next == s.heap_start,
        bump_dealloc(s).allocations == 0,
        bump_alloc(bump_dealloc(s), size, align).1 matches Some(a) ==> a == spec_align_up(s.heap_start, align),
{
}

} // verus!
