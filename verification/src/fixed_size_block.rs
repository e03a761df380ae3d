use vstd::prelude::*;
use crate::allocator::{Layout, is_power_of_two};
use crate::linked_list::{
    LinkedListAllocator, ListNode, first_fit_alloc, spec_size_align, LIST_NODE_ALIGN,
    lemma_dealloc_then_alloc_reuses, scan_can_align, free_addrs, pairwise_disjoint,
    lemma_first_fit_alloc_safe,
};

verus! {

/// The number of block size classes.
pub const BLOCK_SIZE_COUNT: usize = 9;

/// The block size of class `index`: 8, 16, 32, ..., 2048 bytes.
pub open spec fn spec_block_size(index: int) -> int
    recommends
        0 <= index < BLOCK_SIZE_COUNT,
{
    if index == 0 { 8 }
    else if index == 1 { 16 }
    else if index == 2 { 32 }
    else if index == 3 { 64 }
    else if index == 4 { 128 }
    else if index == 5 { 256 }
    else if index == 6 { 512 }
    else if index == 7 { 1024 }
    else { 2048 }
}

/// Every block size is a power of two.
pub proof fn lemma_block_size_power_of_two(index: int)
    requires
        0 <= index < BLOCK_SIZE_COUNT,
    ensures
        is_power_of_two(spec_block_size(index)),
        spec_block_size(index) >= 8,
{
    vstd::arithmetic::power2::lemma2_to64();
    assert(spec_block_size(index) == vstd::arithmetic::power2::pow2((index + 3) as nat));
}

/// The block size of class `index`.
pub fn block_size(index: usize) -> (r: usize)
    requires
        index < BLOCK_SIZE_COUNT,
    ensures
        r == spec_block_size(index as int),
{
    if index == 0 { 8 }
    else if index == 1 { 16 }
    else if index == 2 { 32 }
    else if index == 3 { 64 }
    else if index == 4 { 128 }
    else if index == 5 { 256 }
    else if index == 6 { 512 }
    else if index == 7 { 1024 }
    else { 2048 }
}

/// The block size needed for a request: its size or its alignment, whichever is larger.
pub open spec fn required_block_size(layout: Layout) -> int {
    if layout.size >= layout.align { layout.size as int } else { layout.align as int }
}

/// The first class at or after `from` whose blocks are at least `required` bytes.
pub open spec fn first_class_from(required: int, from: int) -> Option<int>
    decreases BLOCK_SIZE_COUNT - from,
{
    if from >= BLOCK_SIZE_COUNT || from < 0 {
        None
    } else if spec_block_size(from) >= required {
        Some(from)
    } else {
        first_class_from(required, from + 1)
    }
}

/// The class that serves `layout`: the smallest whose block size is at least
/// the request's size and alignment; `None` where the request is larger
/// than every block.
pub open spec fn spec_list_index(layout: Layout) -> Option<int> {
    first_class_from(required_block_size(layout), 0)
}

proof fn lemma_first_class_range(required: int, from: int)
    requires
        0 <= from,
    ensures
        first_class_from(required, from) matches Some(i) ==> from <= i < BLOCK_SIZE_COUNT,
    decreases BLOCK_SIZE_COUNT - from,
{
    if from < BLOCK_SIZE_COUNT && spec_block_size(from) < required {
        lemma_first_class_range(required, from + 1);
    }
}

/// The block size class that serves `layout`, if any.
pub fn list_index(layout: &Layout) -> (r: Option<usize>)
    ensures
        r == (match spec_list_index(*layout) {
            Some(i) => Some(i as usize),
            None => None,
        }),
        r matches Some(i) ==> i < BLOCK_SIZE_COUNT
            && spec_block_size(i as int) >= required_block_size(*layout)
            && forall|j: int| 0 <= j < i ==> spec_block_size(j) < required_block_size(*layout),
        r is None ==> required_block_size(*layout) > 2048,
        r matches Some(i) ==> spec_list_index(*layout) == Some(i as int),
        r is None ==> spec_list_index(*layout) is None,
{
    let required = if layout.size >= layout.align { layout.size } else { layout.align };
    let mut i: usize = 0;
    while i < BLOCK_SIZE_COUNT
        invariant
            i <= BLOCK_SIZE_COUNT,
            required == required_block_size(*layout),
            first_class_from(required as int, 0) == first_class_from(required as int, i as int),
            forall|j: int| 0 <= j < i ==> spec_block_size(j) < required,
        decreases BLOCK_SIZE_COUNT - i,
    {
        if block_size(i) >= required {
            return Some(i);
        }
        i = i + 1;
    }
    assert(spec_block_size(8) < required);
    assert(first_class_from(required as int, BLOCK_SIZE_COUNT as int) is None);
    None
}


/// The state of a fixed-size block allocator: for each class, the stack of
/// free blocks (its top is the last element), and the free list of the
/// fallback allocator.
#[verifier::ext_equal]
pub struct BlockState {
    pub list_heads: Seq<Seq<usize>>,
    pub fallback: Seq<ListNode>,
}

/// The request that goes to the fallback allocator: a whole block of the
/// class where one serves `layout`, else `layout` itself.
pub open spec fn fallback_request(layout: Layout) -> Layout {
    match spec_list_index(layout) {
        Some(i) => Layout { size: spec_block_size(i) as usize, align: spec_block_size(i) as usize },
        None => layout,
    }
}

/// The state and the result after allocating for `layout`: the top free
/// block of the class that serves it, else a block from the fallback.
pub open spec fn block_alloc(s: BlockState, layout: Layout) -> (BlockState, Option<int>) {
    match spec_list_index(layout) {
        Some(i) if s.list_heads[i].len() > 0 => (
            BlockState { list_heads: s.list_heads.update(i, s.list_heads[i].drop_last()), ..s },
            Some(s.list_heads[i].last() as int),
        ),
        _ => {
            let req = fallback_request(layout);
            let (f, r) = first_fit_alloc(s.fallback, req.size as int, req.align as int);
            (BlockState { fallback: f, ..s }, r)
        },
    }
}

/// The state after freeing the block at `addr` allocated for `layout`: it goes
/// on top of the stack of its class, else back to the fallback's free list.
pub open spec fn block_dealloc(s: BlockState, addr: usize, layout: Layout) -> BlockState {
    match spec_list_index(layout) {
        Some(i) => BlockState { list_heads: s.list_heads.update(i, s.list_heads[i].push(addr)), ..s },
        None => BlockState {
            fallback: seq![ListNode {
                start: addr,
                size: spec_size_align(layout.size as int, layout.align as int).0 as usize,
            }] + s.fallback,
            ..s
        },
    }
}

/// An allocator that serves small requests from per-size stacks of freed
/// blocks and everything else from a first-fit fallback allocator.
pub struct FixedSizeBlockAllocator {
    list_heads: Vec<Vec<usize>>,
    fallback_allocator: LinkedListAllocator,
}

impl View for FixedSizeBlockAllocator {
    type V = BlockState;

    closed spec fn view(&self) -> BlockState {
        BlockState {
            list_heads: Seq::new(self.list_heads@.len(), |i: int| self.list_heads@[i]@),
            fallback: self.fallback_allocator@,
        }
    }
}

impl FixedSizeBlockAllocator {
    /// One stack per class, and a well-formed fallback.
    pub closed spec fn wf(&self) -> bool {
        &&& self.list_heads@.len() == BLOCK_SIZE_COUNT
        &&& self.fallback_allocator.wf()
    }

    /// An allocator with no free memory.
    pub fn new() -> (r: FixedSizeBlockAllocator)
        ensures
            r.wf(),
            r@.list_heads =~= Seq::new(BLOCK_SIZE_COUNT as nat, |i: int| Seq::<usize>::empty()),
            r@.fallback == Seq::<ListNode>::empty(),
    {
        let mut list_heads: Vec<Vec<usize>> = Vec::new();
        let mut i: usize = 0;
        while i < BLOCK_SIZE_COUNT
            invariant
                i <= BLOCK_SIZE_COUNT,
                list_heads@.len() == i,
                forall|j: int| 0 <= j < i ==> (#[trigger] list_heads@[j])@ == Seq::<usize>::empty(),
            decreases BLOCK_SIZE_COUNT - i,
        {
            list_heads.push(Vec::new());
            i = i + 1;
        }
        let r = FixedSizeBlockAllocator { list_heads, fallback_allocator: LinkedListAllocator::new() };
        proof {
            assert(r@.list_heads =~= Seq::new(BLOCK_SIZE_COUNT as nat, |i: int| Seq::<usize>::empty()));
        }
        r
    }

    /// Hands the fallback allocator the memory `[heap_start, heap_start + heap_size)`.
    pub fn init(&mut self, heap_start: usize, heap_size: usize)
        requires
            old(self).wf(),
            heap_start % LIST_NODE_ALIGN == 0,
            heap_size >= crate::linked_list::LIST_NODE_SIZE,
            heap_start + heap_size <= usize::MAX,
        ensures
            final(self).wf(),
            final(self)@.list_heads == old(self)@.list_heads,
            final(self)@.fallback == seq![ListNode { start: heap_start, size: heap_size }] + old(self)@.fallback,
    {
        self.fallback_allocator.init(heap_start, heap_size);
    }

    /// Whether the fallback allocator's search for the block that serves
    /// `layout` can round up every start it looks at.
    pub fn fallback_can_align(&self, layout: Layout) -> (r: bool)
        requires
            self.wf(),
            layout.is_valid(),
            Layout::valid(layout.size as int, spec_size_align(layout.size as int, layout.align as int).1),
        ensures
            r == scan_can_align(
                self@.fallback,
                spec_size_align(fallback_request(layout).size as int, fallback_request(layout).align as int).0,
                spec_size_align(fallback_request(layout).size as int, fallback_request(layout).align as int).1,
            ),
    {
        let request = match list_index(&layout) {
            Some(index) => {
                let size = block_size(index);
                proof {
                    lemma_block_size_power_of_two(index as int);
                    vstd::arithmetic::power2::lemma2_to64();
                }
                Layout::from_size_align(size, size).unwrap()
            },
            None => layout,
        };
        let (size, align) = LinkedListAllocator::size_align(request);
        self.fallback_allocator.scan_can_align(size, align)
    }

    /// Allocates a block for `layout` from the fallback allocator.
    fn fallback_alloc(&mut self, layout: Layout) -> (r: Option<usize>)
        requires
            old(self).wf(),
            layout.is_valid(),
            Layout::valid(layout.size as int, spec_size_align(layout.size as int, layout.align as int).1),
            scan_can_align(
                old(self)@.fallback,
                spec_size_align(layout.size as int, layout.align as int).0,
                spec_size_align(layout.size as int, layout.align as int).1,
            ),
        ensures
            final(self).wf(),
            final(self)@.list_heads == old(self)@.list_heads,
            final(self)@.fallback == first_fit_alloc(old(self)@.fallback, layout.size as int, layout.align as int).0,
            r == (match first_fit_alloc(old(self)@.fallback, layout.size as int, layout.align as int).1 {
                Some(a) => Some(a as usize),
                None => None,
            }),
    {
        self.fallback_allocator.allocate_first_fit(layout)
    }

    /// Allocates a block for `layout`: a freed block of its class where one
    /// is left, else a new block from the fallback allocator.
    pub fn allocate(&mut self, layout: Layout) -> (r: Option<usize>)
        requires
            old(self).wf(),
            layout.is_valid(),
            Layout::valid(layout.size as int, spec_size_align(layout.size as int, layout.align as int).1),
            scan_can_align(
                old(self)@.fallback,
                spec_size_align(fallback_request(layout).size as int, fallback_request(layout).align as int).0,
                spec_size_align(fallback_request(layout).size as int, fallback_request(layout).align as int).1,
            ),
        ensures
            final(self).wf(),
            final(self)@ == block_alloc(old(self)@, layout).0,
            r == (match block_alloc(old(self)@, layout).1 {
                Some(a) => Some(a as usize),
                None => None,
            }),
    {
        match list_index(&layout) {
            Some(index) => {
                match self.list_heads[index].pop() {
                    Some(node) => {
                        proof {
                            assert(self@.list_heads =~= old(self)@.list_heads.update(index as int, old(self)@.list_heads[index as int].drop_last()));
                            assert(self@ =~= block_alloc(old(self)@, layout).0);
                        }
                        Some(node)
                    },
                    None => {
                        let block_size = block_size(index);
                        let block_align = block_size;
                        proof {
                            lemma_block_size_power_of_two(index as int);
                            vstd::arithmetic::power2::lemma2_to64();
                        }
                        let layout = Layout::from_size_align(block_size, block_align).unwrap();
                        self.fallback_alloc(layout)
                    },
                }
            },
            None => self.fallback_alloc(layout),
        }
    }

    /// Frees the block at `addr` that was allocated for `layout`.
    pub fn deallocate(&mut self, addr: usize, layout: Layout)
        requires
            old(self).wf(),
            layout.is_valid(),
            Layout::valid(layout.size as int, spec_size_align(layout.size as int, layout.align as int).1),
            spec_list_index(layout) is None ==> addr % LIST_NODE_ALIGN == 0
                && addr + spec_size_align(layout.size as int, layout.align as int).0 <= usize::MAX,
        ensures
            final(self).wf(),
            final(self)@ == block_dealloc(old(self)@, addr, layout),
    {
        match list_index(&layout) {
            Some(index) => {
                self.list_heads[index].push(addr);
                proof {
                    assert(self@.list_heads =~= old(self)@.list_heads.update(index as int, old(self)@.list_heads[index as int].push(addr)));
                    assert(self@ =~= block_dealloc(old(self)@, addr, layout));
                }
            },
            None => {
                self.fallback_allocator.deallocate(addr, layout);
            },
        }
    }
}


/// A block of a size class that is not on its class's stack comes from the
/// fallback as a whole block of the class: it is aligned to the class's block
/// size, all of its block-size bytes were free before, and none of them is
/// free after, so a block later reused for any request of the class never
/// overlaps memory handed out since; the stacks are untouched.
pub proof fn lemma_class_block_from_fallback(s: BlockState, layout: Layout, i: int)
    requires
        s.list_heads.len() == BLOCK_SIZE_COUNT,
        forall|k: int| 0 <= k < s.fallback.len() ==> #[trigger] s.fallback[k].wf(),
        pairwise_disjoint(s.fallback),
        spec_list_index(layout) == Some(i),
        s.list_heads[i].len() == 0,
    ensures
        block_alloc(s, layout).0.list_heads == s.list_heads,
        block_alloc(s, layout).1 matches Some(a) ==> {
            &&& a % spec_block_size(i) == 0
            &&& forall|x: int| a <= x < a + spec_block_size(i) ==>
                #[trigger] free_addrs(s.fallback).contains(x) && !free_addrs(block_alloc(s, layout).0.fallback).contains(x)
        },
{
    lemma_first_class_range(required_block_size(layout), 0);
    let bs = spec_block_size(i);
    lemma_block_size_power_of_two(i);
    vstd::arithmetic::power2::lemma2_to64();
    assert(spec_size_align(bs, bs).1 == bs);
    lemma_first_fit_alloc_safe(s.fallback, bs, bs);
}

/// A freed block is what the next request of the same layout gets, and
/// taking it restores the allocator's state: from the top of its class's
/// stack, or from the front of the fallback's free list.
pub proof fn lemma_block_free_then_alloc_reuses(s: BlockState, addr: usize, layout: Layout)
    requires
        s.list_heads.len() == BLOCK_SIZE_COUNT,
        layout.is_valid(),
        Layout::valid(layout.size as int, spec_size_align(layout.size as int, layout.align as int).1),
        spec_list_index(layout) is None ==> {
            &&& (addr as int) % spec_size_align(layout.size as int, layout.align as int).1 == 0
            &&& addr + spec_size_align(layout.size as int, layout.align as int).0 <= usize::MAX
        },
    ensures
        block_alloc(block_dealloc(s, addr, layout), layout) == (s, Some(addr as int)),
{
    let freed = block_dealloc(s, addr, layout);
    match spec_list_index(layout) {
        Some(i) => {
            lemma_first_class_range(required_block_size(layout), 0);
            assert(freed.list_heads[i].drop_last() =~= s.list_heads[i]);
            assert(freed.list_heads.update(i, freed.list_heads[i].drop_last()) =~= s.list_heads);
            assert(block_alloc(freed, layout).0 =~= s);
        },
        None => {
            lemma_dealloc_then_alloc_reuses(s.fallback, addr as int, layout.size as int, layout.align as int);
            assert(block_alloc(freed, layout).0 =~= s);
        },
    }
}

} // verus!
