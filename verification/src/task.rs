use vstd::prelude::*;
use std::collections::BTreeSet;

verus! {

/// The identifier of a task.
#[derive(Debug, Clone, Copy, PartialEq, Eq, PartialOrd, Ord, Hash, Structural)]
pub struct TaskId(pub u64);

/// Hands out task identifiers in increasing order, starting at 0.
pub struct TaskIdCounter {
    next: u64,
}

impl TaskIdCounter {
    /// The identifier the counter hands out next.
    pub closed spec fn next_id(&self) -> u64 {
        self.next
    }

    pub fn new() -> (r: TaskIdCounter)
        ensures
            r.next_id() == 0,
    {
        TaskIdCounter { next: 0 }
    }
}

/// The identifier a counter at `n` hands out after `n`.
pub open spec fn next_after(n: u64) -> u64 {
    if n == u64::MAX { 0 } else { (n + 1) as u64 }
}

/// The identifier handed out `i` calls after one at `start`.
pub open spec fn nth_id(start: u64, i: nat) -> u64
    decreases i,
{
    if i == 0 { start } else { next_after(nth_id(start, (i - 1) as nat)) }
}

proof fn lemma_nth_id_mod(start: u64, i: nat)
    ensures
        nth_id(start, i) as int == (start + i) % 0x1_0000_0000_0000_0000,
    decreases i,
{
    if i > 0 {
        lemma_nth_id_mod(start, (i - 1) as nat);
        let m: int = 0x1_0000_0000_0000_0000;
        let prev = (start + i - 1) % m;
        vstd::arithmetic::div_mod::lemma_add_mod_noop(start + i - 1, 1, m);
        vstd::arithmetic::div_mod::lemma_small_mod(1, m as nat);
        if prev + 1 == m {
            vstd::arithmetic::div_mod::lemma_mod_self_0(m);
        } else {
            vstd::arithmetic::div_mod::lemma_small_mod((prev + 1) as nat, m as nat);
        }
    }
}

/// A counter that starts at 0 hands out the number of calls before each
/// call, for the first 2^64 calls.
pub proof fn lemma_task_ids_count(k: nat)
    requires
        k < 0x1_0000_0000_0000_0000,
    ensures
        nth_id(0, k) == k,
{
    lemma_nth_id_mod(0, k);
    vstd::arithmetic::div_mod::lemma_small_mod(k, 0x1_0000_0000_0000_0000);
}

/// A counter that starts at 0 hands out increasing identifiers: an earlier
/// task has a smaller identifier than a later one, for the first 2^64 calls.
pub proof fn lemma_task_ids_increase(i: nat, j: nat)
    requires
        i < j < 0x1_0000_0000_0000_0000,
    ensures
        nth_id(0, i) < nth_id(0, j),
{
    lemma_task_ids_count(i);
    lemma_task_ids_count(j);
}

/// Identifiers are handed out once: the identifiers of any 2^64 calls in a
/// row are all different.
pub proof fn lemma_task_ids_distinct(start: u64, i: nat, j: nat)
    requires
        i < j < 0x1_0000_0000_0000_0000,
    ensures
        nth_id(start, i) != nth_id(start, j),
{
    lemma_nth_id_mod(start, i);
    lemma_nth_id_mod(start, j);
    let m: int = 0x1_0000_0000_0000_0000;
    vstd::arithmetic::div_mod::lemma_fundamental_div_mod(start + i, m);
    vstd::arithmetic::div_mod::lemma_fundamental_div_mod(start + j, m);
    let qi = (start + i) / m;
    let qj = (start + j) / m;
    if nth_id(start, i) == nth_id(start, j) {
        assert((start + j) - (start + i) == m * (qj - qi)) by (nonlinear_arith)
            requires
                start + i == m * qi + (start + i) % m,
                start + j == m * qj + (start + j) % m,
                (start + i) % m == (start + j) % m;
        assert(false) by (nonlinear_arith)
            requires
                j - i == m * (qj - qi),
                0 < j - i < m,
                m > 0;
    }
}

impl TaskId {
    /// A fresh identifier: the counter's next value, after which the counter
    /// moves on by one (wrapping around at the end of `u64`).
    pub fn new(counter: &mut TaskIdCounter) -> (r: TaskId)
        ensures
            r.0 == old(counter).next_id(),
            final(counter).next_id() == next_after(old(counter).next_id()),
    {
        let id = counter.next;
        counter.next = counter.next.wrapping_add(1);
        TaskId(id)
    }
}

/// What the executor does with a task identifier taken from the ready queue.
#[derive(Debug, Clone, Copy, PartialEq, Eq, Structural)]
pub enum ReadyAction {
    /// The task has finished already: drop the identifier.
    Skip,
    /// Poll the task; `new_waker` says whether a waker must be made for it
    /// first (none was cached).
    Poll { new_waker: bool },
}

/// The executor's books: the tasks spawned and not finished, and the tasks
/// that have a cached waker.
#[verifier::ext_equal]
pub struct ExecutorView {
    pub tasks: Set<u64>,
    pub wakers: Set<u64>,
}

/// The executor's bookkeeping of tasks and wakers.
pub struct ExecutorState {
    tasks: BTreeSet<u64>,
    waker_cache: BTreeSet<u64>,
}

impl View for ExecutorState {
    type V = ExecutorView;

    closed spec fn view(&self) -> ExecutorView {
        ExecutorView { tasks: self.tasks@, wakers: self.waker_cache@ }
    }
}

/// A waker is cached only for a task that has not finished.
pub open spec fn executor_wf(v: ExecutorView) -> bool {
    &&& v.wakers.subset_of(v.tasks)
    &&& v.tasks.finite()
    &&& v.wakers.finite()
}

/// The action for task `id` taken from the ready queue, and the books after it.
pub open spec fn on_ready(v: ExecutorView, id: u64) -> (ExecutorView, ReadyAction) {
    if !v.tasks.contains(id) {
        (v, ReadyAction::Skip)
    } else {
        (ExecutorView { wakers: v.wakers.insert(id), ..v }, ReadyAction::Poll { new_waker: !v.wakers.contains(id) })
    }
}

/// The books after task `id` was polled: a finished task and its waker are dropped.
pub open spec fn on_polled(v: ExecutorView, id: u64, finished: bool) -> ExecutorView {
    if finished {
        ExecutorView { tasks: v.tasks.remove(id), wakers: v.wakers.remove(id) }
    } else {
        v
    }
}

impl ExecutorState {
    /// No task.
    pub fn new() -> (r: ExecutorState)
        ensures
            r@.tasks == Set::<u64>::empty(),
            r@.wakers == Set::<u64>::empty(),
            executor_wf(r@),
    {
        ExecutorState { tasks: BTreeSet::new(), waker_cache: BTreeSet::new() }
    }

    /// Whether task `id` is spawned and not finished.
    pub fn contains(&self, id: TaskId) -> (r: bool)
        ensures
            r == self@.tasks.contains(id.0),
    {
        proof { broadcast use vstd::std_specs::btree::group_btree_axioms; }
        self.tasks.contains(&id.0)
    }

    /// Records a newly spawned task.
    pub fn spawn(&mut self, id: TaskId)
        requires
            executor_wf(old(self)@),
            !old(self)@.tasks.contains(id.0),
        ensures
            executor_wf(final(self)@),
            final(self)@.tasks == old(self)@.tasks.insert(id.0),
            final(self)@.wakers == old(self)@.wakers,
    {
        proof { broadcast use vstd::std_specs::btree::group_btree_axioms; }
        self.tasks.insert(id.0);
    }

    /// Decides what to do with task `id` taken from the ready queue.
    pub fn on_ready(&mut self, id: TaskId) -> (r: ReadyAction)
        requires
            executor_wf(old(self)@),
        ensures
            executor_wf(final(self)@),
            (final(self)@, r) == on_ready(old(self)@, id.0),
    {
        proof { broadcast use vstd::std_specs::btree::group_btree_axioms; }
        if !self.tasks.contains(&id.0) {
            return ReadyAction::Skip;
        }
        let new_waker = self.waker_cache.insert(id.0);
        ReadyAction::Poll { new_waker }
    }

    /// Records the outcome of polling task `id`.
    pub fn on_polled(&mut self, id: TaskId, finished: bool)
        requires
            executor_wf(old(self)@),
        ensures
            executor_wf(final(self)@),
            final(self)@ == on_polled(old(self)@, id.0, finished),
    {
        proof { broadcast use vstd::std_specs::btree::group_btree_axioms; }
        if finished {
            self.tasks.remove(&id.0);
            self.waker_cache.remove(&id.0);
        }
    }
}


/// An identifier of no live task taken from the ready queue is dropped: no
/// poll, no waker, no change.
pub proof fn lemma_stale_id_skipped(v: ExecutorView, id: u64)
    requires
        !v.tasks.contains(id),
    ensures
        on_ready(v, id) == (v, ReadyAction::Skip),
{
}

/// A task that has finished is never polled again: taken from the ready
/// queue later, its identifier is dropped.
pub proof fn lemma_finished_task_skipped(v: ExecutorView, id: u64)
    requires
        executor_wf(v),
    ensures
        on_ready(on_polled(v, id, true), id).1 == ReadyAction::Skip,
        on_ready(on_polled(v, id, true), id).0 == on_polled(v, id, true),
        executor_wf(on_polled(v, id, true)),
{
}

/// A task gets one waker: once polled, it is polled again with the cached
/// waker for as long as it has not finished.
pub proof fn lemma_waker_made_once(v: ExecutorView, id: u64)
    requires
        executor_wf(v),
        v.tasks.contains(id),
    ensures
        ({
            let after = on_polled(on_ready(v, id).0, id, false);
            on_ready(after, id).1 == (ReadyAction::Poll { new_waker: false })
        }),
{
}


/// The books after a run over the ready queue: each identifier taken from
/// the queue, with whether polling it finished the task (which matters only
/// where the task was polled).
pub open spec fn run_ready(v: ExecutorView, ready: Seq<(u64, bool)>) -> ExecutorView
    decreases ready.len(),
{
    if ready.len() == 0 {
        v
    } else {
        let before = run_ready(v, ready.drop_last());
        let (id, finished) = ready.last();
        let (after, action) = on_ready(before, id);
        match action {
            ReadyAction::Skip => after,
            ReadyAction::Poll { .. } => on_polled(after, id, finished),
        }
    }
}

/// A run over the ready queue keeps a waker only for a live task, never adds
/// a task, and drops only tasks that were taken from the queue and finished;
/// a task never taken from the queue keeps its place and its waker, and an
/// identifier of no live task (a late wake-up) is dropped without a poll.
pub proof fn lemma_run_ready(v: ExecutorView, ready: Seq<(u64, bool)>)
    requires
        executor_wf(v),
    ensures
        executor_wf(run_ready(v, ready)),
        run_ready(v, ready).tasks.subset_of(v.tasks),
        forall|id: u64| v.tasks.contains(id) && !run_ready(v, ready).tasks.contains(id)
            ==> exists|k: int| 0 <= k < ready.len() && #[trigger] ready[k] == (id, true),
        forall|id: u64| (forall|k: int| 0 <= k < ready.len() ==> (#[trigger] ready[k]).0 != id) ==> {
            &&& run_ready(v, ready).tasks.contains(id) == v.tasks.contains(id)
            &&& run_ready(v, ready).wakers.contains(id) == v.wakers.contains(id)
        },
    decreases ready.len(),
{
    if ready.len() > 0 {
        let prefix = ready.drop_last();
        lemma_run_ready(v, prefix);
        let before = run_ready(v, prefix);
        let (id, finished) = ready.last();
        assert forall|x: u64| (forall|k: int| 0 <= k < ready.len() ==> (#[trigger] ready[k]).0 != x) implies {
            &&& run_ready(v, ready).tasks.contains(x) == v.tasks.contains(x)
            &&& run_ready(v, ready).wakers.contains(x) == v.wakers.contains(x)
        } by {
            assert forall|k: int| 0 <= k < prefix.len() implies (#[trigger] prefix[k]).0 != x by {
                assert(prefix[k] == ready[k]);
            }
            assert(ready[ready.len() - 1].0 != x);
        }
        assert forall|x: u64| v.tasks.contains(x) && !run_ready(v, ready).tasks.contains(x)
            implies exists|k: int| 0 <= k < ready.len() && #[trigger] ready[k] == (x, true) by {
            if before.tasks.contains(x) {
                assert(x == id && finished);
                assert(ready[ready.len() - 1] == (x, true));
            } else {
                let k = choose|k: int| 0 <= k < prefix.len() && #[trigger] prefix[k] == (x, true);
                assert(ready[k] == prefix[k]);
            }
        }
    }
}

} // verus!
