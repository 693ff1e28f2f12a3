//! The cooperative task scheduler: which tasks are alive and the queue of task ids
//! that are ready to be polled, first come first served.
use vstd::prelude::*;
use crossbeam_queue::ArrayQueue;

verus! {

/// The bounded multi-producer multi-consumer queue of `crossbeam-queue`.
#[verifier::external_type_specification]
#[verifier::external_body]
#[verifier::reject_recursive_types(T)]
pub struct ExArrayQueue<T>(ArrayQueue<T>);

/// The ids in a queue, oldest first.
pub uninterp spec fn queue_contents(q: ArrayQueue<u64>) -> Seq<u64>;

/// The capacity that a queue was made with.
pub uninterp spec fn queue_capacity(q: ArrayQueue<u64>) -> nat;

/// `ArrayQueue::new`: an empty queue of the given capacity. Its source asserts a
/// non-zero capacity and panics where `capacity + 1` has no next power of two in
/// `usize`; those inputs are excluded.
#[verifier::external_body]
fn queue_new(cap: usize) -> (q: ArrayQueue<u64>)
    requires
        0 < cap <= usize::MAX / 2,
    ensures
        queue_contents(q) == Seq::<u64>::empty(),
        queue_capacity(q) == cap,
{
    ArrayQueue::new(cap)
}

/// `ArrayQueue::push`: appends `v` at the back, or hands it back when the queue holds
/// as many ids as its capacity.
#[verifier::external_body]
fn queue_push(q: &mut ArrayQueue<u64>, v: u64) -> (r: Result<(), u64>)
    ensures
        queue_capacity(*final(q)) == queue_capacity(*old(q)),
        queue_contents(*old(q)).len() < queue_capacity(*old(q)) ==> r is Ok && queue_contents(*final(q)) == queue_contents(*old(q)).push(v),
        queue_contents(*old(q)).len() >= queue_capacity(*old(q)) ==> (r matches Err(x) && x == v) && queue_contents(*final(q)) == queue_contents(*old(q)),
{
    q.push(v)
}

/// `ArrayQueue::pop`: removes and returns the oldest id, or `None` for an empty queue.
#[verifier::external_body]
fn queue_pop(q: &mut ArrayQueue<u64>) -> (r: Option<u64>)
    ensures
        queue_capacity(*final(q)) == queue_capacity(*old(q)),
        queue_contents(*old(q)).len() == 0 ==> r is None && queue_contents(*final(q)) == queue_contents(*old(q)),
        queue_contents(*old(q)).len() > 0 ==> r == Some(queue_contents(*old(q))[0])
            && queue_contents(*final(q)) == queue_contents(*old(q)).drop_first(),
{
    q.pop()
}

/// `ArrayQueue::is_full`: whether the queue holds as many ids as its capacity.
#[verifier::external_body]
fn queue_is_full(q: &ArrayQueue<u64>) -> (r: bool)
    ensures
        r == (queue_contents(*q).len() >= queue_capacity(*q)),
{
    q.is_full()
}

/// `ArrayQueue::is_empty`: whether the queue holds no id.
#[verifier::external_body]
fn queue_is_empty(q: &ArrayQueue<u64>) -> (r: bool)
    ensures
        r == (queue_contents(*q).len() == 0),
{
    q.is_empty()
}

/// The scheduler: the ids of the live tasks and the queue of ids ready to be polled.
pub struct Executor {
    tasks: Vec<u64>,
    task_queue: ArrayQueue<u64>,
}

/// What the scheduler holds.
pub struct ExecutorView {
    pub tasks: Seq<u64>,
    pub queue: Seq<u64>,
    pub capacity: nat,
}

impl View for Executor {
    type V = ExecutorView;

    closed spec fn view(&self) -> ExecutorView {
        ExecutorView {
            tasks: self.tasks@,
            queue: queue_contents(self.task_queue),
            capacity: queue_capacity(self.task_queue),
        }
    }
}

/// The position of the first queued id that belongs to a live task.
pub open spec fn first_live(queue: Seq<u64>, tasks: Seq<u64>) -> Option<int>
    decreases queue.len(),
{
    if queue.len() == 0 {
        None
    } else if tasks.contains(queue[0]) {
        Some(0)
    } else {
        match first_live(queue.drop_first(), tasks) {
            Some(i) => Some(i + 1),
            None => None,
        }
    }
}

/// The scheduler's invariant: no id is live twice, and the queue has room for 100 ids.
pub open spec fn executor_wf(v: ExecutorView) -> bool {
    &&& v.tasks.no_duplicates()
    &&& v.capacity == 100
}

impl Executor {
    /// A scheduler with no tasks and an empty queue of capacity 100.
    pub fn new() -> (r: Self)
        ensures
            r@.tasks == Seq::<u64>::empty(),
            r@.queue == Seq::<u64>::empty(),
            executor_wf(r@),
    {
        Executor { tasks: Vec::new(), task_queue: queue_new(100) }
    }

    /// Whether `spawn` accepts `id` now: no live task has this id and the queue has room
    /// (elsewhere the kernel panics).
    pub fn can_spawn(&self, id: u64) -> (r: bool)
        requires
            executor_wf(self@),
        ensures
            r == (!self@.tasks.contains(id) && self@.queue.len() < 100),
    {
        !self.is_live(id) && !queue_is_full(&self.task_queue)
    }

    /// Adds the task `id` and queues it to be polled.
    pub fn spawn(&mut self, id: u64)
        requires
            executor_wf(old(self)@),
            !old(self)@.tasks.contains(id),
            old(self)@.queue.len() < 100,
        ensures
            executor_wf(final(self)@),
            final(self)@ == (ExecutorView { tasks: old(self)@.tasks.push(id), queue: old(self)@.queue.push(id), ..old(self)@ }),
    {
        let _ = queue_push(&mut self.task_queue, id);
        let ghost before = self.tasks@;
        self.tasks.push(id);
        assert(self.tasks@.no_duplicates()) by {
            assert forall|a: int, b: int| 0 <= a < b < self.tasks@.len() implies self.tasks@[a] != self.tasks@[b] by {
                if b == before.len() {
                    assert(before[a] == self.tasks@[a]);
                }
            }
        }
    }

    /// Whether `id` is a live task.
    fn is_live(&self, id: u64) -> (r: bool)
        ensures
            r == self@.tasks.contains(id),
    {
        let mut i: usize = 0;
        while i < self.tasks.len()
            invariant
                i <= self.tasks.len(),
                forall|j: int| 0 <= j < i ==> self.tasks@[j] != id,
            decreases self.tasks.len() - i,
        {
            if self.tasks[i] == id {
                return true;
            }
            i += 1;
        }
        false
    }

    /// Takes ids off the queue until one of a live task comes up, and returns it; ids of
    /// finished tasks are dropped. `None` when the queue runs out.
    pub fn next_ready(&mut self) -> (r: Option<u64>)
        requires
            executor_wf(old(self)@),
        ensures
            executor_wf(final(self)@),
            final(self)@.tasks == old(self)@.tasks,
            match first_live(old(self)@.queue, old(self)@.tasks) {
                Some(k) => r == Some(old(self)@.queue[k]) && final(self)@.queue == old(self)@.queue.skip(k + 1),
                None => r is None && final(self)@.queue == Seq::<u64>::empty(),
            },
    {
        let ghost q0 = self@.queue;
        let ghost mut dropped: int = 0;
        loop
            invariant
                executor_wf(self@),
                self@.tasks == old(self)@.tasks,
                q0 == old(self)@.queue,
                0 <= dropped <= q0.len(),
                self@.queue == q0.skip(dropped),
                first_live(q0, self@.tasks) == match first_live(q0.skip(dropped), self@.tasks) {
                    Some(k) => Some(k + dropped),
                    None => None,
                },
            decreases self@.queue.len(),
        {
            let ghost before = self@.queue;
            match queue_pop(&mut self.task_queue) {
                None => {
                    return None;
                },
                Some(id) => {
                    assert(before.drop_first() =~= q0.skip(dropped + 1));
                    if self.is_live(id) {
                        return Some(id);
                    }
                    proof {
                        dropped = dropped + 1;
                    }
                },
            }
        }
    }

    /// Ends the task `id`: it is no longer live (its queued ids are dropped when reached).
    pub fn complete(&mut self, id: u64)
        requires
            executor_wf(old(self)@),
        ensures
            executor_wf(final(self)@),
            final(self)@.queue == old(self)@.queue,
            !final(self)@.tasks.contains(id),
            forall|t: u64| t != id ==> (final(self)@.tasks.contains(t) <==> old(self)@.tasks.contains(t)),
    {
        let mut i: usize = 0;
        while i < self.tasks.len()
            invariant
                i <= self.tasks.len(),
                self@ == old(self)@,
                executor_wf(self@),
                forall|j: int| 0 <= j < i ==> self.tasks@[j] != id,
            decreases self.tasks.len() - i,
        {
            if self.tasks[i] == id {
                let ghost before = self.tasks@;
                self.tasks.remove(i);
                proof {
                    assert forall|t: u64| t != id implies (self.tasks@.contains(t) <==> before.contains(t)) by {
                        if before.contains(t) {
                            let j = choose|j: int| 0 <= j < before.len() && before[j] == t;
                            if j < i { assert(self.tasks@[j] == t); } else { assert(self.tasks@[j - 1] == t); }
                        }
                        if self.tasks@.contains(t) {
                            let j = choose|j: int| 0 <= j < self.tasks@.len() && self.tasks@[j] == t;
                            if j < i { assert(before[j] == t); } else { assert(before[j + 1] == t); }
                        }
                    }
                    if self.tasks@.contains(id) {
                        let j = choose|j: int| 0 <= j < self.tasks@.len() && self.tasks@[j] == id;
                        if j < i { assert(before[j] == id); } else { assert(before[j + 1] == id); }
                    }
                    assert(self.tasks@.no_duplicates()) by {
                        assert forall|a: int, b: int| 0 <= a < b < self.tasks@.len() implies self.tasks@[a] != self.tasks@[b] by {
                            let a0 = if a < i { a } else { a + 1 };
                            let b0 = if b < i { b } else { b + 1 };
                            assert(before[a0] == self.tasks@[a] && before[b0] == self.tasks@[b]);
                        }
                    }
                }
                return;
            }
            i += 1;
        }
    }

    /// Queues the task `id` to be polled again; a full queue drops the request.
    pub fn wake(&mut self, id: u64)
        requires
            executor_wf(old(self)@),
        ensures
            executor_wf(final(self)@),
            final(self)@.tasks == old(self)@.tasks,
            old(self)@.queue.len() < 100 ==> final(self)@.queue == old(self)@.queue.push(id),
            old(self)@.queue.len() >= 100 ==> final(self)@.queue == old(self)@.queue,
    {
        let _ = queue_push(&mut self.task_queue, id);
    }

    /// Whether no id is waiting in the queue (the processor may then sleep until an
    /// interrupt).
    pub fn is_idle(&self) -> (r: bool)
        ensures
            r == (self@.queue.len() == 0),
    {
        queue_is_empty(&self.task_queue)
    }
}

} // verus!

verus! {

/// The id that `next_ready` returns is that of a live task, and every id it skipped
/// belonged to a finished one; when it returns `None`, no queued id was live.
pub proof fn law_next_ready_is_live(queue: Seq<u64>, tasks: Seq<u64>)
    ensures
        match first_live(queue, tasks) {
            Some(k) => 0 <= k < queue.len() && tasks.contains(queue[k])
                && forall|j: int| 0 <= j < k ==> !tasks.contains(#[trigger] queue[j]),
            None => forall|j: int| 0 <= j < queue.len() ==> !tasks.contains(#[trigger] queue[j]),
        },
    decreases queue.len(),
{
    if queue.len() > 0 && !tasks.contains(queue[0]) {
        let rest = queue.drop_first();
        law_next_ready_is_live(rest, tasks);
        match first_live(rest, tasks) {
            Some(k) => {
                assert(queue[k + 1] == rest[k]);
                assert forall|j: int| 0 <= j < k + 1 implies !tasks.contains(#[trigger] queue[j]) by {
                    if j > 0 {
                        assert(queue[j] == rest[j - 1]);
                    }
                }
            },
            None => {
                assert forall|j: int| 0 <= j < queue.len() implies !tasks.contains(#[trigger] queue[j]) by {
                    if j > 0 {
                        assert(queue[j] == rest[j - 1]);
                    }
                }
            },
        }
    }
}

/// A task spawned while no live task was waiting is the next one polled.
pub proof fn law_spawned_task_runs_next(queue: Seq<u64>, tasks: Seq<u64>, id: u64)
    requires
        first_live(queue, tasks) is None,
    ensures
        first_live(queue.push(id), tasks.push(id)) matches Some(k) && queue.push(id)[k] == id,
{
    law_next_ready_is_live(queue, tasks);
    law_next_ready_is_live(queue.push(id), tasks.push(id));
    assert(queue.push(id)[queue.len() as int] == id);
    assert(tasks.push(id).contains(id)) by {
        assert(tasks.push(id)[tasks.len() as int] == id);
    }
    if first_live(queue.push(id), tasks.push(id)) is None {
        assert(!tasks.push(id).contains(queue.push(id)[queue.len() as int]));
    } else {
        let k = first_live(queue.push(id), tasks.push(id))->0;
        if k < queue.len() {
            let x = queue[k];
            assert(queue.push(id)[k] == x);
            assert(!tasks.contains(x));
            let i = choose|i: int| 0 <= i < tasks.push(id).len() && tasks.push(id)[i] == x;
            if i < tasks.len() {
                assert(tasks[i] == x);
            }
        }
    }
}

/// A finished task is never polled again (until it is spawned anew).
pub proof fn law_finished_task_not_polled(queue: Seq<u64>, tasks: Seq<u64>, id: u64)
    requires
        !tasks.contains(id),
    ensures
        first_live(queue, tasks) matches Some(k) ==> queue[k] != id,
{
    law_next_ready_is_live(queue, tasks);
}

} // verus!
