//! The task queue: a first-in-first-out buffer.

use std::collections::VecDeque;
use vstd::prelude::*;

verus! {

/// A FIFO buffer. Its view is the sequence of items it holds, head first.
#[derive(Debug)]
pub struct Queue<T> {
    data: VecDeque<T>,
}

impl<T> View for Queue<T> {
    type V = Seq<T>;

    closed spec fn view(&self) -> Seq<T> {
        self.data@
    }
}

impl<T> Default for Queue<T> {
    fn default() -> (queue: Self)
        ensures
            queue@ == Seq::<T>::empty(),
    {
        Queue { data: VecDeque::new() }
    }
}

impl<T> Queue<T> {
    /// Appends `data` at the tail.
    pub fn push(&mut self, data: T)
        ensures
            final(self)@ == old(self)@.push(data),
    {
        self.data.push_back(data);
    }

    /// Removes and returns the head. A caller that shares the queue waits
    /// until an item is there before it calls this.
    pub fn pop(&mut self) -> (head: T)
        requires
            old(self)@.len() > 0,
        ensures
            head == old(self)@.first(),
            final(self)@ == old(self)@.drop_first(),
    {
        let head = self.data.pop_front();
        head.unwrap()
    }

    /// Removes and returns the head if there is one, and leaves an empty
    /// queue as it is.
    pub fn try_pop(&mut self) -> (head: Option<T>)
        ensures
            old(self)@.len() == 0 ==> head.is_none() && final(self)@ == old(self)@,
            old(self)@.len() > 0 ==> head == Some(old(self)@.first()) && final(self)@ == old(
                self,
            )@.drop_first(),
    {
        self.data.pop_front()
    }

    /// The number of items held.
    pub fn len(&self) -> (n: usize)
        ensures
            n == self@.len(),
    {
        self.data.len()
    }

    /// Whether a `pop` would have to wait.
    pub fn is_empty(&self) -> (empty: bool)
        ensures
            empty == (self@.len() == 0),
    {
        self.data.len() == 0
    }
}

/// One call on a queue.
pub enum QueueOp<T> {
    /// A `push` of this item.
    Push(T),
    /// A `try_pop`.
    Pop,
}

/// What a run of calls has handed out and what the queue still holds.
pub struct Trace<T> {
    /// The items that the pops have returned, in the order of the pops.
    pub returned: Seq<T>,
    /// The items still in the queue, head first.
    pub held: Seq<T>,
}

/// The outcome of making the calls `ops` in order on a queue that holds
/// `start`. A `Pop` on an empty queue returns nothing and changes nothing.
pub open spec fn run<T>(start: Seq<T>, ops: Seq<QueueOp<T>>) -> Trace<T>
    decreases ops.len(),
{
    if ops.len() == 0 {
        Trace { returned: Seq::empty(), held: start }
    } else {
        let before = run(start, ops.drop_last());
        match ops.last() {
            QueueOp::Push(item) => Trace {
                returned: before.returned,
                held: before.held.push(item),
            },
            QueueOp::Pop => if before.held.len() > 0 {
                Trace {
                    returned: before.returned.push(before.held.first()),
                    held: before.held.drop_first(),
                }
            } else {
                before
            },
        }
    }
}

/// The items that the calls `ops` push, in the order of the calls.
pub open spec fn pushed<T>(ops: Seq<QueueOp<T>>) -> Seq<T>
    decreases ops.len(),
{
    if ops.len() == 0 {
        Seq::empty()
    } else {
        match ops.last() {
            QueueOp::Push(item) => pushed(ops.drop_last()).push(item),
            QueueOp::Pop => pushed(ops.drop_last()),
        }
    }
}

/// `items.len()` pushes, one per item in order, followed by `pops` pops.
pub open spec fn pushes_then_pops<T>(items: Seq<T>, pops: nat) -> Seq<QueueOp<T>> {
    Seq::new(items.len(), |i: int| QueueOp::Push(items[i])) + Seq::new(
        pops,
        |i: int| QueueOp::<T>::Pop,
    )
}

/// Nothing is lost, made up or reordered: however pushes and pops are
/// interleaved, the items handed out followed by the items still held are
/// the items the queue started with followed by the items pushed, in push
/// order. So the count of items removed plus the count held is the count
/// ever put in.
pub proof fn lemma_run_keeps_order<T>(start: Seq<T>, ops: Seq<QueueOp<T>>)
    ensures
        run(start, ops).returned + run(start, ops).held == start + pushed(ops),
        run(start, ops).returned.len() + run(start, ops).held.len() == start.len() + pushed(
            ops,
        ).len(),
    decreases ops.len(),
{
    if ops.len() > 0 {
        lemma_run_keeps_order(start, ops.drop_last());
        let before = run(start, ops.drop_last());
        let after = run(start, ops);
        if let QueueOp::Push(item) = ops.last() {
            assert(after.returned + after.held == (before.returned + before.held).push(item));
        }
    }
}

/// FIFO: on a fresh queue, pushes followed by pops return the items in
/// push order. After `pops` pops, with no more pops than items, the first
/// `pops` items have come out in order and the others are still held.
pub proof fn lemma_fifo<T>(items: Seq<T>, pops: nat)
    requires
        pops <= items.len(),
    ensures
        run(Seq::empty(), pushes_then_pops(items, pops)).returned == items.take(pops as int),
        run(Seq::empty(), pushes_then_pops(items, pops)).held == items.skip(pops as int),
    decreases pops, items.len(),
{
    let ops = pushes_then_pops(items, pops);
    if pops > 0 {
        assert(ops.drop_last() == pushes_then_pops(items, (pops - 1) as nat));
        lemma_fifo(items, (pops - 1) as nat);
    } else if items.len() > 0 {
        assert(ops.drop_last() == pushes_then_pops(items.drop_last(), 0));
        lemma_fifo(items.drop_last(), 0);
    }
}

} // verus!
