//! The pool's registries and the hand-off protocol that keeps its
//! concurrency at the target while workers are parked.

use crate::mapjoin::{Barrier, MapJoin};
use crate::queue::Queue;
use std::collections::{HashMap, HashSet, VecDeque};
use vstd::prelude::*;

verus! {

broadcast use vstd::std_specs::hash::group_hash_axioms;

/// What a [`Pool`] holds, as plain values. Workers are named by number;
/// `J` is a task, `A` the handle of an alarm.
pub struct PoolState<J, A> {
    /// The number of workers the pool was made with.
    pub target: nat,
    /// The live workers.
    pub live: Set<u64>,
    /// The workers parked at an alarm, each with its alarm.
    pub blocked: Map<u64, A>,
    /// The workers marked ready to resume, each with its alarm, oldest
    /// first. They stay parked until a hand-off releases them.
    pub resuming: Seq<(u64, A)>,
    /// The count of pending resumptions.
    pub pending: nat,
    /// The number that the next worker gets.
    pub next_id: nat,
    /// The tasks waiting for a worker, oldest first.
    pub tasks: Seq<J>,
}

impl<J, A> PoolState<J, A> {
    /// A pool of `target` workers, numbered from 0, with nothing to do.
    pub open spec fn start(target: nat) -> PoolState<J, A> {
        PoolState {
            target,
            live: Set::new(|id: u64| id < target),
            blocked: Map::empty(),
            resuming: Seq::empty(),
            pending: 0,
            next_id: target,
            tasks: Seq::empty(),
        }
    }

    /// Whether a resumption of `worker` is pending.
    pub open spec fn is_pending(self, worker: u64) -> bool {
        exists|i: int| 0 <= i < self.resuming.len() && (#[trigger] self.resuming[i]).0 == worker
    }

    /// Whether `worker` is parked: it is blocked, or marked ready and not
    /// yet released by a hand-off.
    pub open spec fn asleep(self, worker: u64) -> bool {
        self.blocked.contains_key(worker) || self.is_pending(worker)
    }

    /// The invariant of the registries. Only live workers are parked, and
    /// none is parked twice; the count of pending resumptions is the
    /// length of their queue; and there is one live worker for each worker
    /// of the target, plus one stand-in for each worker that is parked.
    pub open spec fn wf(self) -> bool {
        &&& self.live.finite()
        &&& self.blocked.dom().finite()
        &&& self.blocked.dom().subset_of(self.live)
        &&& forall|i: int|
            0 <= i < self.resuming.len() ==> self.live.contains((#[trigger] self.resuming[i]).0)
                && !self.blocked.contains_key(self.resuming[i].0)
        &&& forall|i: int, j: int|
            0 <= i < j < self.resuming.len() ==> (#[trigger] self.resuming[i]).0
                != (#[trigger] self.resuming[j]).0
        &&& self.pending == self.resuming.len()
        &&& self.live.len() == self.target + self.blocked.len() + self.resuming.len()
        &&& forall|id: u64| self.live.contains(id) ==> id < self.next_id
        &&& self.next_id <= u64::MAX
    }

    /// The workers that can take tasks: the live ones that are not parked.
    pub open spec fn active(self) -> Set<u64> {
        Set::new(|worker: u64| self.live.contains(worker) && !self.asleep(worker))
    }

    /// Whether worker `me` can be registered as blocked: it is live, not
    /// parked already, and a number is left for its stand-in.
    pub open spec fn can_block(self, me: u64) -> bool {
        self.live.contains(me) && !self.asleep(me) && self.next_id < u64::MAX
    }

    /// Worker `me` parks at `alarm`, and a stand-in with the next number
    /// joins the live workers.
    pub open spec fn register_block(self, me: u64, alarm: A) -> PoolState<J, A> {
        if self.can_block(me) {
            PoolState {
                live: self.live.insert(self.next_id as u64),
                blocked: self.blocked.insert(me, alarm),
                next_id: self.next_id + 1,
                ..self
            }
        } else {
            self
        }
    }

    /// The blocked worker `id` is marked ready to resume: it leaves the
    /// blocked registry and its alarm joins the pending resumptions.
    pub open spec fn mark_ready(self, id: u64) -> PoolState<J, A> {
        if self.blocked.contains_key(id) {
            PoolState {
                blocked: self.blocked.remove(id),
                resuming: self.resuming.push((id, self.blocked[id])),
                pending: self.pending + 1,
                ..self
            }
        } else {
            self
        }
    }

    /// Whether worker `me` can perform a hand-off: a resumption is pending,
    /// and `me` is a live worker that is not parked.
    pub open spec fn can_hand_off(self, me: u64) -> bool {
        self.pending > 0 && self.live.contains(me) && !self.asleep(me)
    }

    /// Whether `helper` is a live worker that runs, and another than
    /// `worker`: it can hand off once a resumption of `worker` is pending.
    pub open spec fn can_hand_off_after(self, worker: u64, helper: u64) -> bool {
        self.live.contains(helper) && !self.asleep(helper) && helper != worker
    }

    /// Worker `me` claims the oldest pending resumption and retires; the
    /// worker it claimed is no longer parked.
    pub open spec fn hand_off(self, me: u64) -> PoolState<J, A> {
        if self.can_hand_off(me) {
            PoolState {
                live: self.live.remove(me),
                resuming: self.resuming.drop_first(),
                pending: (self.pending - 1) as nat,
                ..self
            }
        } else {
            self
        }
    }

    /// The tasks `jobs` join the queue, in their order.
    pub open spec fn submit(self, jobs: Seq<J>) -> PoolState<J, A> {
        PoolState { tasks: self.tasks + jobs, ..self }
    }

    /// The oldest task, if there is one, leaves the queue.
    pub open spec fn fetch(self) -> PoolState<J, A> {
        if self.tasks.len() > 0 {
            PoolState { tasks: self.tasks.drop_first(), ..self }
        } else {
            self
        }
    }
}

/// The registries of a worker pool and its task queue.
pub struct Pool<J, A> {
    target: usize,
    threads: HashSet<u64>,
    blocked: HashMap<u64, A>,
    resuming: VecDeque<(u64, A)>,
    pending: usize,
    next_id: u64,
    tasks: Queue<J>,
}

impl<J, A> View for Pool<J, A> {
    type V = PoolState<J, A>;

    closed spec fn view(&self) -> PoolState<J, A> {
        PoolState {
            target: self.target as nat,
            live: self.threads@,
            blocked: self.blocked@,
            resuming: self.resuming@,
            pending: self.pending as nat,
            next_id: self.next_id as nat,
            tasks: self.tasks@,
        }
    }
}

impl<J, A> Pool<J, A> {
    /// A pool of `thread_ammount` workers, numbered from 0. The caller
    /// starts one thread for each.
    pub fn new(thread_ammount: usize) -> (pool: Self)
        ensures
            pool@ == PoolState::<J, A>::start(thread_ammount as nat),
            pool@.wf(),
    {
        let mut pool = Pool {
            target: thread_ammount,
            threads: HashSet::new(),
            blocked: HashMap::new(),
            resuming: VecDeque::new(),
            pending: 0,
            next_id: 0,
            tasks: Queue::default(),
        };
        let mut spawned: usize = 0;
        while spawned < thread_ammount
            invariant
                spawned <= thread_ammount,
                pool.target == thread_ammount,
                pool.next_id == spawned,
                pool.pending == 0,
                pool.blocked@ == Map::<u64, A>::empty(),
                pool.resuming@ == Seq::<(u64, A)>::empty(),
                pool.tasks@ == Seq::<J>::empty(),
                pool.threads@.finite(),
                pool.threads@.len() == spawned,
                forall|id: u64| pool.threads@.contains(id) <==> id < spawned,
            decreases thread_ammount - spawned,
        {
            pool.spawn();
            spawned = spawned + 1;
        }
        assert(pool.threads@ =~= Set::new(|id: u64| id < thread_ammount as nat));
        pool
    }

    /// Registers one more live worker under the next number and returns
    /// the number, or `None` when the numbers have run out.
    fn spawn(&mut self) -> (id: Option<u64>)
        requires
            old(self).threads@.finite(),
            forall|id: u64| old(self).threads@.contains(id) ==> id < old(self).next_id,
        ensures
            old(self).next_id == u64::MAX ==> id.is_none() && *final(self) == *old(self),
            old(self).next_id < u64::MAX ==> {
                &&& id == Some(old(self).next_id)
                &&& *final(self) == (Pool {
                    threads: final(self).threads,
                    next_id: (old(self).next_id + 1) as u64,
                    ..*old(self)
                })
                &&& final(self).threads@ == old(self).threads@.insert(old(self).next_id)
                &&& final(self).threads@.len() == old(self).threads@.len() + 1
            },
    {
        if self.next_id == u64::MAX {
            None
        } else {
            let id = self.next_id;
            self.threads.insert(id);
            self.next_id = id + 1;
            Some(id)
        }
    }

    /// Whether `id` is a live worker of this pool.
    pub fn within_pool(&self, id: u64) -> (within: bool)
        ensures
            within == self@.live.contains(id),
    {
        self.threads.contains(&id)
    }

    /// Takes the oldest waiting task, if there is one.
    pub fn fetch_task(&mut self) -> (task: Option<J>)
        ensures
            final(self)@ == old(self)@.fetch(),
            old(self)@.tasks.len() == 0 ==> task.is_none(),
            old(self)@.tasks.len() > 0 ==> task == Some(old(self)@.tasks.first()),
    {
        self.tasks.try_pop()
    }

    /// A pool sized to the machine: as many workers as `parallelism`
    /// reports, and one where it reports nothing.
    pub fn default(parallelism: Option<usize>) -> (pool: Self)
        ensures
            pool@ == PoolState::<J, A>::start(
                match parallelism {
                    Some(cores) => cores as nat,
                    None => 1,
                },
            ),
            pool@.wf(),
    {
        let core_count = match parallelism {
            Some(value) => value,
            None => 1,
        };
        Self::new(core_count)
    }

    /// The number of workers the pool was made with.
    pub fn target(&self) -> (target: usize)
        ensures
            target == self@.target,
    {
        self.target
    }

    /// The number of live workers.
    pub fn live_count(&self) -> (count: usize)
        ensures
            count == self@.live.len(),
    {
        self.threads.len()
    }

    /// The count of pending resumptions: a worker checks it before it
    /// takes a task.
    pub fn pending(&self) -> (count: usize)
        ensures
            count == self@.pending,
    {
        self.pending
    }

    /// Whether worker `id` is held as blocked.
    pub fn is_blocked(&self, id: u64) -> (blocked: bool)
        ensures
            blocked == self@.blocked.contains_key(id),
    {
        self.blocked.contains_key(&id)
    }

    /// Whether a resumption of worker `id` is pending.
    pub fn is_pending(&self, id: u64) -> (pending: bool)
        ensures
            pending == self@.is_pending(id),
    {
        let mut at: usize = 0;
        while at < self.resuming.len()
            invariant
                at <= self.resuming@.len(),
                forall|i: int| 0 <= i < at ==> (#[trigger] self.resuming@[i]).0 != id,
            decreases self.resuming@.len() - at,
        {
            if self.resuming[at].0 == id {
                assert(0 <= at < self@.resuming.len() && self@.resuming[at as int].0 == id);
                return true;
            }
            at = at + 1;
        }
        false
    }

    /// Whether worker `id` is parked, blocked or pending.
    pub fn is_asleep(&self, id: u64) -> (asleep: bool)
        ensures
            asleep == self@.asleep(id),
    {
        self.blocked.contains_key(&id) || self.is_pending(id)
    }

    /// Registers worker `me` as blocked at `alarm`, and a stand-in for it
    /// among the live workers. Returns the stand-in's number: the caller
    /// starts a thread for it. Where `me` cannot be registered (it is no
    /// live worker, it is parked already, or the numbers have run out) the
    /// alarm is handed back and nothing changes.
    pub fn register_block(&mut self, me: u64, alarm: A) -> (stand_in: Result<u64, A>)
        requires
            old(self)@.wf(),
        ensures
            final(self)@.wf(),
            final(self)@ == old(self)@.register_block(me, alarm),
            old(self)@.can_block(me) ==> stand_in == Ok::<u64, A>(old(self)@.next_id as u64),
            !old(self)@.can_block(me) ==> stand_in == Err::<u64, A>(alarm),
    {
        if !self.threads.contains(&me) || self.is_asleep(me) || self.next_id == u64::MAX {
            return Err(alarm);
        }
        proof {
            lemma_register_block_keeps_wf(self@, me, alarm);
        }
        self.blocked.insert(me, alarm);
        let id = self.spawn();
        Ok(id.unwrap())
    }

    /// Marks the blocked worker `id` ready to resume: it leaves the blocked
    /// registry, and joins the pending resumptions with its alarm. Returns
    /// whether it did; the caller then pokes one idle worker. For a worker
    /// that is not blocked nothing changes.
    pub fn mark_ready(&mut self, id: u64) -> (marked: bool)
        requires
            old(self)@.wf(),
        ensures
            final(self)@.wf(),
            final(self)@ == old(self)@.mark_ready(id),
            marked == old(self)@.blocked.contains_key(id),
    {
        proof {
            lemma_mark_ready_keeps_wf(self@, id);
            assert(self.threads@.len() == self.threads.len());
        }
        match self.blocked.remove(&id) {
            None => {
                assert(self.blocked@ =~= old(self).blocked@);
                false
            },
            Some(alarm) => {
                self.resuming.push_back((id, alarm));
                self.pending = self.pending + 1;
                true
            },
        }
    }

    /// The hand-off: worker `me` claims the oldest pending resumption and
    /// retires from the live workers. Returns the worker to release and
    /// its alarm; the caller releases it and ends its own thread. Where no
    /// resumption is pending, or `me` is not a live worker that runs,
    /// nothing changes.
    pub fn hand_off(&mut self, me: u64) -> (claimed: Option<(u64, A)>)
        requires
            old(self)@.wf(),
        ensures
            final(self)@.wf(),
            final(self)@ == old(self)@.hand_off(me),
            old(self)@.can_hand_off(me) ==> claimed == Some(old(self)@.resuming.first()),
            !old(self)@.can_hand_off(me) ==> claimed.is_none(),
    {
        if self.pending == 0 || !self.threads.contains(&me) || self.is_asleep(me) {
            return None;
        }
        proof {
            lemma_hand_off_keeps_wf(self@, me);
        }
        self.pending = self.pending - 1;
        let claimed = self.resuming.pop_front();
        self.remove_self(me);
        claimed
    }

    /// Scatters a batch: makes one task for each input, from the input and
    /// its index, queues the tasks in the order of the inputs, and returns
    /// the barrier that gathers one outcome for each.
    pub fn map<T, S, F: Fn(usize, T) -> J>(&mut self, make: F, args: Vec<T>) -> (handle: MapJoin<
        S,
    >)
        requires
            forall|i: int|
                0 <= i < args@.len() ==> call_requires(make, (i as usize, #[trigger] args@[i])),
        ensures
            handle@ == Barrier::<S>::fresh(args@.len()),
            old(self)@.wf() ==> final(self)@.wf(),
            final(self)@.tasks.len() == old(self)@.tasks.len() + args@.len(),
            final(self)@ == old(self)@.submit(
                final(self)@.tasks.skip(old(self)@.tasks.len() as int),
            ),
            forall|i: int|
                0 <= i < args@.len() ==> call_ensures(
                    make,
                    (i as usize, args@[i]),
                    #[trigger] final(self)@.tasks[old(self)@.tasks.len() + i],
                ),
    {
        let args_size = args.len();
        let mut n: usize = 0;
        for arg in iter: args
            invariant
                n == iter.index(),
                iter.seq() == args@,
                args@.len() == args_size,
                *self == (Pool { tasks: self.tasks, ..*old(self) }),
                self.tasks@.len() == old(self).tasks@.len() + n,
                self.tasks@.take(old(self).tasks@.len() as int) == old(self).tasks@,
                forall|i: int|
                    0 <= i < args@.len() ==> call_requires(
                        make,
                        (i as usize, #[trigger] args@[i]),
                    ),
                forall|i: int|
                    0 <= i < n ==> call_ensures(
                        make,
                        (i as usize, args@[i]),
                        #[trigger] self.tasks@[old(self).tasks@.len() + i],
                    ),
        {
            let task = make(n, arg);
            self.tasks.push(task);
            n = n + 1;
        }
        proof {
            let before = old(self).tasks@;
            assert(self.tasks@ =~= self.tasks@.take(before.len() as int) + self.tasks@.skip(
                before.len() as int,
            ));
        }
        MapJoin::new(HashMap::new(), args_size)
    }

    /// Takes worker `me` out of the live workers.
    fn remove_self(&mut self, me: u64)
        ensures
            *final(self) == (Pool { threads: final(self).threads, ..*old(self) }),
            final(self).threads@ == old(self).threads@.remove(me),
    {
        self.threads.remove(&me);
    }
}

/// Registering a block keeps the invariant.
pub proof fn lemma_register_block_keeps_wf<J, A>(state: PoolState<J, A>, me: u64, alarm: A)
    requires
        state.wf(),
    ensures
        state.register_block(me, alarm).wf(),
{
    if state.can_block(me) {
        let after = state.register_block(me, alarm);
        assert(after.blocked.dom() =~= state.blocked.dom().insert(me));
        assert forall|i: int| 0 <= i < after.resuming.len() implies !after.blocked.contains_key(
            (#[trigger] after.resuming[i]).0,
        ) by {
            assert(state.resuming[i].0 != me);
        }
    }
}

/// Marking a worker ready keeps the invariant.
pub proof fn lemma_mark_ready_keeps_wf<J, A>(state: PoolState<J, A>, id: u64)
    requires
        state.wf(),
    ensures
        state.mark_ready(id).wf(),
{
    if state.blocked.contains_key(id) {
        let after = state.mark_ready(id);
        assert(after.blocked.dom() =~= state.blocked.dom().remove(id));
        assert forall|i: int| 0 <= i < after.resuming.len() implies after.live.contains(
            (#[trigger] after.resuming[i]).0,
        ) && !after.blocked.contains_key(after.resuming[i].0) by {
            assert(i < state.resuming.len() ==> after.resuming[i] == state.resuming[i]);
        }
        assert forall|i: int, j: int| 0 <= i < j < after.resuming.len() implies (
        #[trigger] after.resuming[i]).0 != (#[trigger] after.resuming[j]).0 by {
            assert(after.resuming[i] == state.resuming[i]);
            assert(j < state.resuming.len() ==> after.resuming[j] == state.resuming[j]);
        }
    }
}

/// A hand-off keeps the invariant.
pub proof fn lemma_hand_off_keeps_wf<J, A>(state: PoolState<J, A>, me: u64)
    requires
        state.wf(),
    ensures
        state.hand_off(me).wf(),
{
    if state.can_hand_off(me) {
        let after = state.hand_off(me);
        assert forall|i: int| 0 <= i < after.resuming.len() implies after.live.contains(
            (#[trigger] after.resuming[i]).0,
        ) && !after.blocked.contains_key(after.resuming[i].0) by {
            assert(after.resuming[i] == state.resuming[i + 1]);
        }
        assert forall|i: int, j: int| 0 <= i < j < after.resuming.len() implies (
        #[trigger] after.resuming[i]).0 != (#[trigger] after.resuming[j]).0 by {
            assert(after.resuming[i] == state.resuming[i + 1]);
            assert(after.resuming[j] == state.resuming[j + 1]);
        }
    }
}

/// One call on a pool.
pub enum PoolOp<J, A> {
    /// A batch scatters these tasks.
    Submit(Seq<J>),
    /// A worker takes the oldest task.
    Fetch,
    /// This worker parks at this alarm.
    Block(u64, A),
    /// This worker is marked ready to resume.
    Ready(u64),
    /// This worker tries a hand-off.
    HandOff(u64),
}

/// The pool after one call.
pub open spec fn apply<J, A>(state: PoolState<J, A>, op: PoolOp<J, A>) -> PoolState<J, A> {
    match op {
        PoolOp::Submit(jobs) => state.submit(jobs),
        PoolOp::Fetch => state.fetch(),
        PoolOp::Block(me, alarm) => state.register_block(me, alarm),
        PoolOp::Ready(id) => state.mark_ready(id),
        PoolOp::HandOff(me) => state.hand_off(me),
    }
}

/// The pool after the calls `ops`, made in order.
pub open spec fn run<J, A>(state: PoolState<J, A>, ops: Seq<PoolOp<J, A>>) -> PoolState<J, A>
    decreases ops.len(),
{
    if ops.len() == 0 {
        state
    } else {
        apply(run(state, ops.drop_last()), ops.last())
    }
}

/// A pool that has just been made meets the invariant, and its live
/// workers are as many as its target.
pub proof fn lemma_start_wf<J, A>(target: nat)
    requires
        target <= u64::MAX,
    ensures
        PoolState::<J, A>::start(target).wf(),
        PoolState::<J, A>::start(target).live.len() == target,
    decreases target,
{
    let state = PoolState::<J, A>::start(target);
    if target == 0 {
        assert(state.live =~= Set::<u64>::empty());
    } else {
        let fewer = PoolState::<J, A>::start((target - 1) as nat);
        lemma_start_wf::<J, A>((target - 1) as nat);
        assert(state.live =~= fewer.live.insert((target - 1) as u64));
    }
}

/// Every call keeps the invariant, and so does every run of calls.
pub proof fn lemma_run_keeps_wf<J, A>(state: PoolState<J, A>, ops: Seq<PoolOp<J, A>>)
    requires
        state.wf(),
    ensures
        run(state, ops).wf(),
    decreases ops.len(),
{
    if ops.len() > 0 {
        lemma_run_keeps_wf(state, ops.drop_last());
        let before = run(state, ops.drop_last());
        match ops.last() {
            PoolOp::Submit(jobs) => {},
            PoolOp::Fetch => {},
            PoolOp::Block(me, alarm) => lemma_register_block_keeps_wf(before, me, alarm),
            PoolOp::Ready(id) => lemma_mark_ready_keeps_wf(before, id),
            PoolOp::HandOff(me) => lemma_hand_off_keeps_wf(before, me),
        }
    }
}

/// Conservation of concurrency: while no worker parks, whatever tasks are
/// queued and taken and whatever else is tried, the live workers of a pool
/// made with `target` workers are those it started with, `target` in all.
pub proof fn lemma_live_workers_constant<J, A>(target: nat, ops: Seq<PoolOp<J, A>>)
    requires
        target <= u64::MAX,
        forall|i: int| 0 <= i < ops.len() ==> !(#[trigger] ops[i] is Block),
    ensures
        run(PoolState::start(target), ops).live == PoolState::<J, A>::start(target).live,
        run(PoolState::start(target), ops).live.len() == target,
        run(PoolState::start(target), ops).blocked == Map::<u64, A>::empty(),
        run(PoolState::start(target), ops).pending == 0,
    decreases ops.len(),
{
    lemma_start_wf::<J, A>(target);
    if ops.len() > 0 {
        let earlier = ops.drop_last();
        assert forall|i: int| 0 <= i < earlier.len() implies !(#[trigger] earlier[i] is Block) by {
            assert(earlier[i] == ops[i]);
        }
        lemma_live_workers_constant(target, earlier);
        assert(!(ops.last() is Block));
    }
}

/// In a pool that meets the invariant, the workers that can take tasks
/// are as many as the target; and when no worker is parked, so are the
/// live workers.
pub proof fn lemma_active_count<J, A>(state: PoolState<J, A>)
    requires
        state.wf(),
    ensures
        state.active().finite(),
        state.active().len() == state.target,
        state.blocked.len() == 0 && state.pending == 0 ==> state.live.len() == state.target,
{
    let ids = state.resuming.map_values(|entry: (u64, A)| entry.0);
    let pending = ids.to_set();
    let parked = state.blocked.dom() + pending;
    assert forall|worker: u64| state.is_pending(worker) <==> pending.contains(worker) by {
        if state.is_pending(worker) {
            let i = choose|i: int|
                0 <= i < state.resuming.len() && (#[trigger] state.resuming[i]).0 == worker;
            assert(ids[i] == worker);
        }
        if pending.contains(worker) {
            let i = choose|i: int| 0 <= i < ids.len() && ids[i] == worker;
            assert(state.resuming[i].0 == worker);
        }
    }
    assert(ids.no_duplicates());
    ids.unique_seq_to_set();
    assert(state.blocked.dom().disjoint(pending));
    vstd::set_lib::lemma_set_disjoint_lens(state.blocked.dom(), pending);
    assert(parked.subset_of(state.live));
    vstd::set_lib::lemma_set_difference_len(state.live, parked);
    assert(state.live.intersect(parked) =~= parked);
    assert(state.active() =~= state.live.difference(parked));
}

/// Hand-off conservation: whatever the workers of a pool made with
/// `target` workers do, park, get marked ready, hand off, in any order and
/// number, the workers that can take tasks are `target` at every moment:
/// a stand-in makes up for each parked worker, and each resumed worker
/// takes the place of one that retires. Once no worker is parked, the
/// live workers are `target` again.
pub proof fn lemma_hand_off_conservation<J, A>(target: nat, ops: Seq<PoolOp<J, A>>)
    requires
        target <= u64::MAX,
    ensures
        run(PoolState::<J, A>::start(target), ops).wf(),
        run(PoolState::<J, A>::start(target), ops).target == target,
        run(PoolState::<J, A>::start(target), ops).active().len() == target,
        ({
            let state = run(PoolState::<J, A>::start(target), ops);
            state.blocked.len() == 0 && state.pending == 0 ==> state.live.len() == target
        }),
{
    lemma_start_wf::<J, A>(target);
    lemma_run_keeps_wf(PoolState::<J, A>::start(target), ops);
    lemma_run_keeps_target(PoolState::<J, A>::start(target), ops);
    lemma_active_count(run(PoolState::<J, A>::start(target), ops));
}

proof fn lemma_run_keeps_target<J, A>(state: PoolState<J, A>, ops: Seq<PoolOp<J, A>>)
    ensures
        run(state, ops).target == state.target,
    decreases ops.len(),
{
    if ops.len() > 0 {
        lemma_run_keeps_target(state, ops.drop_last());
    }
}

/// One blocking episode: worker `me` parks at `alarm`, is marked ready,
/// and a running worker `helper` hands off. At the end the live workers
/// are as many as before, the helper is gone, `me` is live and no longer
/// parked; and where nothing was pending before, the resumption claimed
/// is that of `me`.
pub proof fn lemma_blocking_episode<J, A>(state: PoolState<J, A>, me: u64, alarm: A, helper: u64)
    requires
        state.wf(),
        state.can_block(me),
        state.live.contains(helper),
        !state.asleep(helper),
        helper != me,
    ensures
        state.register_block(me, alarm).live.len() == state.live.len() + 1,
        state.register_block(me, alarm).asleep(me),
        ({
            let parked = state.register_block(me, alarm);
            let ready = parked.mark_ready(me);
            let resumed = ready.hand_off(helper);
            &&& ready.asleep(me)
            &&& ready.can_hand_off(helper)
            &&& resumed.wf()
            &&& resumed.live.len() == state.live.len()
            &&& resumed.live.contains(me)
            &&& !resumed.live.contains(helper)
            &&& resumed.blocked == state.blocked
            &&& state.pending == 0 ==> ready.resuming.first() == (me, alarm) && resumed.pending == 0
                && !resumed.asleep(me)
        }),
{
    let parked = state.register_block(me, alarm);
    let ready = parked.mark_ready(me);
    let resumed = ready.hand_off(helper);
    lemma_register_block_keeps_wf(state, me, alarm);
    lemma_mark_ready_keeps_wf(parked, me);
    assert(ready.resuming.last() == (me, alarm));
    assert(!ready.is_pending(helper)) by {
        if ready.is_pending(helper) {
            let i = choose|i: int|
                0 <= i < ready.resuming.len() && (#[trigger] ready.resuming[i]).0 == helper;
            assert(state.resuming[i].0 == helper);
        }
    }
    lemma_hand_off_keeps_wf(ready, helper);
    assert(resumed.blocked =~= state.blocked);
}

} // verus!
