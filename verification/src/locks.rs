//! The alarm: where threads park until they are released.

use crate::pool::{Pool, PoolState};
use std::collections::HashSet;
use vstd::prelude::*;

verus! {

broadcast use vstd::std_specs::hash::group_hash_axioms;

/// What an [`Alarm`] holds, as plain values. Threads are named by number.
pub struct AlarmState {
    /// Set by `buzz`, and never cleared: every thread may pass.
    pub released: bool,
    /// The threads that are parked at the alarm.
    pub waiting: Set<u64>,
    /// The threads that `wake` has released and that have not yet passed.
    pub marked: Set<u64>,
}

impl AlarmState {
    /// An alarm that nobody waits at and nobody has released.
    pub open spec fn fresh() -> AlarmState {
        AlarmState { released: false, waiting: Set::empty(), marked: Set::empty() }
    }

    /// Whether thread `me` may pass: `buzz` was called, or `me` is marked.
    pub open spec fn passes(self, me: u64) -> bool {
        self.released || self.marked.contains(me)
    }

    /// Thread `me` arrives at the alarm, or wakes up at it. If it may pass
    /// it leaves and uses up its mark; else it is parked.
    pub open spec fn set(self, me: u64) -> AlarmState {
        if self.passes(me) {
            AlarmState {
                released: self.released,
                waiting: self.waiting.remove(me),
                marked: self.marked.remove(me),
            }
        } else {
            AlarmState {
                released: self.released,
                waiting: self.waiting.insert(me),
                marked: self.marked,
            }
        }
    }

    /// Every thread may pass from now on, parked or yet to come.
    pub open spec fn buzz(self) -> AlarmState {
        AlarmState { released: true, waiting: self.waiting, marked: self.marked }
    }

    /// The threads in `threads` are marked, and no others.
    pub open spec fn wake(self, threads: Set<u64>) -> AlarmState {
        AlarmState {
            released: self.released,
            waiting: self.waiting,
            marked: self.marked.union(threads),
        }
    }
}

/// What `set_in_pool` tells the calling worker.
#[derive(Debug, PartialEq, Eq, Clone, Copy)]
pub enum Parking {
    /// The worker is released and goes on.
    Pass,
    /// The worker parks, and calls again when it is woken. Before it parks
    /// it starts a thread for the worker `stand_in`, if there is one, and
    /// pokes one idle worker where `poke` is set.
    Park { stand_in: Option<u64>, poke: bool },
}

/// What a worker of a pool is told at the alarm. `me` names the thread at
/// the alarm, `worker` is its number in the pool. A worker that may not
/// pass parks. One that may pass goes on only when the pool does not hold
/// it as parked: a blocked worker is first marked ready, and then waits
/// for the hand-off that releases it.
pub open spec fn parking<J, A>(
    alarm: AlarmState,
    pool: PoolState<J, A>,
    me: u64,
    worker: u64,
) -> Parking {
    if !alarm.passes(me) {
        Parking::Park {
            stand_in: if pool.can_block(worker) {
                Some(pool.next_id as u64)
            } else {
                None
            },
            poke: false,
        }
    } else if pool.blocked.contains_key(worker) {
        Parking::Park { stand_in: None, poke: true }
    } else if pool.is_pending(worker) {
        Parking::Park { stand_in: None, poke: false }
    } else {
        Parking::Pass
    }
}

/// The alarm after a worker of a pool has come to it: as after `set`,
/// except that a worker that the pool holds as parked does not leave.
pub open spec fn alarm_after<J, A>(
    alarm: AlarmState,
    pool: PoolState<J, A>,
    me: u64,
    worker: u64,
) -> AlarmState {
    if alarm.passes(me) && pool.asleep(worker) {
        alarm
    } else {
        alarm.set(me)
    }
}

/// The pool after one of its workers has come to the alarm: a worker that
/// parks is registered as blocked at `handle`, and a blocked worker that
/// may pass is marked ready.
pub open spec fn pool_after<J, A>(
    alarm: AlarmState,
    pool: PoolState<J, A>,
    me: u64,
    worker: u64,
    handle: A,
) -> PoolState<J, A> {
    if !alarm.passes(me) {
        pool.register_block(worker, handle)
    } else {
        pool.mark_ready(worker)
    }
}

/// A place to wait and be notified. `set` decides whether the calling
/// thread parks, `buzz` releases all threads, `wake` chosen ones.
pub struct Alarm {
    released: bool,
    using: HashSet<u64>,
    ring: HashSet<u64>,
}

impl View for Alarm {
    type V = AlarmState;

    closed spec fn view(&self) -> AlarmState {
        AlarmState { released: self.released, waiting: self.using@, marked: self.ring@ }
    }
}

impl Alarm {
    /// An alarm that nobody waits at and nobody has released.
    pub fn new() -> (alarm: Self)
        ensures
            alarm@ == AlarmState::fresh(),
    {
        Alarm { released: false, using: HashSet::new(), ring: HashSet::new() }
    }

    /// Thread `me` arrives at the alarm, or comes back to it after a wake-up.
    /// Returns whether `me` has to park: it does unless `buzz` was called or
    /// `me` is marked. A release that came before the arrival is seen here,
    /// so it is not lost; a wake-up without a release parks `me` again.
    pub fn set(&mut self, me: u64) -> (park: bool)
        ensures
            park == !old(self)@.passes(me),
            final(self)@ == old(self)@.set(me),
    {
        let marked = self.ring.remove(&me);
        if marked || self.released {
            self.using.remove(&me);
            false
        } else {
            self.using.insert(me);
            assert(self.ring@ =~= old(self).ring@);
            true
        }
    }

    /// `set` for a thread that is worker `worker` of `pool`, with `handle`
    /// the handle by which the pool will release this alarm. Besides the
    /// alarm's decision, the pool's registries are kept: see [`parking`].
    pub fn set_in_pool<J, A>(
        &mut self,
        me: u64,
        pool: &mut Pool<J, A>,
        worker: u64,
        handle: A,
    ) -> (told: Parking)
        requires
            old(pool)@.wf(),
        ensures
            final(pool)@.wf(),
            told == parking(old(self)@, old(pool)@, me, worker),
            final(self)@ == alarm_after(old(self)@, old(pool)@, me, worker),
            final(pool)@ == pool_after(old(self)@, old(pool)@, me, worker, handle),
    {
        if !(self.released || self.ring.contains(&me)) {
            self.using.insert(me);
            match pool.register_block(worker, handle) {
                Ok(id) => Parking::Park { stand_in: Some(id), poke: false },
                Err(_) => Parking::Park { stand_in: None, poke: false },
            }
        } else if pool.mark_ready(worker) {
            Parking::Park { stand_in: None, poke: true }
        } else if pool.is_pending(worker) {
            Parking::Park { stand_in: None, poke: false }
        } else {
            self.set(me);
            Parking::Pass
        }
    }

    /// Releases every thread, parked or yet to come. The caller then wakes
    /// all parked threads. A second call changes nothing.
    pub fn buzz(&mut self)
        ensures
            final(self)@ == old(self)@.buzz(),
    {
        self.released = true;
    }

    /// Marks the threads in `threads` as released. The caller then wakes
    /// all parked threads; those that are not marked park again.
    pub fn wake(&mut self, threads: HashSet<u64>)
        ensures
            final(self)@ == old(self)@.wake(threads@),
    {
        for thread in iter: threads.iter()
            invariant
                self.released == old(self).released,
                self.using@ == old(self).using@,
                iter.seq().unref().to_set() == threads@,
                forall|id: u64|
                    self.ring@.contains(id) <==> old(self).ring@.contains(id) || exists|j: int|
                        0 <= j < iter.index() && *iter.seq()[j] == id,
                iter.index() == iter.seq().len() ==> self.ring@ =~= old(self).ring@.union(threads@),
        {
            self.ring.insert(*thread);
            proof {
                let keys = iter.seq();
                assert forall|id: u64| threads@.contains(id) <==> exists|j: int|
                    0 <= j < keys.len() && *keys[j] == id by {
                    if threads@.contains(id) {
                        let j = choose|j: int| 0 <= j < keys.unref().len() && keys.unref()[j] == id;
                        assert(*keys[j] == id);
                    }
                    if exists|j: int| 0 <= j < keys.len() && *keys[j] == id {
                        let j = choose|j: int| 0 <= j < keys.len() && *keys[j] == id;
                        assert(keys.unref()[j] == id);
                    }
                }
            }
        }
    }

    /// Whether `buzz` was called.
    pub fn is_released(&self) -> (released: bool)
        ensures
            released == self@.released,
    {
        self.released
    }

    /// Whether thread `id` is parked at the alarm.
    pub fn is_waiting(&self, id: u64) -> (waiting: bool)
        ensures
            waiting == self@.waiting.contains(id),
    {
        self.using.contains(&id)
    }
}

/// No lost wake-up: whatever the alarm held, after `buzz` a `set` by any
/// thread does not park, nor does one by the threads after it.
pub proof fn lemma_no_lost_wakeup(alarm: AlarmState, me: u64)
    ensures
        alarm.buzz().passes(me),
        alarm.buzz().set(me).released,
        !alarm.buzz().set(me).waiting.contains(me),
{
}

/// `buzz` is idempotent, and a release of an alarm that nobody waits at
/// is kept for the threads to come.
pub proof fn lemma_buzz_idempotent(alarm: AlarmState, me: u64)
    ensures
        alarm.buzz().buzz() == alarm.buzz(),
        AlarmState::fresh().buzz().passes(me),
{
}

/// A thread that `wake` has marked passes once, also if the mark came
/// before the thread did; `wake` lets no thread pass that it did not name.
pub proof fn lemma_wake_releases_the_named(alarm: AlarmState, threads: Set<u64>, me: u64)
    ensures
        threads.contains(me) ==> alarm.wake(threads).passes(me),
        !threads.contains(me) ==> alarm.wake(threads).passes(me) == alarm.passes(me),
        !alarm.released ==> !alarm.wake(threads).set(me).passes(me),
{
}

/// A thread that wakes up without having been released is parked again,
/// and the alarm is as it was while the thread slept.
pub proof fn lemma_spurious_wakeup_parks_again(alarm: AlarmState, me: u64)
    requires
        !alarm.passes(me),
    ensures
        !alarm.set(me).passes(me),
        alarm.set(me).waiting.contains(me),
        alarm.set(me).set(me) == alarm.set(me),
{
    assert(alarm.waiting.insert(me).insert(me) =~= alarm.waiting.insert(me));
}

/// A worker that has to park is held as blocked, with the handle it gave,
/// and waits at the alarm; its stand-in is live. This holds where the pool
/// can register it: see [`PoolState::can_block`].
pub proof fn lemma_parked_worker_is_registered<J, A>(
    alarm: AlarmState,
    pool: PoolState<J, A>,
    me: u64,
    worker: u64,
    handle: A,
)
    requires
        pool.wf(),
        !alarm.passes(me),
        pool.can_block(worker),
    ensures
        alarm_after(alarm, pool, me, worker).waiting.contains(me),
        pool_after(alarm, pool, me, worker, handle).blocked.contains_key(worker),
        pool_after(alarm, pool, me, worker, handle).blocked[worker] == handle,
        pool_after(alarm, pool, me, worker, handle).live.contains(pool.next_id as u64),
        parking(alarm, pool, me, worker) == (Parking::Park {
            stand_in: Some(pool.next_id as u64),
            poke: false,
        }),
{
}

/// No lost wake-up inside a pool: a worker that is not parked and comes
/// to the alarm after `buzz` goes on at once, and the pool registers
/// nothing for it.
pub proof fn lemma_no_lost_wakeup_in_pool<J, A>(
    alarm: AlarmState,
    pool: PoolState<J, A>,
    me: u64,
    worker: u64,
    handle: A,
)
    requires
        !pool.asleep(worker),
    ensures
        parking(alarm.buzz(), pool, me, worker) == Parking::Pass,
        pool_after(alarm.buzz(), pool, me, worker, handle) == pool,
{
}

/// A blocked worker leaves the alarm through a hand-off only. After
/// `buzz` it is marked ready and stays parked, however often it
/// wakes; after the hand-off that claims it, it goes on.
pub proof fn lemma_released_worker_waits_for_hand_off<J, A>(
    alarm: AlarmState,
    pool: PoolState<J, A>,
    me: u64,
    worker: u64,
    handle: A,
    helper: u64,
)
    requires
        pool.wf(),
        pool.blocked.contains_key(worker),
        pool.pending == 0,
        pool.can_hand_off_after(worker, helper),
    ensures
        ({
            let open = alarm.buzz();
            let ready = pool_after(open, pool, me, worker, handle);
            let resumed = ready.hand_off(helper);
            &&& parking(open, pool, me, worker) == Parking::Park { stand_in: None, poke: true }
            &&& ready == pool.mark_ready(worker)
            &&& parking(open, ready, me, worker) == Parking::Park { stand_in: None, poke: false }
            &&& pool_after(open, ready, me, worker, handle) == ready
            &&& ready.can_hand_off(helper)
            &&& ready.resuming.first().0 == worker
            &&& parking(open, resumed, me, worker) == Parking::Pass
        }),
{
    let ready = pool.mark_ready(worker);
    assert(ready.resuming.last().0 == worker);
    assert(!ready.is_pending(helper));
}

} // verus!
