//! One round of a worker's loop.

use crate::pool::{Pool, PoolState};
use vstd::prelude::*;

verus! {

/// What a worker does next.
#[derive(Debug, PartialEq, Eq)]
pub enum Step<J, A> {
    /// The worker has handed off: it releases this worker at this alarm
    /// and ends.
    Retire(u64, A),
    /// The worker runs the task and asks again.
    Run(J),
    /// Nothing to do: the worker parks until a task is queued or a
    /// resumption is marked, and asks again.
    Park,
    /// The caller is no live worker of the pool: it ends.
    Stop,
}

/// The step that the pool owes worker `me`: a hand-off comes before a
/// task, and a task before parking.
pub open spec fn next_step<J, A>(state: PoolState<J, A>, me: u64) -> Step<J, A> {
    if !state.live.contains(me) {
        Step::Stop
    } else if state.can_hand_off(me) {
        Step::Retire(state.resuming.first().0, state.resuming.first().1)
    } else if state.tasks.len() > 0 {
        Step::Run(state.tasks.first())
    } else {
        Step::Park
    }
}

/// The pool after worker `me` has been given its step.
pub open spec fn after_step<J, A>(state: PoolState<J, A>, me: u64) -> PoolState<J, A> {
    if !state.live.contains(me) {
        state
    } else if state.can_hand_off(me) {
        state.hand_off(me)
    } else {
        state.fetch()
    }
}

/// One round of the loop of worker `me`: it performs a hand-off if a
/// resumption is pending, else takes the oldest task, else parks.
pub fn thread_operation<J, A>(pool: &mut Pool<J, A>, me: u64) -> (step: Step<J, A>)
    requires
        old(pool)@.wf(),
    ensures
        final(pool)@.wf(),
        final(pool)@ == after_step(old(pool)@, me),
        step == next_step(old(pool)@, me),
{
    if !pool.within_pool(me) {
        return Step::Stop;
    }
    if pool.pending() > 0 {
        match pool.hand_off(me) {
            Some(claimed) => {
                return Step::Retire(claimed.0, claimed.1);
            },
            None => {},
        }
    }
    match pool.fetch_task() {
        Some(task) => Step::Run(task),
        None => Step::Park,
    }
}

/// A round changes the pool as a hand-off by `me` or as the taking of a
/// task does, and so keeps the invariant; and the round of a worker that
/// is told to park or to stop changes nothing.
pub proof fn lemma_round_is_hand_off_or_fetch<J, A>(state: PoolState<J, A>, me: u64)
    requires
        state.wf(),
    ensures
        after_step(state, me) == state.hand_off(me) || after_step(state, me) == state.fetch(),
        after_step(state, me).wf(),
        next_step(state, me) is Park || next_step(state, me) is Stop ==> after_step(state, me)
            == state,
{
    crate::pool::lemma_hand_off_keeps_wf(state, me);
}

/// One hand-off for each pending resumption: once worker `first` has
/// claimed the only one, no worker is told to retire, and each goes on to
/// take tasks.
pub proof fn lemma_one_hand_off_per_resumption<J, A>(
    state: PoolState<J, A>,
    first: u64,
    second: u64,
)
    requires
        state.wf(),
        state.pending == 1,
        state.can_hand_off(first),
    ensures
        next_step(state, first) == Step::<J, A>::Retire(
            state.resuming.first().0,
            state.resuming.first().1,
        ),
        !(next_step(after_step(state, first), second) is Retire),
        after_step(state, first).live.contains(second) ==> after_step(
            after_step(state, first),
            second,
        ) == after_step(state, first).fetch(),
{
}

} // verus!
