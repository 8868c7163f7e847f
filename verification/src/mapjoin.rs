//! The join barrier of a batch: one outcome per input, handed back in the
//! order of the inputs.

use std::collections::HashMap;
use vstd::prelude::*;

verus! {

broadcast use vstd::std_specs::hash::group_hash_axioms;

/// What a [`MapJoin`] holds, as plain values.
pub struct Barrier<S> {
    /// The outcomes that have landed, by the index of their input.
    pub results: Map<usize, S>,
    /// The size of the batch.
    pub count: nat,
    /// Whether `join` has handed the outcomes out.
    pub drained: bool,
}

impl<S> Barrier<S> {
    /// The barrier of a batch of `count` inputs, before any outcome.
    pub open spec fn fresh(count: nat) -> Barrier<S> {
        Barrier { results: Map::empty(), count, drained: false }
    }

    /// Every index that holds an outcome belongs to the batch.
    pub open spec fn wf(self) -> bool {
        &&& self.results.dom().finite()
        &&& forall|index: usize| self.results.contains_key(index) ==> index < self.count
    }

    /// Every input of the batch has its outcome.
    pub open spec fn complete(self) -> bool {
        forall|index: usize| index < self.count ==> self.results.contains_key(index)
    }

    /// The outcomes in the order of the inputs.
    pub open spec fn ordered(self) -> Seq<S> {
        Seq::new(self.count, |i: int| self.results[i as usize])
    }

    /// Whether `record` takes an outcome for `index`: the index belongs to
    /// the batch, has no outcome yet, and the barrier is not drained.
    pub open spec fn accepts(self, index: usize) -> bool {
        !self.drained && index < self.count && !self.results.contains_key(index)
    }

    /// The barrier after `record(index, outcome)`.
    pub open spec fn record(self, index: usize, outcome: S) -> Barrier<S> {
        if self.accepts(index) {
            Barrier {
                results: self.results.insert(index, outcome),
                count: self.count,
                drained: self.drained,
            }
        } else {
            self
        }
    }

    /// Whether the batch is over: the count has been reached, or the
    /// outcomes have been handed out already.
    pub open spec fn finished(self) -> bool {
        self.drained || self.results.len() == self.count
    }

    /// The barrier after a `join` that handed the outcomes out.
    pub open spec fn drain(self) -> Barrier<S> {
        Barrier { results: Map::empty(), count: self.count, drained: true }
    }
}

/// Why `join` hands out nothing.
#[derive(Debug, PartialEq, Eq, Clone, Copy)]
pub enum JoinError {
    /// Some outcome has not landed yet: wait and ask again.
    Pending,
    /// An earlier `join` has taken the outcomes.
    Drained,
}

/// The join barrier of one batch.
pub struct MapJoin<S> {
    map: HashMap<usize, S>,
    args_size: usize,
    drained: bool,
}

impl<S> View for MapJoin<S> {
    type V = Barrier<S>;

    closed spec fn view(&self) -> Barrier<S> {
        Barrier { results: self.map@, count: self.args_size as nat, drained: self.drained }
    }
}

impl<S> MapJoin<S> {
    /// The barrier of a batch of `args_size` inputs, with the outcomes in
    /// `map` already landed.
    pub fn new(map: HashMap<usize, S>, args_size: usize) -> (barrier: Self)
        requires
            forall|index: usize| map@.contains_key(index) ==> index < args_size,
        ensures
            barrier@ == (Barrier { results: map@, count: args_size as nat, drained: false }),
            barrier@.wf(),
    {
        MapJoin { map, args_size, drained: false }
    }

    /// Stores the outcome of input `index`. Each index of the batch is
    /// taken once; an outcome for an index outside the batch, a second
    /// outcome for one index, or one that comes after the drain is handed
    /// back and changes nothing.
    pub fn record(&mut self, index: usize, outcome: S) -> (refused: Result<(), S>)
        ensures
            final(self)@ == old(self)@.record(index, outcome),
            old(self)@.wf() ==> final(self)@.wf(),
            old(self)@.accepts(index) ==> refused.is_ok(),
            !old(self)@.accepts(index) ==> refused == Err::<(), S>(outcome),
    {
        if self.drained || index >= self.args_size || self.map.contains_key(&index) {
            Err(outcome)
        } else {
            self.map.insert(index, outcome);
            Ok(())
        }
    }

    /// Whether the batch is over, without draining.
    pub fn is_finished(&self) -> (finished: bool)
        ensures
            finished == self@.finished(),
    {
        self.drained || self.map.len() == self.args_size
    }

    /// Hands out the outcomes in the order of the inputs, once all have
    /// landed, and leaves the barrier drained. Before that it reports
    /// `Pending` and changes nothing; after the drain it reports `Drained`.
    pub fn join(&mut self) -> (outcomes: Result<Vec<S>, JoinError>)
        requires
            old(self)@.wf(),
        ensures
            final(self)@.wf(),
            old(self)@.drained ==> outcomes == Err::<Vec<S>, JoinError>(JoinError::Drained)
                && final(self)@ == old(self)@,
            !old(self)@.drained && !old(self)@.complete() ==> outcomes == Err::<
                Vec<S>,
                JoinError,
            >(JoinError::Pending) && final(self)@ == old(self)@,
            !old(self)@.drained && old(self)@.complete() ==> outcomes.is_ok()
                && outcomes.unwrap()@ == old(self)@.ordered() && final(self)@ == old(
                self,
            )@.drain(),
    {
        if self.drained {
            return Err(JoinError::Drained);
        }
        proof {
            lemma_count_reached(self.map@.dom(), self.args_size);
        }
        if self.map.len() != self.args_size {
            return Err(JoinError::Pending);
        }
        let mut outcomes: Vec<S> = Vec::new();
        let mut key: usize = 0;
        while key < self.args_size
            invariant
                key <= self.args_size,
                self.args_size == old(self).args_size,
                self.drained == old(self).drained,
                outcomes@.len() == key,
                forall|i: int| 0 <= i < key ==> outcomes@[i] == old(self).map@[i as usize],
                forall|index: usize|
                    self.map@.contains_key(index) <==> key <= index < self.args_size,
                forall|index: usize|
                    key <= index < self.args_size ==> self.map@[index] == old(self).map@[index],
            decreases self.args_size - key,
        {
            let outcome = self.map.remove(&key);
            outcomes.push(outcome.unwrap());
            key = key + 1;
        }
        self.drained = true;
        assert(self.map@ =~= Map::<usize, S>::empty());
        Ok(outcomes)
    }
}

/// A set of indices below `bound` has at most `bound` members, and has
/// `bound` members exactly when it holds every index below `bound`.
pub proof fn lemma_count_reached(indices: Set<usize>, bound: usize)
    requires
        indices.finite(),
        forall|index: usize| indices.contains(index) ==> index < bound,
    ensures
        indices.len() <= bound,
        indices.len() == bound <==> forall|index: usize| index < bound ==> indices.contains(index),
    decreases bound,
{
    if bound == 0 {
        assert(indices =~= Set::<usize>::empty());
    } else {
        let top = (bound - 1) as usize;
        let rest = indices.remove(top);
        lemma_count_reached(rest, top);
        if indices.len() == bound {
            assert forall|index: usize| index < bound implies indices.contains(index) by {
                assert(index != top ==> rest.contains(index));
            }
        }
        if forall|index: usize| index < bound ==> indices.contains(index) {
            assert(forall|index: usize| index < top ==> rest.contains(index));
        }
    }
}

/// Until the drain, the batch is over exactly when every input has its
/// outcome: a `join` that follows an `is_finished` that said yes hands the
/// outcomes out.
pub proof fn lemma_finished_is_complete<S>(barrier: Barrier<S>)
    requires
        barrier.wf(),
        barrier.count <= usize::MAX,
        !barrier.drained,
    ensures
        barrier.finished() <==> barrier.complete(),
{
    lemma_count_reached(barrier.results.dom(), barrier.count as usize);
}

/// The barrier after the outcomes of the inputs `order[0]`, `order[1]`, and
/// so on have been recorded in that order; `outcomes[i]` is the outcome of
/// input `i`.
pub open spec fn recorded<S>(start: Barrier<S>, order: Seq<usize>, outcomes: Seq<S>) -> Barrier<S>
    decreases order.len(),
{
    if order.len() == 0 {
        start
    } else {
        recorded(start, order.drop_last(), outcomes).record(
            order.last(),
            outcomes[order.last() as int],
        )
    }
}

proof fn lemma_recorded_prefix<S>(order: Seq<usize>, outcomes: Seq<S>)
    requires
        order.no_duplicates(),
        forall|j: int| 0 <= j < order.len() ==> order[j] < outcomes.len(),
    ensures
        ({
            let barrier = recorded(Barrier::fresh(outcomes.len()), order, outcomes);
            &&& barrier.count == outcomes.len()
            &&& !barrier.drained
            &&& barrier.results.dom() == order.to_set()
            &&& forall|index: usize|
                barrier.results.contains_key(index) ==> barrier.results[index]
                    == outcomes[index as int]
        }),
    decreases order.len(),
{
    let barrier = recorded(Barrier::fresh(outcomes.len()), order, outcomes);
    if order.len() > 0 {
        let earlier = order.drop_last();
        let last = order.last();
        lemma_recorded_prefix(earlier, outcomes);
        assert(!earlier.contains(last)) by {
            if earlier.contains(last) {
                let j = choose|j: int| 0 <= j < earlier.len() && earlier[j] == last;
                assert(order[j] == order[order.len() - 1]);
            }
        }
        assert(order.to_set() =~= earlier.to_set().insert(last)) by {
            assert forall|index: usize| order.to_set().contains(index) implies earlier.to_set().contains(
                index,
            ) || index == last by {
                let j = choose|j: int| 0 <= j < order.len() && order[j] == index;
                assert(j < order.len() - 1 ==> earlier[j] == index);
            }
            assert forall|index: usize| earlier.to_set().contains(index) implies order.to_set().contains(
                index,
            ) by {
                let j = choose|j: int| 0 <= j < earlier.len() && earlier[j] == index;
                assert(order[j] == index);
            }
            assert(order[order.len() - 1] == last);
        }
        assert(barrier.results.dom() =~= order.to_set());
    }
}

/// The order of a batch is kept whatever the order of completion: when
/// each input's outcome has been recorded once, in any order, the barrier
/// is complete and `join` hands out `outcomes`, the outcome of input `i` at
/// position `i`.
pub proof fn lemma_join_keeps_input_order<S>(order: Seq<usize>, outcomes: Seq<S>)
    requires
        order.len() == outcomes.len(),
        outcomes.len() <= usize::MAX,
        order.no_duplicates(),
        forall|j: int| 0 <= j < order.len() ==> order[j] < outcomes.len(),
    ensures
        ({
            let barrier = recorded(Barrier::fresh(outcomes.len()), order, outcomes);
            &&& barrier.wf()
            &&& !barrier.drained
            &&& barrier.complete()
            &&& barrier.finished()
            &&& barrier.ordered() == outcomes
        }),
{
    let barrier = recorded(Barrier::fresh(outcomes.len()), order, outcomes);
    lemma_recorded_prefix(order, outcomes);
    order.unique_seq_to_set();
    assert forall|index: usize| barrier.results.contains_key(index) implies index
        < barrier.count by {
        let j = choose|j: int| 0 <= j < order.len() && order[j] == index;
        assert(order[j] < outcomes.len());
    }
    lemma_count_reached(barrier.results.dom(), outcomes.len() as usize);
}

} // verus!
