//! The frontiers of the workers: a time is quiescent once every worker has
//! moved beyond it.

use vstd::prelude::*;
use crate::error::GraphError;

verus! {

/// Every one of `frontiers` lies beyond `time`.
pub open spec fn all_beyond(frontiers: Seq<u32>, time: u32) -> bool {
    forall|worker: int| 0 <= worker < frontiers.len() ==> #[trigger] frontiers[worker] > time
}

/// The least of `frontiers`, if there is any.
pub open spec fn least_frontier(frontiers: Seq<u32>) -> Option<u32>
    decreases frontiers.len(),
{
    if frontiers.len() == 0 {
        None
    } else {
        match least_frontier(frontiers.drop_last()) {
            Some(least) if least <= frontiers.last() => Some(least),
            _ => Some(frontiers.last()),
        }
    }
}

/// The time at which the updates of round `round` are said, and the time
/// to which the session moves on after them: the initial graph is said at
/// time 0, and every round takes one time of its own.
pub open spec fn round_times(round: u32) -> Option<(u32, u32)> {
    if round <= u32::MAX - 2 {
        Some(((round + 1) as u32, (round + 2) as u32))
    } else {
        None
    }
}

/// The times of round `round`, if there are times left for it.
pub fn times_of_round(round: u32) -> (times: Option<(u32, u32)>)
    ensures
        times == round_times(round),
{
    if round <= u32::MAX - 2 {
        Some((round + 1, round + 2))
    } else {
        None
    }
}

/// The frontier of each of a fixed number of workers.
pub struct EpochSynchronizer {
    frontiers: Vec<u32>,
}

impl View for EpochSynchronizer {
    type V = Seq<u32>;

    closed spec fn view(&self) -> Seq<u32> {
        self.frontiers@
    }
}

impl EpochSynchronizer {
    /// `workers` workers, each with its frontier at time 0.
    pub fn new(workers: usize) -> (synchronizer: EpochSynchronizer)
        ensures
            synchronizer@ == Seq::new(workers as nat, |worker: int| 0u32),
    {
        let mut frontiers: Vec<u32> = Vec::new();
        let mut i: usize = 0;
        while i < workers
            invariant
                i <= workers,
                frontiers@ == Seq::new(i as nat, |worker: int| 0u32),
            decreases workers - i,
        {
            frontiers.push(0);
            i += 1;
        }
        EpochSynchronizer { frontiers }
    }

    /// The number of workers.
    pub fn workers(&self) -> (workers: usize)
        ensures
            workers == self@.len(),
    {
        self.frontiers.len()
    }

    /// Notes that `worker` has moved its frontier to `frontier`. There is
    /// no such move for a worker that is none, nor backwards.
    pub fn advance(&mut self, worker: usize, frontier: u32) -> (result: Result<(), GraphError>)
        ensures
            worker < old(self)@.len() && old(self)@[worker as int] <= frontier ==> result is Ok && final(self)@
                == old(self)@.update(worker as int, frontier),
            !(worker < old(self)@.len() && old(self)@[worker as int] <= frontier) ==> result == Err::<
                (),
                GraphError,
            >(GraphError::Sequence) && final(self)@ == old(self)@,
    {
        if worker >= self.frontiers.len() {
            return Err(GraphError::Sequence);
        }
        if frontier < self.frontiers[worker] {
            return Err(GraphError::Sequence);
        }
        self.frontiers[worker] = frontier;
        Ok(())
    }

    /// Whether every worker has moved beyond `time`, so that all that
    /// follows from the facts said up to `time` has been derived.
    pub fn is_quiescent(&self, time: u32) -> (quiescent: bool)
        ensures
            quiescent == all_beyond(self@, time),
    {
        let mut i: usize = 0;
        while i < self.frontiers.len()
            invariant
                i <= self.frontiers@.len(),
                forall|worker: int| 0 <= worker < i ==> #[trigger] self.frontiers@[worker] > time,
            decreases self.frontiers@.len() - i,
        {
            if self.frontiers[i] <= time {
                return false;
            }
            i += 1;
        }
        true
    }

    /// The least time for which some worker may still derive labels.
    pub fn frontier(&self) -> (least: Option<u32>)
        ensures
            least == least_frontier(self@),
    {
        let mut least: Option<u32> = None;
        let mut i: usize = 0;
        while i < self.frontiers.len()
            invariant
                i <= self.frontiers@.len(),
                least == least_frontier(self.frontiers@.take(i as int)),
            decreases self.frontiers@.len() - i,
        {
            let frontier = self.frontiers[i];
            proof {
                assert(self.frontiers@.take(i + 1).drop_last() =~= self.frontiers@.take(i as int));
            }
            least = match least {
                Some(held) => if held <= frontier {
                    Some(held)
                } else {
                    Some(frontier)
                },
                None => Some(frontier),
            };
            i += 1;
        }
        proof {
            assert(self.frontiers@.take(i as int) =~= self.frontiers@);
        }
        least
    }
}

/// The least frontier is one of the frontiers, and none lies before it;
/// so a time is quiescent exactly when it lies before the least frontier.
pub proof fn lemma_least_frontier(frontiers: Seq<u32>, time: u32)
    ensures
        match least_frontier(frontiers) {
            Some(least) => all_beyond(frontiers, time) <==> least > time,
            None => frontiers.len() == 0,
        },
    decreases frontiers.len(),
{
    if frontiers.len() > 0 {
        let shorter = frontiers.drop_last();
        lemma_least_frontier(shorter, time);
        assert forall|worker: int| 0 <= worker < shorter.len() implies shorter[worker] == frontiers[worker] by {}
    }
}

} // verus!
