//! The observer narrows the labels down to one node and reports its
//! distance whenever it has changed.

use vstd::prelude::*;
use crate::engine::DistanceLabels;
use crate::fixpoint::{label_of, Labels};
use crate::graph::Node;
use crate::semiring::Distance;

verus! {

/// A change of the observed distance: at `time` the distance `distance`
/// came to hold (`multiplicity` +1) or ceased to hold (-1).
#[derive(Clone, Copy, Debug, PartialEq, Eq)]
pub struct Observation {
    pub distance: Distance,
    pub time: u32,
    pub multiplicity: i64,
}

/// The changes that lead from the distance `before` to the distance `now`,
/// none where the two are the same, the smaller distance first.
pub open spec fn changes(before: Option<Distance>, now: Option<Distance>, time: u32) -> Seq<Observation> {
    match (before, now) {
        (None, None) => Seq::empty(),
        (None, Some(new)) => seq![Observation { distance: new, time, multiplicity: 1 }],
        (Some(prior), None) => seq![Observation { distance: prior, time, multiplicity: -1i64 }],
        (Some(prior), Some(new)) => if prior == new {
            Seq::empty()
        } else if new < prior {
            seq![
                Observation { distance: new, time, multiplicity: 1 },
                Observation { distance: prior, time, multiplicity: -1i64 },
            ]
        } else {
            seq![
                Observation { distance: prior, time, multiplicity: -1i64 },
                Observation { distance: new, time, multiplicity: 1 },
            ]
        },
    }
}

/// The label of `node` as an observer holds it.
pub open spec fn held(labels: Labels, node: Node) -> Option<Distance> {
    match label_of(labels, node) {
        Some(distance) => Some(distance as Distance),
        None => None,
    }
}

/// What an observer holds: the node that it watches, whether it reports at
/// all, and the distance that it saw last.
pub struct ObserverState {
    pub target: Node,
    pub inspect: bool,
    pub last: Option<Distance>,
}

/// Watches the distance of one node.
pub struct DistanceObserver {
    target: Node,
    inspect: bool,
    last: Option<Distance>,
}

impl View for DistanceObserver {
    type V = ObserverState;

    closed spec fn view(&self) -> ObserverState {
        ObserverState { target: self.target, inspect: self.inspect, last: self.last }
    }
}

impl DistanceObserver {
    /// An observer of `target` that has seen no distance yet. Unless
    /// `inspect` is set it never reports anything.
    pub fn new(target: Node, inspect: bool) -> (observer: DistanceObserver)
        ensures
            observer@ == (ObserverState { target, inspect, last: None }),
    {
        DistanceObserver { target, inspect, last: None }
    }

    /// The distance that was seen last.
    pub fn last(&self) -> (last: Option<Distance>)
        ensures
            last == self@.last,
    {
        self.last
    }

    /// Looks at the labels of `time`: reports how the distance of the
    /// target has changed since the last look, and keeps the new one. A
    /// target that the roots do not reach has no distance.
    pub fn observe(&mut self, labels: &DistanceLabels, time: u32) -> (report: Vec<Observation>)
        ensures
            old(self)@.inspect ==> report@ == changes(old(self)@.last, held(labels@, old(self)@.target), time)
                && final(self)@ == (ObserverState { last: held(labels@, old(self)@.target), ..old(self)@ }),
            !old(self)@.inspect ==> report@ == Seq::<Observation>::empty() && final(self)@ == old(self)@,
    {
        let mut report: Vec<Observation> = Vec::new();
        if !self.inspect {
            return report;
        }
        let now = labels.get(self.target);
        match (self.last, now) {
            (None, None) => {},
            (None, Some(new)) => {
                report.push(Observation { distance: new, time, multiplicity: 1 });
            },
            (Some(prior), None) => {
                report.push(Observation { distance: prior, time, multiplicity: -1 });
            },
            (Some(prior), Some(new)) => {
                if new < prior {
                    report.push(Observation { distance: new, time, multiplicity: 1 });
                    report.push(Observation { distance: prior, time, multiplicity: -1 });
                } else if prior < new {
                    report.push(Observation { distance: prior, time, multiplicity: -1 });
                    report.push(Observation { distance: new, time, multiplicity: 1 });
                }
            },
        }
        self.last = now;
        proof {
        }
        report
    }
}

} // verus!
