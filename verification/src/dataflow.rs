//! The engine as its driver sees it: facts are said at the time of the
//! session, the session's time moves on, a flush hands both to the engine,
//! and the engine takes in one closed time after the other. Its frontier
//! is the least time for which it may still derive labels.

use vstd::prelude::*;
use crate::engine::{
    explicit_settles_within, minsum_settles_within, resume_explicit, resume_monoid, sssp, sssp_monoid,
    sssp_monoid_within, sssp_within, DistanceLabels,
};
use crate::error::GraphError;
use crate::facts::{live_edges, live_graph, live_roots, Datum, Fact};
use crate::fixpoint::{label_of, Labels};
use crate::graph::{num_nodes_from_edge_list, Node, Weight, WeightedEdge};
use crate::paths::is_distance_map;
use crate::semiring::Distance;
use crate::support::keep_supported;

verus! {

/// The two ways to derive the distances.
#[derive(Clone, Copy, Debug, PartialEq, Eq, Structural)]
pub enum Formulation {
    /// Labels are pairs of a node and a weight; each round keeps the least
    /// candidate of every node.
    Explicit,
    /// Labels are values of the min-plus semiring in one variable that is
    /// fed back; each round combines into it what improves on it.
    MinSum,
}

/// The facts that were said before `time`, in their order.
pub open spec fn facts_before(facts: Seq<Fact>, time: u32) -> Seq<Fact>
    decreases facts.len(),
{
    if facts.len() == 0 {
        Seq::empty()
    } else if facts.last().time < time {
        facts_before(facts.drop_last(), time).push(facts.last())
    } else {
        facts_before(facts.drop_last(), time)
    }
}

/// No fact was said before an earlier one.
pub open spec fn in_time_order(facts: Seq<Fact>) -> bool {
    forall|i: int, j: int| 0 <= i <= j < facts.len() ==> (#[trigger] facts[i]).time <= (#[trigger] facts[j]).time
}

/// The time that the engine takes in next: that of the first fact at or
/// after the frontier, if it lies before the time of the input.
pub open spec fn pending_epoch(facts: Seq<Fact>, frontier: u32, input_time: u32) -> Option<u32> {
    let absorbed = facts_before(facts, frontier).len() as int;
    if absorbed < facts.len() && facts[absorbed].time < input_time {
        Some(facts[absorbed].time)
    } else {
        None
    }
}

/// What an engine holds.
pub struct EngineState {
    pub formulation: Formulation,
    /// The most rounds that one fixpoint may take, if any number is set.
    pub max_rounds: Option<u32>,
    /// The time at which facts are said.
    pub session_time: u32,
    /// The time up to which the engine has been told of the session.
    pub input_time: u32,
    /// The least time for which labels may still be derived.
    pub frontier: u32,
    /// The facts said since the last flush.
    pub staged: Seq<Fact>,
    /// The facts that the engine has been handed.
    pub facts: Seq<Fact>,
    /// The labels as of the frontier.
    pub labels: Labels,
}

/// `labels` are the distances in the graph of the facts said before
/// `frontier`.
pub open spec fn labels_as_of(facts: Seq<Fact>, frontier: u32, labels: Labels) -> bool {
    is_distance_map(
        live_edges(facts_before(facts, frontier)),
        live_roots(facts_before(facts, frontier)),
        labels,
    )
}

/// The fixpoint over the facts said before `frontier` is reached within
/// the rounds that `max_rounds` allows.
pub open spec fn settles(formulation: Formulation, max_rounds: Option<u32>, facts: Seq<Fact>, frontier: u32) -> bool {
    match max_rounds {
        None => true,
        Some(rounds) => match formulation {
            Formulation::Explicit => explicit_settles_within(
                live_edges(facts_before(facts, frontier)),
                live_roots(facts_before(facts, frontier)),
                rounds as nat,
            ),
            Formulation::MinSum => minsum_settles_within(
                live_edges(facts_before(facts, frontier)),
                live_roots(facts_before(facts, frontier)),
                rounds as nat,
            ),
        },
    }
}

/// Where the facts said before `time` are the first `split` facts, they
/// are all that `facts_before` keeps.
pub proof fn lemma_facts_before(facts: Seq<Fact>, time: u32, split: int)
    requires
        0 <= split <= facts.len(),
        forall|i: int| 0 <= i < split ==> (#[trigger] facts[i]).time < time,
        forall|i: int| split <= i < facts.len() ==> (#[trigger] facts[i]).time >= time,
    ensures
        facts_before(facts, time) == facts.take(split),
    decreases facts.len(),
{
    if facts.len() > 0 {
        let shorter = facts.drop_last();
        if split == facts.len() {
            lemma_facts_before(shorter, time, split - 1);
        } else {
            lemma_facts_before(shorter, time, split);
        }
    }
}

/// The engine, with the handles of its input.
pub struct Engine {
    formulation: Formulation,
    max_rounds: Option<u32>,
    session_time: u32,
    input_time: u32,
    frontier: u32,
    staged: Vec<Fact>,
    facts: Vec<Fact>,
    /// The number of facts that were said before the frontier.
    absorbed: usize,
    /// The live edges and roots as of the frontier.
    graph_edges: Vec<WeightedEdge>,
    graph_roots: Vec<Node>,
    labels: DistanceLabels,
}

impl View for Engine {
    type V = EngineState;

    closed spec fn view(&self) -> EngineState {
        EngineState {
            formulation: self.formulation,
            max_rounds: self.max_rounds,
            session_time: self.session_time,
            input_time: self.input_time,
            frontier: self.frontier,
            staged: self.staged@,
            facts: self.facts@,
            labels: self.labels@,
        }
    }
}

impl Engine {
    /// What holds of every engine: its times are in order, so are its facts,
    /// and its labels are the distances as of its frontier.
    pub closed spec fn inv(&self) -> bool {
        &&& self.frontier <= self.input_time <= self.session_time
        &&& self.absorbed <= self.facts@.len()
        &&& in_time_order(self.facts@)
        &&& in_time_order(self.staged@)
        &&& forall|i: int| 0 <= i < self.facts@.len() ==> (#[trigger] self.facts@[i]).time <= self.input_time
        &&& forall|i: int|
            0 <= i < self.staged@.len() ==> self.input_time <= (#[trigger] self.staged@[i]).time
                <= self.session_time
        &&& forall|i: int| 0 <= i < self.absorbed ==> (#[trigger] self.facts@[i]).time < self.frontier
        &&& forall|i: int|
            self.absorbed <= i < self.facts@.len() ==> (#[trigger] self.facts@[i]).time >= self.frontier
        &&& self.graph_edges@ == live_edges(self.facts@.take(self.absorbed as int))
        &&& self.graph_roots@ == live_roots(self.facts@.take(self.absorbed as int))
        &&& labels_as_of(self.facts@, self.frontier, self.labels@)
    }

    /// What `inv` says to the outside.
    pub proof fn lemma_inv(&self)
        requires
            self.inv(),
        ensures
            self@.frontier <= self@.input_time <= self@.session_time,
            in_time_order(self@.facts),
            in_time_order(self@.staged),
            labels_as_of(self@.facts, self@.frontier, self@.labels),
            forall|i: int| 0 <= i < self@.facts.len() ==> (#[trigger] self@.facts[i]).time <= self@.input_time,
            forall|i: int|
                0 <= i < self@.staged.len() ==> self@.input_time <= (#[trigger] self@.staged[i]).time
                    <= self@.session_time,
    {
    }

    /// An engine at time 0 that has heard no fact. Its fixpoints take as
    /// many rounds as they need.
    pub fn new(formulation: Formulation) -> (engine: Engine)
        ensures
            engine.inv(),
            engine@ == (EngineState {
                formulation,
                max_rounds: None,
                session_time: 0,
                input_time: 0,
                frontier: 0,
                staged: Seq::empty(),
                facts: Seq::empty(),
                labels: Map::empty(),
            }),
    {
        Engine {
            formulation,
            max_rounds: None,
            session_time: 0,
            input_time: 0,
            frontier: 0,
            staged: Vec::new(),
            facts: Vec::new(),
            absorbed: 0,
            graph_edges: Vec::new(),
            graph_roots: Vec::new(),
            labels: DistanceLabels::new(),
        }
    }

    /// An engine like a new one, but each of its fixpoints gives up after
    /// `max_rounds` rounds.
    pub fn bounded(formulation: Formulation, max_rounds: u32) -> (engine: Engine)
        ensures
            engine.inv(),
            engine@ == (EngineState {
                formulation,
                max_rounds: Some(max_rounds),
                session_time: 0,
                input_time: 0,
                frontier: 0,
                staged: Seq::empty(),
                facts: Seq::empty(),
                labels: Map::empty(),
            }),
    {
        Engine {
            formulation,
            max_rounds: Some(max_rounds),
            session_time: 0,
            input_time: 0,
            frontier: 0,
            staged: Vec::new(),
            facts: Vec::new(),
            absorbed: 0,
            graph_edges: Vec::new(),
            graph_roots: Vec::new(),
            labels: DistanceLabels::new(),
        }
    }

    /// Says `datum` with `multiplicity` at the time of the session.
    pub fn update(&mut self, datum: Datum, multiplicity: i64)
        requires
            old(self).inv(),
        ensures
            final(self).inv(),
            final(self)@ == (EngineState {
                staged: old(self)@.staged.push(Fact { datum, time: old(self)@.session_time, multiplicity }),
                ..old(self)@
            }),
    {
        let fact = Fact { datum, time: self.session_time, multiplicity };
        self.staged.push(fact);
    }

    /// Says at the time of the session that `node` is a root.
    pub fn insert_root(&mut self, node: Node)
        requires
            old(self).inv(),
        ensures
            final(self).inv(),
            final(self)@ == (EngineState {
                staged: old(self)@.staged.push(
                    Fact { datum: Datum::Root(node), time: old(self)@.session_time, multiplicity: 1 },
                ),
                ..old(self)@
            }),
    {
        self.update(Datum::Root(node), 1);
    }

    /// Takes back at the time of the session that `node` is a root.
    pub fn retract_root(&mut self, node: Node)
        requires
            old(self).inv(),
        ensures
            final(self).inv(),
            final(self)@ == (EngineState {
                staged: old(self)@.staged.push(
                    Fact { datum: Datum::Root(node), time: old(self)@.session_time, multiplicity: -1i64 },
                ),
                ..old(self)@
            }),
    {
        self.update(Datum::Root(node), -1);
    }

    /// Says at the time of the session that an edge of `weight` leads from
    /// `from` to `to`.
    pub fn insert_edge(&mut self, from: Node, to: Node, weight: Weight)
        requires
            old(self).inv(),
        ensures
            final(self).inv(),
            final(self)@ == (EngineState {
                staged: old(self)@.staged.push(
                    Fact {
                        datum: Datum::Edge((from, to, weight)),
                        time: old(self)@.session_time,
                        multiplicity: 1,
                    },
                ),
                ..old(self)@
            }),
    {
        self.update(Datum::Edge((from, to, weight)), 1);
    }

    /// Takes back at the time of the session that an edge of `weight` leads
    /// from `from` to `to`.
    pub fn retract_edge(&mut self, from: Node, to: Node, weight: Weight)
        requires
            old(self).inv(),
        ensures
            final(self).inv(),
            final(self)@ == (EngineState {
                staged: old(self)@.staged.push(
                    Fact {
                        datum: Datum::Edge((from, to, weight)),
                        time: old(self)@.session_time,
                        multiplicity: -1i64,
                    },
                ),
                ..old(self)@
            }),
    {
        self.update(Datum::Edge((from, to, weight)), -1);
    }

    /// Moves the session on to `time`: no more facts will be said before
    /// it. Time does not run backwards.
    pub fn advance_to(&mut self, time: u32) -> (result: Result<(), GraphError>)
        requires
            old(self).inv(),
        ensures
            final(self).inv(),
            time < old(self)@.session_time ==> result == Err::<(), GraphError>(GraphError::Sequence) && final(self)@ == old(self)@,
            time >= old(self)@.session_time ==> result is Ok && final(self)@ == (EngineState {
                session_time: time,
                ..old(self)@
            }),
    {
        if time < self.session_time {
            return Err(GraphError::Sequence);
        }
        self.session_time = time;
        Ok(())
    }

    /// Hands the engine the facts said since the last flush, and the time
    /// of the session.
    pub fn flush(&mut self)
        requires
            old(self).inv(),
        ensures
            final(self).inv(),
            final(self)@ == (EngineState {
                facts: old(self)@.facts + old(self)@.staged,
                staged: Seq::empty(),
                input_time: old(self)@.session_time,
                ..old(self)@
            }),
    {
        let ghost facts_before_flush = self.facts@;
        self.facts.append(&mut self.staged);
        self.input_time = self.session_time;
        proof {
            let all = self.facts@;
            lemma_facts_before(all, self.frontier, self.absorbed as int);
            lemma_facts_before(facts_before_flush, self.frontier, self.absorbed as int);
            assert(all.take(self.absorbed as int) =~= facts_before_flush.take(self.absorbed as int));
        }
    }

    /// The time at which facts are said.
    pub fn time(&self) -> (time: u32)
        ensures
            time == self@.session_time,
    {
        self.session_time
    }

    /// The least time for which labels may still be derived.
    pub fn frontier(&self) -> (frontier: u32)
        ensures
            frontier == self@.frontier,
    {
        self.frontier
    }

    /// Whether labels may still be derived for a time before `time`.
    pub fn less_than(&self, time: u32) -> (behind: bool)
        ensures
            behind == (self@.frontier < time),
    {
        self.frontier < time
    }

    /// The labels as of the frontier.
    pub fn distances(&self) -> (labels: &DistanceLabels)
        requires
            self.inv(),
        ensures
            labels@ == self@.labels,
            labels_as_of(self@.facts, self@.frontier, labels@),
    {
        &self.labels
    }

    /// The distance of `node` as of the frontier, if the roots reach it.
    pub fn distance(&self, node: Node) -> (distance: Option<Distance>)
        requires
            self.inv(),
        ensures
            label_of(self@.labels, node) == match distance {
                Some(value) => Some(value as nat),
                None => None,
            },
            labels_as_of(self@.facts, self@.frontier, self@.labels),
    {
        self.labels.get(node)
    }

    /// Takes in the next time: where a fact was said at or after the
    /// frontier and before the time of the input, the engine derives the
    /// labels as of the end of that fact's time, and its frontier comes to
    /// lie just after it. Where there is no such fact, nothing is left to
    /// derive, and the frontier comes to lie at the time of the input.
    ///
    /// The labels are not derived afresh: a label whose shortest walk lost
    /// neither its root nor an edge to the facts of that time stays, and
    /// the rounds go on from the labels that stay. Only an engine whose
    /// rounds are counted starts from nothing, so that the count means the
    /// same at every time; where the rounds allowed do not suffice, it
    /// stays as it is.
    pub fn step(&mut self) -> (result: Result<Option<u32>, GraphError>)
        requires
            old(self).inv(),
        ensures
            final(self).inv(),
            match pending_epoch(old(self)@.facts, old(self)@.frontier, old(self)@.input_time) {
                None => result == Ok::<Option<u32>, GraphError>(None) && final(self)@ == (EngineState {
                    frontier: old(self)@.input_time,
                    ..old(self)@
                }),
                Some(epoch) => if settles(
                    old(self)@.formulation,
                    old(self)@.max_rounds,
                    old(self)@.facts,
                    (epoch + 1) as u32,
                ) {
                    result == Ok::<Option<u32>, GraphError>(Some(epoch)) && final(self)@ == (EngineState {
                        frontier: (epoch + 1) as u32,
                        labels: final(self)@.labels,
                        ..old(self)@
                    })
                } else {
                    result == Err::<Option<u32>, GraphError>(GraphError::ConvergenceStall) && final(self)@ == old(self)@
                },
            },
            labels_as_of(final(self)@.facts, final(self)@.frontier, final(self)@.labels),
    {
        proof {
            lemma_facts_before(self.facts@, self.frontier, self.absorbed as int);
        }
        if self.absorbed < self.facts.len() && self.facts[self.absorbed].time < self.input_time {
            let epoch = self.facts[self.absorbed].time;
            let mut end = self.absorbed;
            while end < self.facts.len() && self.facts[end].time == epoch
                invariant
                    self.absorbed <= end <= self.facts@.len(),
                    forall|i: int| self.absorbed <= i < end ==> (#[trigger] self.facts@[i]).time == epoch,
                decreases self.facts@.len() - end,
            {
                end += 1;
            }
            proof {
                let all = self.facts@;
                lemma_facts_before(all, (epoch + 1) as u32, end as int);
            }
            let (edges, roots) = live_graph(&self.facts, end);
            let labels = match self.max_rounds {
                None => {
                    let kept = keep_supported(&self.graph_edges, &self.graph_roots, &self.labels, &edges, &roots);
                    let scale = num_nodes_from_edge_list(&self.graph_edges);
                    let resumed = match self.formulation {
                        Formulation::Explicit => resume_explicit(&edges, &roots, kept, scale),
                        Formulation::MinSum => resume_monoid(&edges, &roots, kept, scale),
                    };
                    match resumed {
                        Some(labels) => labels,
                        None => match self.formulation {
                            Formulation::Explicit => sssp(&edges, &roots),
                            Formulation::MinSum => sssp_monoid(&edges, &roots),
                        },
                    }
                },
                Some(rounds) => {
                    let derived = match self.formulation {
                        Formulation::Explicit => sssp_within(&edges, &roots, rounds),
                        Formulation::MinSum => sssp_monoid_within(&edges, &roots, rounds),
                    };
                    match derived {
                        Ok(labels) => labels,
                        Err(error) => {
                            return Err(error);
                        },
                    }
                },
            };
            self.labels = labels;
            self.graph_edges = edges;
            self.graph_roots = roots;
            self.absorbed = end;
            self.frontier = epoch + 1;
            Ok(Some(epoch))
        } else {
            proof {
                let all = self.facts@;
                lemma_facts_before(all, self.input_time, self.absorbed as int);
            }
            self.frontier = self.input_time;
            Ok(None)
        }
    }
}

} // verus!
