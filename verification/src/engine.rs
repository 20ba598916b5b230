//! The fixpoint engine: distance labels for every node that the roots
//! reach, derived round by round until a round has nothing to add.

use std::collections::HashMap;
use vstd::prelude::*;
use vstd::set_lib::range_set_properties;
use crate::feedback::{
    edge_updates, guarded_updates, is_explicit_result, is_minsum_result, lemma_minsum_round_realized,
    lemma_no_updates_iff_settled, lemma_rooted, lemma_rounds_agree, merged, minsum_from, minsum_labels,
    minsum_round, root_updates, rooted,
};
use crate::fixpoint::{
    explicit_from, explicit_labels, explicit_round, is_realized, is_settled, label_of, labels_at_most,
    lemma_distance_map_unique, lemma_label_walk, lemma_relaxed_witness, lemma_round_realized,
    lemma_settled_iff_stable, lemma_settled_is_distance_map, lemma_settled_realized, lemma_stable_within,
    min_label, relaxed, round_label, Labels,
};
use crate::graph::{lemma_max_node_bounds, max_node, num_nodes_from_edge_list, Node, WeightedEdge};
use crate::paths::{endpoints_within, is_distance_map, lemma_weight_bound};
use crate::error::GraphError;
use crate::semiring::{Distance, MinSum};

verus! {

/// No label of a walk that comes to no node twice is larger: such a walk
/// has fewer than 2^32 edges, none heavier than `u32::MAX`.
pub open spec fn label_limit() -> nat {
    0xFFFF_FFFE_0000_0001
}

/// The distance labels of the nodes that have one.
pub struct DistanceLabels {
    table: HashMap<Node, Distance>,
}

impl View for DistanceLabels {
    type V = Map<Node, nat>;

    closed spec fn view(&self) -> Map<Node, nat> {
        Map::new(|node: Node| self.table@.contains_key(node), |node: Node| self.table@[node] as nat)
    }
}

impl DistanceLabels {
    /// No node has a label.
    pub fn new() -> (labels: DistanceLabels)
        ensures
            labels@ == Map::<Node, nat>::empty(),
    {
        DistanceLabels { table: HashMap::new() }
    }

    /// The label of `node`, if it has one.
    pub fn get(&self, node: Node) -> (label: Option<Distance>)
        ensures
            label_of(self@, node) == match label {
                Some(distance) => Some(distance as nat),
                None => None,
            },
    {
        match self.table.get(&node) {
            Some(distance) => Some(*distance),
            None => None,
        }
    }

    /// Whether `node` has a label.
    pub fn contains(&self, node: Node) -> (found: bool)
        ensures
            found == self@.contains_key(node),
    {
        self.table.contains_key(&node)
    }

    /// The number of nodes that have a label.
    pub fn len(&self) -> (count: usize)
        ensures
            self@.dom().finite(),
            count == self@.len(),
    {
        assert(self@.dom() =~= self.table@.dom());
        self.table.len()
    }

    /// Gives `node` the label `distance`, in place of the one it may have.
    pub fn set(&mut self, node: Node, distance: Distance)
        ensures
            final(self)@ == old(self)@.insert(node, distance as nat),
    {
        self.table.insert(node, distance);
    }
}

/// Every label is small enough to be extended by an edge.
pub open spec fn within_limit(labels: Labels) -> bool {
    forall|node: Node| #[trigger] labels.contains_key(node) ==> labels[node] <= label_limit()
}

/// The updates as plain pairs of a node and a value.
pub open spec fn updates_view(updates: Seq<(Node, MinSum)>) -> Seq<(Node, nat)> {
    Seq::new(updates.len(), |i: int| (updates[i].0, updates[i].1.value as nat))
}

/// A label after `rounds` rounds is at most `rounds` times the largest weight.
proof fn lemma_label_bound(edges: Seq<WeightedEdge>, roots: Seq<Node>, rounds: nat)
    requires
        rounds <= 0xFFFF_FFFF,
    ensures
        within_limit(explicit_labels(edges, roots, rounds)),
{
    assert forall|node: Node| #[trigger]
        explicit_labels(edges, roots, rounds).contains_key(node) implies explicit_labels(edges, roots, rounds)[node]
        <= label_limit() by {
        let (root, walk) = lemma_label_walk(edges, roots, rounds, node);
        lemma_weight_bound(edges, walk);
    }
}

/// The nodes up to `max_node` hold every endpoint, and there are at most
/// `max_node + 1` of them.
proof fn lemma_universe(edges: Seq<WeightedEdge>) -> (nodes: Set<Node>)
    ensures
        nodes.finite(),
        endpoints_within(edges, nodes),
        nodes.len() <= max_node(edges) + 1,
{
    let top = max_node(edges);
    let nodes = Set::<Node>::range(0, top).insert(top);
    range_set_properties::<Node>(0, top);
    assert forall|i: int| 0 <= i < edges.len() implies nodes.contains((#[trigger] edges[i]).0) && nodes.contains(
        edges[i].1,
    ) by {
        lemma_max_node_bounds(edges, i);
    }
    nodes
}

/// Before the first round the roots alone have labels, as one round from
/// no labels at all gives them.
proof fn lemma_first_round(edges: Seq<WeightedEdge>, roots: Seq<Node>)
    ensures
        explicit_round(edges, roots, Map::empty()) == explicit_labels(edges, roots, 0),
{
    let none = Map::<Node, nat>::empty();
    assert forall|node: Node| relaxed(edges, none, node, edges.len()) is None by {
        if relaxed(edges, none, node, edges.len()) is Some {
            let edge = lemma_relaxed_witness(edges, none, node, edges.len());
        }
    }
}

/// One round of the explicit formulation, and whether `labels` were
/// settled before it.
fn explicit_step(edges: &Vec<WeightedEdge>, roots: &Vec<Node>, labels: &DistanceLabels) -> (step: (
    DistanceLabels,
    bool,
))
    requires
        within_limit(labels@),
    ensures
        step.0@ == explicit_round(edges@, roots@, labels@),
        step.1 == is_settled(edges@, roots@, labels@),
{
    let mut next = DistanceLabels::new();
    let mut settled = true;
    let mut i: usize = 0;
    while i < roots.len()
        invariant
            i <= roots.len(),
            forall|node: Node|
                label_of(next@, node) == if rooted(roots@, node, i as nat) {
                    Some(0nat)
                } else {
                    None
                },
            settled == (forall|k: int|
                0 <= k < i ==> labels@.contains_key(#[trigger] roots@[k]) && labels@[roots@[k]] == 0),
        decreases roots.len() - i,
    {
        let root = roots[i];
        let ghost before = next@;
        next.set(root, 0);
        proof {
            assert forall|node: Node|
                label_of(next@, node) == if rooted(roots@, node, (i + 1) as nat) {
                    Some(0nat)
                } else {
                    None
                } by {
                assert(label_of(before, node) == if rooted(roots@, node, i as nat) {
                    Some(0nat)
                } else {
                    None
                });
            }
        }
        match labels.get(root) {
            Some(known) => {
                if known != 0 {
                    settled = false;
                }
            },
            None => {
                settled = false;
            },
        }
        i += 1;
    }
    let mut j: usize = 0;
    while j < edges.len()
        invariant
            j <= edges.len(),
            i == roots.len(),
            within_limit(labels@),
            forall|node: Node|
                label_of(next@, node) == min_label(
                    if rooted(roots@, node, i as nat) {
                        Some(0nat)
                    } else {
                        None
                    },
                    relaxed(edges@, labels@, node, j as nat),
                ),
            settled == ((forall|k: int|
                0 <= k < i ==> labels@.contains_key(#[trigger] roots@[k]) && labels@[roots@[k]] == 0) && (forall|
                k: int,
            |
                0 <= k < j && labels@.contains_key((#[trigger] edges@[k]).0) ==> labels@.contains_key(edges@[k].1)
                    && labels@[edges@[k].1] <= labels@[edges@[k].0] + edges@[k].2)),
        decreases edges.len() - j,
    {
        let (from, to, weight) = edges[j];
        let ghost before = next@;
        let ghost offered = |node: Node|
            min_label(
                if rooted(roots@, node, i as nat) {
                    Some(0nat)
                } else {
                    None
                },
                relaxed(edges@, labels@, node, j as nat),
            );
        match labels.get(from) {
            Some(known) => {
                let candidate: Distance = known + weight as Distance;
                let improves = match next.get(to) {
                    Some(best) => candidate < best,
                    None => true,
                };
                if improves {
                    next.set(to, candidate);
                }
                match labels.get(to) {
                    Some(held) => {
                        if candidate < held {
                            settled = false;
                        }
                    },
                    None => {
                        settled = false;
                    },
                }
            },
            None => {},
        }
        proof {
            assert forall|node: Node|
                label_of(next@, node) == min_label(
                    if rooted(roots@, node, i as nat) {
                        Some(0nat)
                    } else {
                        None
                    },
                    relaxed(edges@, labels@, node, (j + 1) as nat),
                ) by {
                assert(label_of(before, node) == offered(node));
            }
        }
        j += 1;
    }
    proof {
        assert forall|node: Node| label_of(next@, node) == round_label(edges@, roots@, labels@, node) by {
            lemma_rooted(roots@, node, roots@.len());
        }
        assert forall|node: Node|
            #[trigger] next@.dom().contains(node) == explicit_round(edges@, roots@, labels@).dom().contains(
                node,
            ) by {
            assert(label_of(next@, node) == round_label(edges@, roots@, labels@, node));
        }
        assert forall|node: Node| #[trigger] next@.dom().contains(node) implies next@[node] == explicit_round(
            edges@,
            roots@,
            labels@,
        )[node] by {
            assert(label_of(next@, node) == round_label(edges@, roots@, labels@, node));
        }
    }
    (next, settled)
}

/// Rounds of the explicit formulation from the roots alone, up to the
/// first that finds the labels settled, but no more than `max_rounds`:
/// the labels, the number of rounds, and whether the labels are settled.
fn explicit_rounds(edges: &Vec<WeightedEdge>, roots: &Vec<Node>, max_rounds: u32) -> (run: (
    DistanceLabels,
    u32,
    bool,
))
    ensures
        run.1 <= max_rounds,
        run.0@ == explicit_labels(edges@, roots@, run.1 as nat),
        run.2 == is_settled(edges@, roots@, run.0@),
        !run.2 ==> run.1 == max_rounds,
        forall|earlier: nat| earlier < run.1 ==> !is_settled(edges@, roots@, #[trigger] explicit_labels(edges@, roots@, earlier)),
{
    let none = DistanceLabels::new();
    let (first, _) = explicit_step(edges, roots, &none);
    let mut labels = first;
    let mut rounds: u32 = 0;
    proof {
        lemma_first_round(edges@, roots@);
    }
    let (mut next, mut settled) = explicit_step(edges, roots, &labels);
    while !settled && rounds < max_rounds
        invariant
            rounds <= max_rounds,
            labels@ == explicit_labels(edges@, roots@, rounds as nat),
            next@ == explicit_round(edges@, roots@, labels@),
            settled == is_settled(edges@, roots@, labels@),
            forall|earlier: nat|
                earlier < rounds ==> !is_settled(edges@, roots@, #[trigger] explicit_labels(edges@, roots@, earlier)),
        decreases max_rounds - rounds,
    {
        labels = next;
        rounds = rounds + 1;
        proof {
            lemma_label_bound(edges@, roots@, rounds as nat);
        }
        let step = explicit_step(edges, roots, &labels);
        next = step.0;
        settled = step.1;
    }
    (labels, rounds, settled)
}

/// The labels of the explicit formulation are settled within `rounds`
/// rounds.
pub open spec fn explicit_settles_within(edges: Seq<WeightedEdge>, roots: Seq<Node>, rounds: nat) -> bool {
    exists|round: nat| round <= rounds && is_settled(edges, roots, #[trigger] explicit_labels(edges, roots, round))
}

/// The variable of the semiring formulation is settled within `rounds`
/// rounds.
pub open spec fn minsum_settles_within(edges: Seq<WeightedEdge>, roots: Seq<Node>, rounds: nat) -> bool {
    exists|round: nat| round <= rounds && is_settled(edges, roots, #[trigger] minsum_labels(edges, roots, round))
}

/// The shortest distances from `roots` along `edges`, by the explicit
/// formulation: each round derives, for every node, the least candidate
/// that a root or an edge from a labelled node offers it, until a round
/// derives what the round before did. A label is the weight of a candidate
/// and nothing else of it, so that candidates of equal weight give the same
/// label whichever of them is kept.
pub fn sssp(edges: &Vec<WeightedEdge>, roots: &Vec<Node>) -> (labels: DistanceLabels)
    ensures
        is_distance_map(edges@, roots@, labels@),
        is_explicit_result(edges@, roots@, labels@),
{
    let limit = num_nodes_from_edge_list(edges);
    let (labels, rounds, settled) = explicit_rounds(edges, roots, limit);
    proof {
        lemma_settled_iff_stable(edges@, roots@, rounds as nat);
        if rounds == limit {
            let nodes = lemma_universe(edges@);
            lemma_stable_within(edges@, roots@, nodes, rounds as nat);
        }
        lemma_settled_is_distance_map(edges@, roots@, rounds as nat);
    }
    labels
}

/// The shortest distances by the explicit formulation, if its labels are
/// settled after at most `max_rounds` rounds; if they are not, the rounds
/// end there and nothing is derived.
pub fn sssp_within(edges: &Vec<WeightedEdge>, roots: &Vec<Node>, max_rounds: u32) -> (result: Result<
    DistanceLabels,
    GraphError,
>)
    ensures
        result is Ok <==> explicit_settles_within(edges@, roots@, max_rounds as nat),
        result matches Ok(labels) ==> is_distance_map(edges@, roots@, labels@) && is_explicit_result(
            edges@,
            roots@,
            labels@,
        ),
        result matches Err(error) ==> error == GraphError::ConvergenceStall,
{
    let (labels, rounds, settled) = explicit_rounds(edges, roots, max_rounds);
    if settled {
        proof {
            lemma_settled_iff_stable(edges@, roots@, rounds as nat);
            lemma_settled_is_distance_map(edges@, roots@, rounds as nat);
        }
        Ok(labels)
    } else {
        Err(GraphError::ConvergenceStall)
    }
}

/// The updates that one round of the semiring formulation emits against
/// `variable`: for each root the value 0, for each edge from a labelled
/// node that node's label extended by the edge's weight, each only where it
/// improves on what `variable` holds for its target.
fn guarded_step(edges: &Vec<WeightedEdge>, roots: &Vec<Node>, variable: &DistanceLabels) -> (updates: Vec<
    (Node, MinSum),
>)
    requires
        within_limit(variable@),
    ensures
        updates_view(updates@) == guarded_updates(edges@, roots@, variable@),
{
    let mut updates: Vec<(Node, MinSum)> = Vec::new();
    let mut i: usize = 0;
    while i < roots.len()
        invariant
            i <= roots.len(),
            updates_view(updates@) == root_updates(roots@, variable@, i as nat),
        decreases roots.len() - i,
    {
        let root = roots[i];
        let news = match variable.get(root) {
            Some(held) => 0 < held,
            None => true,
        };
        if news {
            updates.push((root, MinSum::new(0)));
        }
        i += 1;
    }
    let ghost from_roots = updates_view(updates@);
    let mut j: usize = 0;
    while j < edges.len()
        invariant
            j <= edges.len(),
            within_limit(variable@),
            updates_view(updates@) == from_roots + edge_updates(edges@, variable@, j as nat),
        decreases edges.len() - j,
    {
        let (from, to, weight) = edges[j];
        match variable.get(from) {
            Some(known) => {
                let candidate = MinSum::new(known).mul(MinSum::new(weight as Distance));
                let news = match variable.get(to) {
                    Some(held) => candidate.value < held,
                    None => true,
                };
                let ghost before = updates@;
                if news {
                    updates.push((to, candidate));
                    assert(updates_view(updates@) =~= updates_view(before).push((to, candidate.value as nat)));
                }
            },
            None => {},
        }
        j += 1;
    }
    updates
}

/// Combines each update into the label of its node.
fn merge_updates(variable: &mut DistanceLabels, updates: &Vec<(Node, MinSum)>)
    ensures
        final(variable)@ == merged(old(variable)@, updates_view(updates@)),
{
    let mut i: usize = 0;
    while i < updates.len()
        invariant
            i <= updates.len(),
            variable@ == merged(old(variable)@, updates_view(updates@).take(i as int)),
        decreases updates.len() - i,
    {
        let (node, value) = updates[i];
        proof {
            let all = updates_view(updates@);
            assert(all.take(i + 1).drop_last() =~= all.take(i as int));
        }
        match variable.get(node) {
            Some(held) => {
                let mut best = MinSum::new(held);
                best.add_assign(&value);
                variable.set(node, best.value);
            },
            None => {
                variable.set(node, value.value);
            },
        }
        i += 1;
    }
    proof {
        let all = updates_view(updates@);
        assert(all.take(i as int) =~= all);
    }
}

/// One round of the semiring formulation on `variable`, unless it is
/// settled; whether it was.
fn minsum_step(edges: &Vec<WeightedEdge>, roots: &Vec<Node>, variable: &mut DistanceLabels) -> (settled: bool)
    requires
        within_limit(old(variable)@),
    ensures
        settled == is_settled(edges@, roots@, old(variable)@),
        final(variable)@ == minsum_round(edges@, roots@, old(variable)@),
{
    let updates = guarded_step(edges, roots, variable);
    proof {
        lemma_no_updates_iff_settled(edges@, roots@, variable@);
    }
    merge_updates(variable, &updates);
    updates.len() == 0
}

/// Rounds of the semiring formulation from the empty variable, up to the
/// first that emits no update, but no more than `max_rounds`: the
/// variable, the number of rounds, and whether it is settled.
fn minsum_rounds(edges: &Vec<WeightedEdge>, roots: &Vec<Node>, max_rounds: u64) -> (run: (
    DistanceLabels,
    u64,
    bool,
))
    requires
        max_rounds <= 0x1_0000_0000,
    ensures
        run.1 <= max_rounds,
        run.0@ == minsum_labels(edges@, roots@, run.1 as nat),
        run.2 == is_settled(edges@, roots@, run.0@),
        !run.2 ==> run.1 == max_rounds,
        forall|earlier: nat| earlier < run.1 ==> !is_settled(edges@, roots@, #[trigger] minsum_labels(edges@, roots@, earlier)),
{
    let mut variable = DistanceLabels::new();
    let mut rounds: u64 = 0;
    let mut updates = guarded_step(edges, roots, &variable);
    proof {
        lemma_no_updates_iff_settled(edges@, roots@, variable@);
    }
    while updates.len() > 0 && rounds < max_rounds
        invariant
            rounds <= max_rounds,
            max_rounds <= 0x1_0000_0000,
            variable@ == minsum_labels(edges@, roots@, rounds as nat),
            updates_view(updates@) == guarded_updates(edges@, roots@, variable@),
            (updates@.len() == 0) == is_settled(edges@, roots@, variable@),
            forall|earlier: nat|
                earlier < rounds ==> !is_settled(edges@, roots@, #[trigger] minsum_labels(edges@, roots@, earlier)),
        decreases max_rounds - rounds,
    {
        merge_updates(&mut variable, &updates);
        rounds = rounds + 1;
        proof {
            lemma_rounds_agree(edges@, roots@, (rounds - 1) as nat);
            lemma_label_bound(edges@, roots@, (rounds - 1) as nat);
        }
        updates = guarded_step(edges, roots, &variable);
        proof {
            lemma_no_updates_iff_settled(edges@, roots@, variable@);
        }
    }
    let settled = updates.len() == 0;
    (variable, rounds, settled)
}

/// A settled variable holds the distances, and a further round leaves it
/// as it is.
proof fn lemma_settled_variable(edges: Seq<WeightedEdge>, roots: Seq<Node>, rounds: nat)
    requires
        is_settled(edges, roots, minsum_labels(edges, roots, rounds)),
    ensures
        is_distance_map(edges, roots, minsum_labels(edges, roots, rounds)),
        is_minsum_result(edges, roots, minsum_labels(edges, roots, rounds)),
{
    let variable = minsum_labels(edges, roots, rounds);
    lemma_no_updates_iff_settled(edges, roots, variable);
    let done: nat = if rounds == 0 {
        0
    } else {
        (rounds - 1) as nat
    };
    lemma_rounds_agree(edges, roots, done);
    lemma_settled_is_distance_map(edges, roots, done);
}

/// The shortest distances from `roots` along `edges`, by the semiring
/// formulation: one variable, empty at first, is fed back round after
/// round; a round combines into it the updates that improve on it, and
/// the rounds end with the first that emits none.
pub fn sssp_monoid(edges: &Vec<WeightedEdge>, roots: &Vec<Node>) -> (labels: DistanceLabels)
    ensures
        is_distance_map(edges@, roots@, labels@),
        is_minsum_result(edges@, roots@, labels@),
{
    let limit = num_nodes_from_edge_list(edges);
    let (variable, rounds, settled) = minsum_rounds(edges, roots, limit as u64 + 1);
    proof {
        if rounds == limit + 1 {
            let nodes = lemma_universe(edges@);
            lemma_rounds_agree(edges@, roots@, limit as nat);
            lemma_stable_within(edges@, roots@, nodes, limit as nat);
            lemma_settled_iff_stable(edges@, roots@, limit as nat);
        }
        lemma_settled_variable(edges@, roots@, rounds as nat);
    }
    variable
}

/// The shortest distances by the semiring formulation, if its variable is
/// settled after at most `max_rounds` rounds; if it is not, the rounds end
/// there and nothing is derived.
pub fn sssp_monoid_within(edges: &Vec<WeightedEdge>, roots: &Vec<Node>, max_rounds: u32) -> (result: Result<
    DistanceLabels,
    GraphError,
>)
    ensures
        result is Ok <==> minsum_settles_within(edges@, roots@, max_rounds as nat),
        result matches Ok(labels) ==> is_distance_map(edges@, roots@, labels@) && is_minsum_result(
            edges@,
            roots@,
            labels@,
        ),
        result matches Err(error) ==> error == GraphError::ConvergenceStall,
{
    let (variable, rounds, settled) = minsum_rounds(edges, roots, max_rounds as u64);
    if settled {
        proof {
            lemma_settled_variable(edges@, roots@, rounds as nat);
        }
        Ok(variable)
    } else {
        Err(GraphError::ConvergenceStall)
    }
}

/// A label after `rounds` rounds is at most `rounds` times the heaviest
/// edge.
proof fn lemma_label_scale(edges: Seq<WeightedEdge>, roots: Seq<Node>, rounds: nat)
    ensures
        labels_at_most(explicit_labels(edges, roots, rounds), rounds * 0xFFFF_FFFF),
{
    assert forall|node: Node| #[trigger]
        explicit_labels(edges, roots, rounds).contains_key(node) implies explicit_labels(edges, roots, rounds)[node]
        <= rounds * 0xFFFF_FFFF by {
        let (root, walk) = lemma_label_walk(edges, roots, rounds, node);
        lemma_weight_bound(edges, walk);
    }
}

/// No distance is more than the largest node times the heaviest edge: a
/// shortest walk comes to no node twice.
pub proof fn lemma_distance_bound(edges: Seq<WeightedEdge>, roots: Seq<Node>, labels: Labels)
    requires
        is_distance_map(edges, roots, labels),
    ensures
        labels_at_most(labels, max_node(edges) as nat * 0xFFFF_FFFF),
{
    let rounds = max_node(edges) as nat;
    assert(labels == explicit_labels(edges, roots, rounds)) by {
        let nodes = lemma_universe(edges);
        lemma_stable_within(edges, roots, nodes, rounds);
        lemma_settled_iff_stable(edges, roots, rounds);
        lemma_settled_is_distance_map(edges, roots, rounds);
        lemma_distance_map_unique(edges, roots, labels, explicit_labels(edges, roots, rounds));
    }
    lemma_label_scale(edges, roots, rounds);
}

/// Rounds of the explicit formulation that set out from `start` are
/// settled within `rounds` rounds.
pub open spec fn explicit_resumes_within(edges: Seq<WeightedEdge>, roots: Seq<Node>, start: Labels, rounds: nat) -> bool {
    exists|round: nat|
        round <= rounds && is_settled(edges, roots, #[trigger] explicit_from(edges, roots, start, round))
}

/// Rounds of the semiring formulation that set out from `start` are
/// settled within `rounds` rounds.
pub open spec fn minsum_resumes_within(edges: Seq<WeightedEdge>, roots: Seq<Node>, start: Labels, rounds: nat) -> bool {
    exists|round: nat|
        round <= rounds && is_settled(edges, roots, #[trigger] minsum_from(edges, roots, start, round))
}

/// Rounds of the explicit formulation that set out from `start`, labels
/// that walks realize, none more than `scale` times the heaviest edge. The
/// rounds end with the first that finds the labels settled; they are the
/// distances then. A round may raise the largest label by the heaviest
/// edge: where the labels are not settled before there is no room left for
/// that, the rounds end without a result.
pub fn resume_explicit(edges: &Vec<WeightedEdge>, roots: &Vec<Node>, start: DistanceLabels, scale: u32) -> (result:
    Option<DistanceLabels>)
    requires
        is_realized(edges@, roots@, start@),
        labels_at_most(start@, scale as nat * 0xFFFF_FFFF),
    ensures
        result is Some <==> explicit_resumes_within(edges@, roots@, start@, (0xFFFF_FFFF - scale) as nat),
        result matches Some(labels) ==> is_distance_map(edges@, roots@, labels@),
{
    let ghost first = start@;
    let mut labels = start;
    let mut rounds: u32 = scale;
    loop
        invariant
            scale <= rounds,
            first == start@,
            labels@ == explicit_from(edges@, roots@, first, (rounds - scale) as nat),
            is_realized(edges@, roots@, labels@),
            labels_at_most(labels@, rounds as nat * 0xFFFF_FFFF),
            forall|earlier: nat|
                earlier < rounds - scale ==> !is_settled(
                    edges@,
                    roots@,
                    #[trigger] explicit_from(edges@, roots@, first, earlier),
                ),
        decreases 0xFFFF_FFFF - rounds,
    {
        let (next, settled) = explicit_step(edges, roots, &labels);
        if settled {
            proof {
                lemma_settled_realized(edges@, roots@, labels@);
            }
            return Some(labels);
        }
        if rounds == 0xFFFF_FFFF {
            return None;
        }
        proof {
            lemma_round_realized(edges@, roots@, labels@, rounds as nat * 0xFFFF_FFFF);
        }
        labels = next;
        rounds = rounds + 1;
    }
}

/// Rounds of the semiring formulation that set out from the variable
/// `start`, labels that walks realize, none more than `scale` times the
/// heaviest edge. The rounds end with the first that emits no update; the
/// variable holds the distances then. A round may raise the largest label
/// by the heaviest edge: where the variable is not settled before there is
/// no room left for that, the rounds end without a result.
pub fn resume_monoid(edges: &Vec<WeightedEdge>, roots: &Vec<Node>, start: DistanceLabels, scale: u32) -> (result:
    Option<DistanceLabels>)
    requires
        is_realized(edges@, roots@, start@),
        labels_at_most(start@, scale as nat * 0xFFFF_FFFF),
    ensures
        result is Some <==> minsum_resumes_within(edges@, roots@, start@, (0xFFFF_FFFF - scale) as nat),
        result matches Some(labels) ==> is_distance_map(edges@, roots@, labels@),
{
    let ghost first = start@;
    let mut variable = start;
    let mut rounds: u32 = scale;
    loop
        invariant
            scale <= rounds,
            first == start@,
            variable@ == minsum_from(edges@, roots@, first, (rounds - scale) as nat),
            is_realized(edges@, roots@, variable@),
            labels_at_most(variable@, rounds as nat * 0xFFFF_FFFF),
            forall|earlier: nat|
                earlier < rounds - scale ==> !is_settled(
                    edges@,
                    roots@,
                    #[trigger] minsum_from(edges@, roots@, first, earlier),
                ),
        decreases 0xFFFF_FFFF - rounds,
    {
        let ghost before = variable@;
        let settled = minsum_step(edges, roots, &mut variable);
        if settled {
            proof {
                lemma_no_updates_iff_settled(edges@, roots@, before);
                lemma_settled_realized(edges@, roots@, before);
            }
            return Some(variable);
        }
        if rounds == 0xFFFF_FFFF {
            return None;
        }
        proof {
            lemma_minsum_round_realized(edges@, roots@, before, rounds as nat * 0xFFFF_FFFF);
        }
        rounds = rounds + 1;
    }
}

} // verus!
