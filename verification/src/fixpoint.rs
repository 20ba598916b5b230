//! The least fixpoint of the shortest-path rules, round by round: the
//! labels that roots and edges derive from the labels of the round before.

use vstd::prelude::*;
use crate::graph::{Node, WeightedEdge};
use crate::paths::{
    endpoints_within, is_distance_map, is_shortest, is_walk, lemma_walk_push, lemma_walk_shorten, reachable,
    walk_weight,
};
use crate::semiring::{combine, extend};

verus! {

/// The best distance known so far for each node that has one.
pub type Labels = Map<Node, nat>;

/// The label of `node`, if it has one.
pub open spec fn label_of(labels: Labels, node: Node) -> Option<nat> {
    if labels.contains_key(node) {
        Some(labels[node])
    } else {
        None
    }
}

/// The map that holds `node` with `label(node)` wherever that is `Some`.
pub open spec fn labels_from(label: spec_fn(Node) -> Option<nat>) -> Labels {
    Map::new(|node: Node| label(node) is Some, |node: Node| label(node)->0)
}

/// The better of two candidate labels, where none is worse than any.
pub open spec fn min_label(a: Option<nat>, b: Option<nat>) -> Option<nat> {
    match (a, b) {
        (Some(x), Some(y)) => Some(combine(x, y)),
        (Some(_), None) => a,
        _ => b,
    }
}

/// A root is at distance 0 from itself.
pub open spec fn root_label(roots: Seq<Node>, node: Node) -> Option<nat> {
    if roots.contains(node) {
        Some(0)
    } else {
        None
    }
}

/// The best label that the first `count` edges offer `node`: over the
/// edges into `node` whose source has a label, the least of that label
/// extended by the edge's weight.
pub open spec fn relaxed(edges: Seq<WeightedEdge>, labels: Labels, node: Node, count: nat) -> Option<nat>
    decreases count,
{
    if count == 0 {
        None
    } else {
        let rest = relaxed(edges, labels, node, (count - 1) as nat);
        let edge = edges[count - 1];
        if edge.1 == node && labels.contains_key(edge.0) {
            min_label(rest, Some(extend(labels[edge.0], edge.2 as nat)))
        } else {
            rest
        }
    }
}

/// What one round derives for `node` from `labels`: the best of what the
/// roots and the edges offer it.
pub open spec fn round_label(edges: Seq<WeightedEdge>, roots: Seq<Node>, labels: Labels, node: Node) -> Option<
    nat,
> {
    min_label(root_label(roots, node), relaxed(edges, labels, node, edges.len()))
}

/// One round of the explicit formulation: every node gets the least
/// candidate that roots and edges derive for it from `labels`.
pub open spec fn explicit_round(edges: Seq<WeightedEdge>, roots: Seq<Node>, labels: Labels) -> Labels {
    labels_from(|node: Node| round_label(edges, roots, labels, node))
}

/// The labels of the explicit formulation after `rounds` rounds, starting
/// from the roots alone.
pub open spec fn explicit_labels(edges: Seq<WeightedEdge>, roots: Seq<Node>, rounds: nat) -> Labels
    decreases rounds,
{
    if rounds == 0 {
        labels_from(|node: Node| root_label(roots, node))
    } else {
        explicit_round(edges, roots, explicit_labels(edges, roots, (rounds - 1) as nat))
    }
}

/// No root and no edge derives a label from `labels` that `labels` does not
/// hold already, or a smaller one: another round has nothing to add.
pub open spec fn is_settled(edges: Seq<WeightedEdge>, roots: Seq<Node>, labels: Labels) -> bool {
    &&& forall|i: int|
        0 <= i < roots.len() ==> labels.contains_key(#[trigger] roots[i]) && labels[roots[i]] == 0
    &&& forall|i: int|
        0 <= i < edges.len() && labels.contains_key((#[trigger] edges[i]).0) ==> labels.contains_key(
            edges[i].1,
        ) && labels[edges[i].1] <= labels[edges[i].0] + edges[i].2
}

/// What the edges offer a node is no more than what any one of them offers.
pub proof fn lemma_relaxed_bound(edges: Seq<WeightedEdge>, labels: Labels, node: Node, count: nat, edge: int)
    requires
        0 <= edge < count,
        edges[edge].1 == node,
        labels.contains_key(edges[edge].0),
    ensures
        relaxed(edges, labels, node, count) is Some,
        relaxed(edges, labels, node, count)->0 <= labels[edges[edge].0] + edges[edge].2,
    decreases count,
{
    if edge < count - 1 {
        lemma_relaxed_bound(edges, labels, node, (count - 1) as nat, edge);
    }
}

/// What the edges offer a node is what one of them offers.
pub proof fn lemma_relaxed_witness(edges: Seq<WeightedEdge>, labels: Labels, node: Node, count: nat) -> (edge:
    int)
    requires
        relaxed(edges, labels, node, count) is Some,
    ensures
        0 <= edge < count,
        edges[edge].1 == node,
        labels.contains_key(edges[edge].0),
        relaxed(edges, labels, node, count)->0 == labels[edges[edge].0] + edges[edge].2,
    decreases count,
{
    let rest = relaxed(edges, labels, node, (count - 1) as nat);
    let last = edges[count - 1];
    if last.1 == node && labels.contains_key(last.0) && (rest is None || labels[last.0] + last.2 <= rest->0) {
        count - 1
    } else {
        lemma_relaxed_witness(edges, labels, node, (count - 1) as nat)
    }
}

/// A label after `rounds` rounds is the weight of a walk of at most
/// `rounds` edges from a root.
pub proof fn lemma_label_walk(edges: Seq<WeightedEdge>, roots: Seq<Node>, rounds: nat, node: Node) -> (found: (
    Node,
    Seq<int>,
))
    requires
        explicit_labels(edges, roots, rounds).contains_key(node),
    ensures
        roots.contains(found.0),
        is_walk(edges, found.1, found.0, node),
        found.1.len() <= rounds,
        walk_weight(edges, found.1) == explicit_labels(edges, roots, rounds)[node],
    decreases rounds,
{
    if rounds == 0 || roots.contains(node) {
        (node, Seq::empty())
    } else {
        let before = explicit_labels(edges, roots, (rounds - 1) as nat);
        let edge = lemma_relaxed_witness(edges, before, node, edges.len());
        let (root, walk) = lemma_label_walk(edges, roots, (rounds - 1) as nat, edges[edge].0);
        lemma_walk_push(edges, walk, root, edge);
        (root, walk.push(edge))
    }
}

/// After `rounds` rounds a node has a label that is no more than the weight
/// of any walk of at most `rounds` edges from a root to it.
pub proof fn lemma_walk_label(
    edges: Seq<WeightedEdge>,
    roots: Seq<Node>,
    rounds: nat,
    root: Node,
    walk: Seq<int>,
    node: Node,
)
    requires
        roots.contains(root),
        is_walk(edges, walk, root, node),
        walk.len() <= rounds,
    ensures
        explicit_labels(edges, roots, rounds).contains_key(node),
        explicit_labels(edges, roots, rounds)[node] <= walk_weight(edges, walk),
    decreases rounds,
{
    if walk.len() > 0 {
        let before = explicit_labels(edges, roots, (rounds - 1) as nat);
        let edge = walk.last();
        lemma_walk_label(edges, roots, (rounds - 1) as nat, root, walk.drop_last(), edges[edge].0);
        lemma_relaxed_bound(edges, before, node, edges.len(), edge);
    }
}

/// From one round to the next no node loses its label, and no label grows.
pub proof fn lemma_explicit_monotone(edges: Seq<WeightedEdge>, roots: Seq<Node>, rounds: nat, node: Node)
    requires
        explicit_labels(edges, roots, rounds).contains_key(node),
    ensures
        explicit_labels(edges, roots, rounds + 1).contains_key(node),
        explicit_labels(edges, roots, rounds + 1)[node] <= explicit_labels(edges, roots, rounds)[node],
{
    let (root, walk) = lemma_label_walk(edges, roots, rounds, node);
    lemma_walk_label(edges, roots, rounds + 1, root, walk, node);
}

/// The labels of a round are settled exactly when the next round leaves
/// them as they are.
pub proof fn lemma_settled_iff_stable(edges: Seq<WeightedEdge>, roots: Seq<Node>, rounds: nat)
    ensures
        is_settled(edges, roots, explicit_labels(edges, roots, rounds)) <==> explicit_labels(
            edges,
            roots,
            rounds + 1,
        ) == explicit_labels(edges, roots, rounds),
{
    let now = explicit_labels(edges, roots, rounds);
    let next = explicit_labels(edges, roots, rounds + 1);
    if is_settled(edges, roots, now) {
        assert forall|node: Node| next.contains_key(node) implies now.contains_key(node) && now[node]
            <= next[node] by {
            if !roots.contains(node) {
                let edge = lemma_relaxed_witness(edges, now, node, edges.len());
            }
        }
        assert forall|node: Node| now.contains_key(node) implies next.contains_key(node) && next[node]
            <= now[node] by {
            lemma_explicit_monotone(edges, roots, rounds, node);
        }
        assert(next =~= now);
    }
    if next == now {
        assert forall|i: int| 0 <= i < edges.len() && now.contains_key((#[trigger] edges[i]).0) implies now.contains_key(
            edges[i].1,
        ) && now[edges[i].1] <= now[edges[i].0] + edges[i].2 by {
            lemma_relaxed_bound(edges, now, edges[i].1, edges.len(), i);
        }
    }
}

/// Labels that one round leaves as they are stay so in every later round.
pub proof fn lemma_stable_forever(edges: Seq<WeightedEdge>, roots: Seq<Node>, rounds: nat, later: nat)
    requires
        explicit_labels(edges, roots, rounds + 1) == explicit_labels(edges, roots, rounds),
        rounds <= later,
    ensures
        explicit_labels(edges, roots, later) == explicit_labels(edges, roots, rounds),
    decreases later,
{
    if later > rounds {
        lemma_stable_forever(edges, roots, rounds, (later - 1) as nat);
    }
}

/// Settled labels are the distances: each reachable node has one, and it is
/// the weight of a shortest walk from a root.
pub proof fn lemma_settled_is_distance_map(edges: Seq<WeightedEdge>, roots: Seq<Node>, rounds: nat)
    requires
        is_settled(edges, roots, explicit_labels(edges, roots, rounds)),
    ensures
        is_distance_map(edges, roots, explicit_labels(edges, roots, rounds)),
{
    let labels = explicit_labels(edges, roots, rounds);
    lemma_settled_iff_stable(edges, roots, rounds);
    assert forall|root: Node, walk: Seq<int>, node: Node|
        roots.contains(root) && #[trigger] is_walk(edges, walk, root, node) implies labels.contains_key(node)
        && labels[node] <= walk_weight(edges, walk) by {
        let later = if walk.len() <= rounds {
            rounds
        } else {
            walk.len()
        };
        lemma_walk_label(edges, roots, later, root, walk, node);
        lemma_stable_forever(edges, roots, rounds, later);
    }
    assert forall|node: Node| #[trigger] labels.contains_key(node) implies reachable(edges, roots, node)
        && is_shortest(edges, roots, node, labels[node]) by {
        let (root, walk) = lemma_label_walk(edges, roots, rounds, node);
    }
}

/// There is one distance map only.
pub proof fn lemma_distance_map_unique(edges: Seq<WeightedEdge>, roots: Seq<Node>, a: Labels, b: Labels)
    requires
        is_distance_map(edges, roots, a),
        is_distance_map(edges, roots, b),
    ensures
        a == b,
{
    assert forall|node: Node| a.contains_key(node) implies b.contains_key(node) && a[node] == b[node] by {
    }
}

/// Once there have been as many rounds as `nodes` has nodes, less one,
/// another round changes nothing: a shortest walk comes to no node twice.
pub proof fn lemma_stable_within(edges: Seq<WeightedEdge>, roots: Seq<Node>, nodes: Set<Node>, rounds: nat)
    requires
        nodes.finite(),
        endpoints_within(edges, nodes),
        rounds + 1 >= nodes.len(),
    ensures
        explicit_labels(edges, roots, rounds + 1) == explicit_labels(edges, roots, rounds),
{
    let now = explicit_labels(edges, roots, rounds);
    let next = explicit_labels(edges, roots, rounds + 1);
    assert forall|node: Node| next.contains_key(node) implies now.contains_key(node) && now[node]
        <= next[node] by {
        let (root, walk) = lemma_label_walk(edges, roots, rounds + 1, node);
        let short = lemma_walk_shorten(edges, nodes, walk, root, node);
        lemma_walk_label(edges, roots, rounds, root, short, node);
    }
    assert forall|node: Node| now.contains_key(node) implies next.contains_key(node) && next[node]
        <= now[node] by {
        lemma_explicit_monotone(edges, roots, rounds, node);
    }
}

/// Repeated rounds never raise a label, and come to rest within as many
/// rounds as there are nodes.
pub proof fn lemma_monotone_convergence(edges: Seq<WeightedEdge>, roots: Seq<Node>, nodes: Set<Node>, rounds: nat)
    requires
        nodes.finite(),
        endpoints_within(edges, nodes),
    ensures
        forall|node: Node| #[trigger]
            explicit_labels(edges, roots, rounds).contains_key(node) ==> explicit_labels(
                edges,
                roots,
                rounds + 1,
            ).contains_key(node) && explicit_labels(edges, roots, rounds + 1)[node] <= explicit_labels(
                edges,
                roots,
                rounds,
            )[node],
        rounds + 1 >= nodes.len() ==> explicit_labels(edges, roots, rounds + 1) == explicit_labels(
            edges,
            roots,
            rounds,
        ),
{
    assert forall|node: Node| #[trigger]
        explicit_labels(edges, roots, rounds).contains_key(node) implies explicit_labels(
        edges,
        roots,
        rounds + 1,
    ).contains_key(node) && explicit_labels(edges, roots, rounds + 1)[node] <= explicit_labels(
        edges,
        roots,
        rounds,
    )[node] by {
        lemma_explicit_monotone(edges, roots, rounds, node);
    }
    if rounds + 1 >= nodes.len() {
        lemma_stable_within(edges, roots, nodes, rounds);
    }
}

/// The labels after `rounds` rounds of the explicit formulation that set
/// out from `start`.
pub open spec fn explicit_from(edges: Seq<WeightedEdge>, roots: Seq<Node>, start: Labels, rounds: nat) -> Labels
    decreases rounds,
{
    if rounds == 0 {
        start
    } else {
        explicit_round(edges, roots, explicit_from(edges, roots, start, (rounds - 1) as nat))
    }
}

/// Every label is the weight of some walk from a root to its node.
pub open spec fn is_realized(edges: Seq<WeightedEdge>, roots: Seq<Node>, labels: Labels) -> bool {
    forall|node: Node| #[trigger]
        labels.contains_key(node) ==> exists|root: Node, walk: Seq<int>|
            roots.contains(root) && #[trigger] is_walk(edges, walk, root, node) && walk_weight(edges, walk)
                == labels[node]
}

/// No label is more than `most`.
pub open spec fn labels_at_most(labels: Labels, most: nat) -> bool {
    forall|node: Node| #[trigger] labels.contains_key(node) ==> labels[node] <= most
}

/// Settled labels hold, for every walk from a root, a label for its end
/// that is no more than its weight.
pub proof fn lemma_settled_bounds_walk(
    edges: Seq<WeightedEdge>,
    roots: Seq<Node>,
    labels: Labels,
    root: Node,
    walk: Seq<int>,
    node: Node,
)
    requires
        is_settled(edges, roots, labels),
        roots.contains(root),
        is_walk(edges, walk, root, node),
    ensures
        labels.contains_key(node),
        labels[node] <= walk_weight(edges, walk),
    decreases walk.len(),
{
    if walk.len() > 0 {
        let edge = walk.last();
        lemma_settled_bounds_walk(edges, roots, labels, root, walk.drop_last(), edges[edge].0);
    }
}

/// Labels that are settled, each the weight of a walk from a root, are the
/// distances, from whatever labels the rounds set out.
pub proof fn lemma_settled_realized(edges: Seq<WeightedEdge>, roots: Seq<Node>, labels: Labels)
    requires
        is_settled(edges, roots, labels),
        is_realized(edges, roots, labels),
    ensures
        is_distance_map(edges, roots, labels),
{
    assert forall|root: Node, walk: Seq<int>, node: Node|
        roots.contains(root) && #[trigger] is_walk(edges, walk, root, node) implies labels.contains_key(node)
        && labels[node] <= walk_weight(edges, walk) by {
        lemma_settled_bounds_walk(edges, roots, labels, root, walk, node);
    }
}

/// A round derives labels that walks realize from labels that walks
/// realize, and none that is more than the largest label extended by the
/// heaviest edge.
pub proof fn lemma_round_realized(edges: Seq<WeightedEdge>, roots: Seq<Node>, labels: Labels, most: nat)
    requires
        is_realized(edges, roots, labels),
        labels_at_most(labels, most),
    ensures
        is_realized(edges, roots, explicit_round(edges, roots, labels)),
        labels_at_most(explicit_round(edges, roots, labels), most + 0xFFFF_FFFF),
{
    let next = explicit_round(edges, roots, labels);
    assert forall|node: Node| #[trigger] next.contains_key(node) implies next[node] <= most + 0xFFFF_FFFF
        && exists|root: Node, walk: Seq<int>|
        roots.contains(root) && #[trigger] is_walk(edges, walk, root, node) && walk_weight(edges, walk)
            == next[node] by {
        if roots.contains(node) {
            assert(is_walk(edges, Seq::<int>::empty(), node, node));
        } else {
            let edge = lemma_relaxed_witness(edges, labels, node, edges.len());
            let (root, walk) = choose|root: Node, walk: Seq<int>|
                roots.contains(root) && #[trigger] is_walk(edges, walk, root, edges[edge].0) && walk_weight(
                    edges,
                    walk,
                ) == labels[edges[edge].0];
            lemma_walk_push(edges, walk, root, edge);
        }
    }
}

} // verus!
