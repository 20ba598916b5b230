//! The semiring formulation: one variable holds the best labels so far and
//! is fed back into each round, which emits an update only where it
//! improves on what the variable holds.

use vstd::prelude::*;
use crate::fixpoint::{
    explicit_labels, explicit_round, is_settled, label_of, lemma_explicit_monotone, lemma_monotone_convergence,
    is_realized, labels_at_most, lemma_relaxed_witness, lemma_round_realized, lemma_stable_forever, min_label,
    relaxed, round_label, Labels,
};
use crate::paths::{endpoints_within, is_walk, walk_weight};
use crate::graph::{Node, WeightedEdge};
use crate::semiring::{combine, extend};

verus! {

/// `value` is news for `node`: it has no label yet, or a larger one.
pub open spec fn improves(labels: Labels, node: Node, value: nat) -> bool {
    !labels.contains_key(node) || value < labels[node]
}

/// The updates that the first `count` roots emit against `labels`.
pub open spec fn root_updates(roots: Seq<Node>, labels: Labels, count: nat) -> Seq<(Node, nat)>
    decreases count,
{
    if count == 0 {
        Seq::empty()
    } else {
        let rest = root_updates(roots, labels, (count - 1) as nat);
        let root = roots[count - 1];
        if improves(labels, root, 0) {
            rest.push((root, 0nat))
        } else {
            rest
        }
    }
}

/// The updates that the first `count` edges emit against `labels`: the
/// label of an edge's source extended by its weight, where that improves
/// on the label of its target.
pub open spec fn edge_updates(edges: Seq<WeightedEdge>, labels: Labels, count: nat) -> Seq<(Node, nat)>
    decreases count,
{
    if count == 0 {
        Seq::empty()
    } else {
        let rest = edge_updates(edges, labels, (count - 1) as nat);
        let edge = edges[count - 1];
        if labels.contains_key(edge.0) && improves(labels, edge.1, extend(labels[edge.0], edge.2 as nat)) {
            rest.push((edge.1, extend(labels[edge.0], edge.2 as nat)))
        } else {
            rest
        }
    }
}

/// All that one round emits: the roots' updates, then the edges'.
pub open spec fn guarded_updates(edges: Seq<WeightedEdge>, roots: Seq<Node>, labels: Labels) -> Seq<(Node, nat)> {
    root_updates(roots, labels, roots.len()) + edge_updates(edges, labels, edges.len())
}

/// `labels` after each update was combined into the label of its node.
pub open spec fn merged(labels: Labels, updates: Seq<(Node, nat)>) -> Labels
    decreases updates.len(),
{
    if updates.len() == 0 {
        labels
    } else {
        let rest = merged(labels, updates.drop_last());
        let (node, value) = updates.last();
        if rest.contains_key(node) {
            rest.insert(node, combine(rest[node], value))
        } else {
            rest.insert(node, value)
        }
    }
}

/// One round of the semiring formulation.
pub open spec fn minsum_round(edges: Seq<WeightedEdge>, roots: Seq<Node>, labels: Labels) -> Labels {
    merged(labels, guarded_updates(edges, roots, labels))
}

/// The variable of the semiring formulation after `rounds` rounds; it
/// starts out empty.
pub open spec fn minsum_labels(edges: Seq<WeightedEdge>, roots: Seq<Node>, rounds: nat) -> Labels
    decreases rounds,
{
    if rounds == 0 {
        Map::empty()
    } else {
        minsum_round(edges, roots, minsum_labels(edges, roots, (rounds - 1) as nat))
    }
}

/// The least value that `updates` hold for `node`.
pub open spec fn least_update(updates: Seq<(Node, nat)>, node: Node) -> Option<nat>
    decreases updates.len(),
{
    if updates.len() == 0 {
        None
    } else {
        let rest = least_update(updates.drop_last(), node);
        if updates.last().0 == node {
            min_label(rest, Some(updates.last().1))
        } else {
            rest
        }
    }
}

/// `node` is among the first `count` roots.
pub open spec fn rooted(roots: Seq<Node>, node: Node, count: nat) -> bool
    decreases count,
{
    count > 0 && (roots[count - 1] == node || rooted(roots, node, (count - 1) as nat))
}

/// The labels of a round are what the explicit formulation settles on.
pub open spec fn is_explicit_result(edges: Seq<WeightedEdge>, roots: Seq<Node>, labels: Labels) -> bool {
    exists|rounds: nat|
        labels == #[trigger] explicit_labels(edges, roots, rounds) && explicit_round(edges, roots, labels)
            == labels
}

/// The labels of a round are what the semiring formulation settles on.
pub open spec fn is_minsum_result(edges: Seq<WeightedEdge>, roots: Seq<Node>, labels: Labels) -> bool {
    exists|rounds: nat|
        labels == #[trigger] minsum_labels(edges, roots, rounds) && minsum_round(edges, roots, labels)
            == labels
}

/// A node is among the first roots exactly when one of them is that node.
pub proof fn lemma_rooted(roots: Seq<Node>, node: Node, count: nat)
    requires
        count <= roots.len(),
    ensures
        rooted(roots, node, count) <==> exists|i: int| 0 <= i < count && roots[i] == node,
    decreases count,
{
    if count > 0 {
        lemma_rooted(roots, node, (count - 1) as nat);
    }
}

/// Merging updates leaves each node the least of its label and its updates.
proof fn lemma_merged_label(labels: Labels, updates: Seq<(Node, nat)>, node: Node)
    ensures
        label_of(merged(labels, updates), node) == min_label(label_of(labels, node), least_update(updates, node)),
    decreases updates.len(),
{
    if updates.len() > 0 {
        lemma_merged_label(labels, updates.drop_last(), node);
    }
}

/// The least update of two lists is the lesser of their least updates.
proof fn lemma_least_concat(first: Seq<(Node, nat)>, second: Seq<(Node, nat)>, node: Node)
    ensures
        least_update(first + second, node) == min_label(least_update(first, node), least_update(second, node)),
    decreases second.len(),
{
    if second.len() > 0 {
        assert((first + second).drop_last() =~= first + second.drop_last());
        lemma_least_concat(first, second.drop_last(), node);
    }
}

/// Against its label, the roots' updates do for a node what its being a
/// root does.
proof fn lemma_root_updates_label(roots: Seq<Node>, labels: Labels, count: nat, node: Node)
    ensures
        min_label(label_of(labels, node), least_update(root_updates(roots, labels, count), node)) == min_label(
            label_of(labels, node),
            if rooted(roots, node, count) {
                Some(0nat)
            } else {
                None
            },
        ),
    decreases count,
{
    if count > 0 {
        lemma_root_updates_label(roots, labels, (count - 1) as nat, node);
        let rest = root_updates(roots, labels, (count - 1) as nat);
        if improves(labels, roots[count - 1], 0) {
            assert(rest.push((roots[count - 1], 0nat)).drop_last() =~= rest);
        }
    }
}

/// Against its label, the edges' updates do for a node what all that the
/// edges offer it does.
proof fn lemma_edge_updates_label(edges: Seq<WeightedEdge>, labels: Labels, count: nat, node: Node)
    ensures
        min_label(label_of(labels, node), least_update(edge_updates(edges, labels, count), node)) == min_label(
            label_of(labels, node),
            relaxed(edges, labels, node, count),
        ),
    decreases count,
{
    if count > 0 {
        lemma_edge_updates_label(edges, labels, (count - 1) as nat, node);
        let rest = edge_updates(edges, labels, (count - 1) as nat);
        let edge = edges[count - 1];
        if labels.contains_key(edge.0) && improves(labels, edge.1, extend(labels[edge.0], edge.2 as nat)) {
            assert(rest.push((edge.1, extend(labels[edge.0], edge.2 as nat))).drop_last() =~= rest);
        }
    }
}

/// A round of the semiring formulation leaves each node the better of its
/// label and of what the explicit round derives for it.
pub proof fn lemma_minsum_round_label(edges: Seq<WeightedEdge>, roots: Seq<Node>, labels: Labels, node: Node)
    ensures
        label_of(minsum_round(edges, roots, labels), node) == min_label(
            label_of(labels, node),
            round_label(edges, roots, labels, node),
        ),
{
    let from_roots = root_updates(roots, labels, roots.len());
    let from_edges = edge_updates(edges, labels, edges.len());
    lemma_merged_label(labels, from_roots + from_edges, node);
    lemma_least_concat(from_roots, from_edges, node);
    lemma_root_updates_label(roots, labels, roots.len(), node);
    lemma_edge_updates_label(edges, labels, edges.len(), node);
    lemma_rooted(roots, node, roots.len());
}

/// The roots emit nothing exactly when each has the label 0.
proof fn lemma_no_root_updates(roots: Seq<Node>, labels: Labels, count: nat)
    ensures
        root_updates(roots, labels, count).len() == 0 <==> forall|i: int|
            0 <= i < count ==> labels.contains_key(#[trigger] roots[i]) && labels[roots[i]] == 0,
    decreases count,
{
    if count > 0 {
        lemma_no_root_updates(roots, labels, (count - 1) as nat);
    }
}

/// The edges emit nothing exactly when none offers its target less than
/// the target holds.
proof fn lemma_no_edge_updates(edges: Seq<WeightedEdge>, labels: Labels, count: nat)
    ensures
        edge_updates(edges, labels, count).len() == 0 <==> forall|i: int|
            0 <= i < count && labels.contains_key((#[trigger] edges[i]).0) ==> labels.contains_key(edges[i].1)
                && labels[edges[i].1] <= labels[edges[i].0] + edges[i].2,
    decreases count,
{
    if count > 0 {
        lemma_no_edge_updates(edges, labels, (count - 1) as nat);
    }
}

/// A round emits no update exactly when the labels are settled.
pub proof fn lemma_no_updates_iff_settled(edges: Seq<WeightedEdge>, roots: Seq<Node>, labels: Labels)
    ensures
        guarded_updates(edges, roots, labels).len() == 0 <==> is_settled(edges, roots, labels),
{
    lemma_no_root_updates(roots, labels, roots.len());
    lemma_no_edge_updates(edges, labels, edges.len());
}

/// Round for round the two formulations hold the same labels: the variable
/// after one more round is what the explicit formulation has.
pub proof fn lemma_rounds_agree(edges: Seq<WeightedEdge>, roots: Seq<Node>, rounds: nat)
    ensures
        minsum_labels(edges, roots, rounds + 1) == explicit_labels(edges, roots, rounds),
    decreases rounds,
{
    let variable = minsum_labels(edges, roots, rounds);
    let next = minsum_labels(edges, roots, rounds + 1);
    let explicit = explicit_labels(edges, roots, rounds);
    if rounds == 0 {
        assert forall|node: Node| label_of(next, node) == label_of(explicit, node) by {
            lemma_minsum_round_label(edges, roots, variable, node);
            if relaxed(edges, variable, node, edges.len()) is Some {
                let edge = lemma_relaxed_witness(edges, variable, node, edges.len());
            }
        }
    } else {
        lemma_rounds_agree(edges, roots, (rounds - 1) as nat);
        assert forall|node: Node| label_of(next, node) == label_of(explicit, node) by {
            lemma_minsum_round_label(edges, roots, variable, node);
            if variable.contains_key(node) {
                lemma_explicit_monotone(edges, roots, (rounds - 1) as nat, node);
            }
        }
    }
    assert forall|node: Node| #[trigger] next.dom().contains(node) implies explicit.dom().contains(node)
        && next[node] == explicit[node] by {
        assert(label_of(next, node) == label_of(explicit, node));
    }
    assert forall|node: Node| #[trigger] explicit.dom().contains(node) implies next.dom().contains(node) by {
        assert(label_of(next, node) == label_of(explicit, node));
    }
}

/// The two formulations settle on the same labels.
pub proof fn lemma_formulations_agree(edges: Seq<WeightedEdge>, roots: Seq<Node>, explicit: Labels, minsum: Labels)
    requires
        is_explicit_result(edges, roots, explicit),
        is_minsum_result(edges, roots, minsum),
    ensures
        explicit == minsum,
{
    let k = choose|rounds: nat|
        explicit == #[trigger] explicit_labels(edges, roots, rounds) && explicit_round(edges, roots, explicit)
            == explicit;
    let m = choose|rounds: nat|
        minsum == #[trigger] minsum_labels(edges, roots, rounds) && minsum_round(edges, roots, minsum) == minsum;
    let j: nat = if m == 0 {
        0
    } else {
        (m - 1) as nat
    };
    lemma_rounds_agree(edges, roots, j);
    lemma_rounds_agree(edges, roots, j + 1);
    let later = if j <= k {
        k
    } else {
        j
    };
    lemma_stable_forever(edges, roots, j, later);
    lemma_stable_forever(edges, roots, k, later);
}

/// The variable of the semiring formulation never loses a label nor lets
/// one grow, and it comes to rest once there have been as many rounds as
/// there are nodes, the first round included, which gives the roots their
/// labels.
pub proof fn lemma_minsum_monotone_convergence(
    edges: Seq<WeightedEdge>,
    roots: Seq<Node>,
    nodes: Set<Node>,
    rounds: nat,
)
    requires
        nodes.finite(),
        endpoints_within(edges, nodes),
    ensures
        forall|node: Node| #[trigger]
            minsum_labels(edges, roots, rounds).contains_key(node) ==> minsum_labels(
                edges,
                roots,
                rounds + 1,
            ).contains_key(node) && minsum_labels(edges, roots, rounds + 1)[node] <= minsum_labels(
                edges,
                roots,
                rounds,
            )[node],
        rounds >= 1 && rounds >= nodes.len() ==> minsum_labels(edges, roots, rounds + 1) == minsum_labels(
            edges,
            roots,
            rounds,
        ),
{
    lemma_rounds_agree(edges, roots, rounds);
    if rounds > 0 {
        lemma_rounds_agree(edges, roots, (rounds - 1) as nat);
        lemma_monotone_convergence(edges, roots, nodes, (rounds - 1) as nat);
    }
}

/// The variable after `rounds` rounds of the semiring formulation that set
/// out from `start`.
pub open spec fn minsum_from(edges: Seq<WeightedEdge>, roots: Seq<Node>, start: Labels, rounds: nat) -> Labels
    decreases rounds,
{
    if rounds == 0 {
        start
    } else {
        minsum_round(edges, roots, minsum_from(edges, roots, start, (rounds - 1) as nat))
    }
}

/// A round of the semiring formulation keeps labels that walks realize so,
/// and lets none grow beyond the largest label extended by the heaviest
/// edge.
pub proof fn lemma_minsum_round_realized(edges: Seq<WeightedEdge>, roots: Seq<Node>, labels: Labels, most: nat)
    requires
        is_realized(edges, roots, labels),
        labels_at_most(labels, most),
    ensures
        is_realized(edges, roots, minsum_round(edges, roots, labels)),
        labels_at_most(minsum_round(edges, roots, labels), most + 0xFFFF_FFFF),
{
    let next = minsum_round(edges, roots, labels);
    let derived = explicit_round(edges, roots, labels);
    lemma_round_realized(edges, roots, labels, most);
    assert forall|node: Node| #[trigger] next.contains_key(node) implies next[node] <= most + 0xFFFF_FFFF
        && exists|root: Node, walk: Seq<int>|
        roots.contains(root) && #[trigger] is_walk(edges, walk, root, node) && walk_weight(edges, walk)
            == next[node] by {
        lemma_minsum_round_label(edges, roots, labels, node);
        assert(label_of(next, node) == min_label(label_of(labels, node), label_of(derived, node)));
    }
}

} // verus!
