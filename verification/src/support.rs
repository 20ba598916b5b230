//! What of the labels outlasts a change of the graph: a label whose
//! shortest walk lost neither its root nor an edge is still the weight of a
//! walk, and the rounds can go on from it.

use std::collections::HashSet;
use vstd::prelude::*;
use crate::engine::{label_limit, lemma_distance_bound, DistanceLabels};
use crate::facts::{datum_key, key_of, Datum};
use crate::fixpoint::{is_realized, labels_at_most, min_label, Labels};
use crate::graph::{max_node, Node, WeightedEdge};
use crate::paths::{is_distance_map, is_walk, lemma_walk_take, lemma_walk_transfer, walk_weight};
use crate::semiring::{extend, Distance};

verus! {

/// `value` lies below `threshold`, where there is one.
pub open spec fn below(threshold: Option<nat>, value: nat) -> bool {
    match threshold {
        None => true,
        Some(bound) => value < bound,
    }
}

/// One of `roots` is none of `roots_now`.
pub open spec fn root_lost(roots: Seq<Node>, roots_now: Seq<Node>) -> bool {
    exists|i: int| 0 <= i < roots.len() && !roots_now.contains(#[trigger] roots[i])
}

/// The least weight that a walk can have whose last edge is one of the
/// first `count` of `edges` that is none of `edges_now`: over those of
/// them that leave a labelled node, the least of that node's label
/// extended by the edge.
pub open spec fn least_lost(edges: Seq<WeightedEdge>, labels: Labels, edges_now: Seq<WeightedEdge>, count: nat) -> Option<
    nat,
>
    decreases count,
{
    if count == 0 {
        None
    } else {
        let rest = least_lost(edges, labels, edges_now, (count - 1) as nat);
        let edge = edges[count - 1];
        if !edges_now.contains(edge) && labels.contains_key(edge.0) {
            min_label(rest, Some(extend(labels[edge.0], edge.2 as nat)))
        } else {
            rest
        }
    }
}

/// The weight below which no walk is touched by what was lost: 0 where a
/// root was lost, else the least weight of a walk up to a lost edge.
pub open spec fn threshold(
    edges: Seq<WeightedEdge>,
    roots: Seq<Node>,
    labels: Labels,
    edges_now: Seq<WeightedEdge>,
    roots_now: Seq<Node>,
) -> Option<nat> {
    if root_lost(roots, roots_now) {
        Some(0)
    } else {
        least_lost(edges, labels, edges_now, edges.len())
    }
}

/// The labels of `labels` that lie below the threshold.
pub open spec fn supported(
    edges: Seq<WeightedEdge>,
    roots: Seq<Node>,
    labels: Labels,
    edges_now: Seq<WeightedEdge>,
    roots_now: Seq<Node>,
) -> Labels {
    Map::new(
        |node: Node|
            labels.contains_key(node) && below(threshold(edges, roots, labels, edges_now, roots_now), labels[node]),
        |node: Node| labels[node],
    )
}

/// No walk that lost its root or an edge weighs less than `threshold`: it
/// is 0 where a root is gone, and where an edge from a labelled node is
/// gone it is no more than that node's label extended by the edge.
pub open spec fn undercuts(
    edges: Seq<WeightedEdge>,
    roots: Seq<Node>,
    labels: Labels,
    edges_now: Seq<WeightedEdge>,
    roots_now: Seq<Node>,
    threshold: Option<nat>,
) -> bool {
    &&& forall|i: int| 0 <= i < roots.len() && !roots_now.contains(#[trigger] roots[i]) ==> threshold == Some(0nat)
    &&& forall|i: int|
        0 <= i < edges.len() && !edges_now.contains(#[trigger] edges[i]) && labels.contains_key(edges[i].0)
            ==> threshold is Some && threshold->0 <= labels[edges[i].0] + edges[i].2
}

/// The least weight up to a lost edge is no more than the weight up to any
/// one of them.
proof fn lemma_least_lost(
    edges: Seq<WeightedEdge>,
    labels: Labels,
    edges_now: Seq<WeightedEdge>,
    count: nat,
    edge: int,
)
    requires
        0 <= edge < count,
        !edges_now.contains(edges[edge]),
        labels.contains_key(edges[edge].0),
    ensures
        least_lost(edges, labels, edges_now, count) is Some,
        least_lost(edges, labels, edges_now, count)->0 <= labels[edges[edge].0] + edges[edge].2,
    decreases count,
{
    if edge < count - 1 {
        lemma_least_lost(edges, labels, edges_now, (count - 1) as nat, edge);
    }
}

/// The threshold undercuts every walk that lost its root or an edge.
proof fn lemma_threshold_undercuts(
    edges: Seq<WeightedEdge>,
    roots: Seq<Node>,
    labels: Labels,
    edges_now: Seq<WeightedEdge>,
    roots_now: Seq<Node>,
)
    ensures
        undercuts(edges, roots, labels, edges_now, roots_now, threshold(edges, roots, labels, edges_now, roots_now)),
{
    assert forall|i: int|
        0 <= i < edges.len() && !edges_now.contains(#[trigger] edges[i]) && labels.contains_key(
            edges[i].0,
        ) implies threshold(edges, roots, labels, edges_now, roots_now) is Some && threshold(
        edges,
        roots,
        labels,
        edges_now,
        roots_now,
    )->0 <= labels[edges[i].0] + edges[i].2 by {
        lemma_least_lost(edges, labels, edges_now, edges.len(), i);
    }
}

/// A distance below the threshold is the weight of a walk that is still
/// there.
pub proof fn lemma_supported(
    edges: Seq<WeightedEdge>,
    roots: Seq<Node>,
    labels: Labels,
    edges_now: Seq<WeightedEdge>,
    roots_now: Seq<Node>,
    threshold: Option<nat>,
    node: Node,
)
    requires
        is_distance_map(edges, roots, labels),
        undercuts(edges, roots, labels, edges_now, roots_now, threshold),
        labels.contains_key(node),
        below(threshold, labels[node]),
    ensures
        exists|root: Node, walk: Seq<int>|
            roots_now.contains(root) && #[trigger] is_walk(edges_now, walk, root, node) && walk_weight(
                edges_now,
                walk,
            ) == labels[node],
{
    let (root, walk) = choose|root: Node, walk: Seq<int>|
        roots.contains(root) && #[trigger] is_walk(edges, walk, root, node) && walk_weight(edges, walk)
            == labels[node];
    assert forall|place: int| 0 <= place < walk.len() implies edges_now.contains(edges[#[trigger] walk[place]]) by {
        lemma_walk_take(edges, walk, root, node, place);
    }
    let moved = lemma_walk_transfer(edges, edges_now, walk, root, node);
}

/// The threshold as a natural number.
pub open spec fn threshold_view(threshold: Option<Distance>) -> Option<nat> {
    match threshold {
        Some(bound) => Some(bound as nat),
        None => None,
    }
}

/// Computes the threshold.
fn threshold_of(
    edges: &Vec<WeightedEdge>,
    roots: &Vec<Node>,
    labels: &DistanceLabels,
    edges_now: &Vec<WeightedEdge>,
    roots_now: &Vec<Node>,
) -> (found: Option<Distance>)
    requires
        labels_at_most(labels@, label_limit()),
    ensures
        threshold_view(found) == threshold(edges@, roots@, labels@, edges_now@, roots_now@),
{
    let mut present: HashSet<u128> = HashSet::new();
    let mut i: usize = 0;
    while i < edges_now.len()
        invariant
            i <= edges_now.len(),
            forall|datum: Datum|
                present@.contains(#[trigger] datum_key(datum)) <==> datum is Edge && edges_now@.take(i as int).contains(
                    datum->Edge_0,
                ),
        decreases edges_now.len() - i,
    {
        let edge = edges_now[i];
        present.insert(key_of(&Datum::Edge(edge)));
        proof {
            let more = edges_now@.take(i + 1);
            assert forall|datum: Datum|
                present@.contains(#[trigger] datum_key(datum)) <==> datum is Edge && more.contains(
                    datum->Edge_0,
                ) by {
                if datum_key(datum) == datum_key(Datum::Edge(edge)) {
                    assert(more[i as int] == edge);
                }
            }
        }
        i += 1;
    }
    proof {
        assert(edges_now@.take(i as int) =~= edges_now@);
    }
    let mut i: usize = 0;
    while i < roots_now.len()
        invariant
            i <= roots_now.len(),
            forall|datum: Datum|
                present@.contains(#[trigger] datum_key(datum)) <==> (datum is Edge && edges_now@.contains(
                    datum->Edge_0,
                )) || (datum is Root && roots_now@.take(i as int).contains(datum->Root_0)),
        decreases roots_now.len() - i,
    {
        let root = roots_now[i];
        present.insert(key_of(&Datum::Root(root)));
        proof {
            let more = roots_now@.take(i + 1);
            assert forall|datum: Datum|
                present@.contains(#[trigger] datum_key(datum)) <==> (datum is Edge && edges_now@.contains(
                    datum->Edge_0,
                )) || (datum is Root && more.contains(datum->Root_0)) by {
                if datum_key(datum) == datum_key(Datum::Root(root)) {
                    assert(more[i as int] == root);
                }
            }
        }
        i += 1;
    }
    proof {
        assert(roots_now@.take(i as int) =~= roots_now@);
    }
    let mut lost = false;
    let mut i: usize = 0;
    while i < roots.len()
        invariant
            i <= roots.len(),
            forall|datum: Datum|
                present@.contains(#[trigger] datum_key(datum)) <==> (datum is Edge && edges_now@.contains(
                    datum->Edge_0,
                )) || (datum is Root && roots_now@.contains(datum->Root_0)),
            lost == exists|k: int| 0 <= k < i && !roots_now@.contains(#[trigger] roots@[k]),
        decreases roots.len() - i,
    {
        let key = key_of(&Datum::Root(roots[i]));
        if !present.contains(&key) {
            lost = true;
        }
        i += 1;
    }
    let mut through: Option<Distance> = None;
    let mut j: usize = 0;
    while j < edges.len()
        invariant
            j <= edges.len(),
            labels_at_most(labels@, label_limit()),
            forall|datum: Datum|
                present@.contains(#[trigger] datum_key(datum)) <==> (datum is Edge && edges_now@.contains(
                    datum->Edge_0,
                )) || (datum is Root && roots_now@.contains(datum->Root_0)),
            threshold_view(through) == least_lost(edges@, labels@, edges_now@, j as nat),
        decreases edges.len() - j,
    {
        let (from, to, weight) = edges[j];
        let key = key_of(&Datum::Edge((from, to, weight)));
        if !present.contains(&key) {
            match labels.get(from) {
                Some(held) => {
                    let weighed: Distance = held + weight as Distance;
                    let lower = match through {
                        Some(bound) => weighed < bound,
                        None => true,
                    };
                    if lower {
                        through = Some(weighed);
                    }
                },
                None => {},
            }
        }
        j += 1;
    }
    if lost {
        Some(0)
    } else {
        through
    }
}

/// The labels that outlast the change from the graph of `edges` and
/// `roots`, whose distances `labels` are, to the graph of `edges_now` and
/// `roots_now`: those that lie below the threshold. Each of them is still
/// the weight of a walk from a root.
pub fn keep_supported(
    edges: &Vec<WeightedEdge>,
    roots: &Vec<Node>,
    labels: &DistanceLabels,
    edges_now: &Vec<WeightedEdge>,
    roots_now: &Vec<Node>,
) -> (kept: DistanceLabels)
    requires
        is_distance_map(edges@, roots@, labels@),
    ensures
        kept@ == supported(edges@, roots@, labels@, edges_now@, roots_now@),
        is_realized(edges_now@, roots_now@, kept@),
        labels_at_most(kept@, max_node(edges@) as nat * 0xFFFF_FFFF),
{
    proof {
        lemma_distance_bound(edges@, roots@, labels@);
    }
    let found = threshold_of(edges, roots, labels, edges_now, roots_now);
    let ghost least = threshold(edges@, roots@, labels@, edges_now@, roots_now@);
    let mut kept = DistanceLabels::new();
    let mut i: usize = 0;
    while i < roots.len()
        invariant
            i <= roots.len(),
            threshold_view(found) == least,
            forall|node: Node| #[trigger]
                kept@.contains_key(node) ==> labels@.contains_key(node) && kept@[node] == labels@[node] && below(
                    least,
                    labels@[node],
                ),
            forall|k: int|
                0 <= k < i && labels@.contains_key(#[trigger] roots@[k]) && below(least, labels@[roots@[k]])
                    ==> kept@.contains_key(roots@[k]),
        decreases roots.len() - i,
    {
        let node = roots[i];
        match labels.get(node) {
            Some(held) => {
                let under = match found {
                    Some(bound) => held < bound,
                    None => true,
                };
                if under {
                    kept.set(node, held);
                }
            },
            None => {},
        }
        i += 1;
    }
    let mut j: usize = 0;
    while j < edges.len()
        invariant
            j <= edges.len(),
            threshold_view(found) == least,
            forall|node: Node| #[trigger]
                kept@.contains_key(node) ==> labels@.contains_key(node) && kept@[node] == labels@[node] && below(
                    least,
                    labels@[node],
                ),
            forall|k: int|
                0 <= k < roots@.len() && labels@.contains_key(#[trigger] roots@[k]) && below(
                    least,
                    labels@[roots@[k]],
                ) ==> kept@.contains_key(roots@[k]),
            forall|k: int|
                0 <= k < j && labels@.contains_key((#[trigger] edges@[k]).1) && below(least, labels@[edges@[k].1])
                    ==> kept@.contains_key(edges@[k].1),
        decreases edges.len() - j,
    {
        let node = edges[j].1;
        match labels.get(node) {
            Some(held) => {
                let under = match found {
                    Some(bound) => held < bound,
                    None => true,
                };
                if under {
                    kept.set(node, held);
                }
            },
            None => {},
        }
        j += 1;
    }
    proof {
        lemma_threshold_undercuts(edges@, roots@, labels@, edges_now@, roots_now@);
        assert forall|node: Node| #[trigger] kept@.contains_key(node) implies exists|root: Node, walk: Seq<int>|
            roots_now@.contains(root) && #[trigger] is_walk(edges_now@, walk, root, node) && walk_weight(
                edges_now@,
                walk,
            ) == kept@[node] by {
            lemma_supported(edges@, roots@, labels@, edges_now@, roots_now@, least, node);
        }
    }
    kept
}

} // verus!
