//! Walks through a list of edges, and what it means to be a shortest one.

use vstd::prelude::*;
use crate::graph::{Node, WeightedEdge};

verus! {

/// `walk` lists, by their indices in `edges`, the edges of a walk that
/// leads from `from` to `to`. The empty walk leads from a node to itself.
pub open spec fn is_walk(edges: Seq<WeightedEdge>, walk: Seq<int>, from: Node, to: Node) -> bool {
    &&& forall|i: int| 0 <= i < walk.len() ==> 0 <= #[trigger] walk[i] < edges.len()
    &&& walk.len() == 0 ==> from == to
    &&& walk.len() > 0 ==> edges[walk[0]].0 == from && edges[walk.last()].1 == to
    &&& forall|i: int, j: int|
        0 <= i && j == i + 1 && j < walk.len() ==> edges[#[trigger] walk[i]].1 == edges[#[trigger] walk[j]].0
}

/// The sum of the weights of the edges of `walk`.
pub open spec fn walk_weight(edges: Seq<WeightedEdge>, walk: Seq<int>) -> nat
    decreases walk.len(),
{
    if walk.len() == 0 {
        0
    } else {
        walk_weight(edges, walk.drop_last()) + edges[walk.last()].2 as nat
    }
}

/// The node that `walk` has reached after `steps` of its edges.
pub open spec fn walk_node(edges: Seq<WeightedEdge>, walk: Seq<int>, from: Node, steps: int) -> Node {
    if steps == 0 {
        from
    } else {
        edges[walk[steps - 1]].1
    }
}

/// Some walk leads from one of `roots` to `node`.
pub open spec fn reachable(edges: Seq<WeightedEdge>, roots: Seq<Node>, node: Node) -> bool {
    exists|root: Node, walk: Seq<int>| roots.contains(root) && #[trigger] is_walk(edges, walk, root, node)
}

/// Some walk from one of `roots` to `node` weighs `distance`, and none weighs less.
pub open spec fn is_shortest(edges: Seq<WeightedEdge>, roots: Seq<Node>, node: Node, distance: nat) -> bool {
    &&& exists|root: Node, walk: Seq<int>|
        roots.contains(root) && #[trigger] is_walk(edges, walk, root, node) && walk_weight(edges, walk)
            == distance
    &&& forall|root: Node, walk: Seq<int>|
        roots.contains(root) && #[trigger] is_walk(edges, walk, root, node) ==> distance <= walk_weight(
            edges,
            walk,
        )
}

/// `labels` holds exactly the nodes that `roots` reach, each with the weight
/// of a shortest walk to it.
pub open spec fn is_distance_map(edges: Seq<WeightedEdge>, roots: Seq<Node>, labels: Map<Node, nat>) -> bool {
    &&& forall|node: Node| #[trigger] labels.contains_key(node) <==> reachable(edges, roots, node)
    &&& forall|node: Node| #[trigger] labels.contains_key(node) ==> is_shortest(edges, roots, node, labels[node])
}

/// Every endpoint of every edge lies in `nodes`.
pub open spec fn endpoints_within(edges: Seq<WeightedEdge>, nodes: Set<Node>) -> bool {
    forall|i: int| 0 <= i < edges.len() ==> nodes.contains((#[trigger] edges[i]).0) && nodes.contains(edges[i].1)
}

/// A walk that goes on along one more edge.
pub proof fn lemma_walk_push(edges: Seq<WeightedEdge>, walk: Seq<int>, from: Node, edge: int)
    requires
        0 <= edge < edges.len(),
        is_walk(edges, walk, from, edges[edge].0),
    ensures
        is_walk(edges, walk.push(edge), from, edges[edge].1),
        walk_weight(edges, walk.push(edge)) == walk_weight(edges, walk) + edges[edge].2,
{
    let longer = walk.push(edge);
    assert(longer.drop_last() =~= walk);
}

/// The weight of two stretches of edges is the sum of their weights.
proof fn lemma_weight_concat(edges: Seq<WeightedEdge>, first: Seq<int>, second: Seq<int>)
    ensures
        walk_weight(edges, first + second) == walk_weight(edges, first) + walk_weight(edges, second),
    decreases second.len(),
{
    if second.len() > 0 {
        assert((first + second).drop_last() =~= first + second.drop_last());
        lemma_weight_concat(edges, first, second.drop_last());
    }
}

/// No edge weighs more than `u32::MAX`, so a walk weighs at most that
/// times its length.
pub proof fn lemma_weight_bound(edges: Seq<WeightedEdge>, walk: Seq<int>)
    ensures
        walk_weight(edges, walk) <= walk.len() * 0xFFFF_FFFF,
    decreases walk.len(),
{
    if walk.len() > 0 {
        lemma_weight_bound(edges, walk.drop_last());
    }
}

/// Where a walk comes to one node twice, the round trip between the two
/// visits can be left out.
proof fn lemma_walk_cut(edges: Seq<WeightedEdge>, walk: Seq<int>, from: Node, to: Node, i: int, j: int)
    requires
        is_walk(edges, walk, from, to),
        0 <= i < j <= walk.len(),
        walk_node(edges, walk, from, i) == walk_node(edges, walk, from, j),
    ensures
        is_walk(edges, walk.subrange(0, i) + walk.subrange(j, walk.len() as int), from, to),
        walk_weight(edges, walk.subrange(0, i) + walk.subrange(j, walk.len() as int)) <= walk_weight(
            edges,
            walk,
        ),
{
    let n = walk.len() as int;
    let head = walk.subrange(0, i);
    let loop_part = walk.subrange(i, j);
    let tail = walk.subrange(j, n);
    assert(walk =~= (head + loop_part) + tail);
    lemma_weight_concat(edges, head + loop_part, tail);
    lemma_weight_concat(edges, head, loop_part);
    lemma_weight_concat(edges, head, tail);
}

/// A walk can be cut down until it comes to no node twice: to fewer edges
/// than there are nodes that edges touch.
pub proof fn lemma_walk_shorten(
    edges: Seq<WeightedEdge>,
    nodes: Set<Node>,
    walk: Seq<int>,
    from: Node,
    to: Node,
) -> (short: Seq<int>)
    requires
        nodes.finite(),
        endpoints_within(edges, nodes),
        is_walk(edges, walk, from, to),
    ensures
        is_walk(edges, short, from, to),
        walk_weight(edges, short) <= walk_weight(edges, walk),
        short.len() <= walk.len(),
        short.len() == 0 || short.len() < nodes.len(),
    decreases walk.len(),
{
    if walk.len() == 0 || walk.len() < nodes.len() {
        walk
    } else {
        let visited = Seq::new(walk.len() + 1, |k: int| walk_node(edges, walk, from, k));
        if visited.no_duplicates() {
            // There would be more nodes on the walk than there are nodes.
            visited.unique_seq_to_set();
            vstd::set_lib::lemma_len_subset(visited.to_set(), nodes);
        }
        let (a, b) = choose|a: int, b: int|
            0 <= a < visited.len() && 0 <= b < visited.len() && a != b && visited[a] == visited[b];
        let (i, j) = if a < b {
            (a, b)
        } else {
            (b, a)
        };
        lemma_walk_cut(edges, walk, from, to, i, j);
        let cut = walk.subrange(0, i) + walk.subrange(j, walk.len() as int);
        lemma_walk_shorten(edges, nodes, cut, from, to)
    }
}

/// The edges of a walk before one of them lead to that edge's source, and
/// together with it they weigh no more than the whole walk.
pub proof fn lemma_walk_take(edges: Seq<WeightedEdge>, walk: Seq<int>, from: Node, to: Node, place: int)
    requires
        is_walk(edges, walk, from, to),
        0 <= place < walk.len(),
    ensures
        0 <= walk[place] < edges.len(),
        is_walk(edges, walk.take(place), from, edges[walk[place]].0),
        walk_weight(edges, walk.take(place)) + edges[walk[place]].2 <= walk_weight(edges, walk),
{
    let head = walk.take(place);
    let rest = walk.skip(place);
    assert(walk =~= head + rest);
    lemma_weight_concat(edges, head, rest);
    assert(walk_weight(edges, rest) >= edges[walk[place]].2) by {
        let first = rest.take(1);
        assert(rest =~= first + rest.skip(1));
        lemma_weight_concat(edges, first, rest.skip(1));
    }
}

/// A walk whose edges all occur in another list of edges is a walk
/// through that list too, of the same weight.
pub proof fn lemma_walk_transfer(
    edges: Seq<WeightedEdge>,
    others: Seq<WeightedEdge>,
    walk: Seq<int>,
    from: Node,
    to: Node,
) -> (moved: Seq<int>)
    requires
        is_walk(edges, walk, from, to),
        forall|i: int| 0 <= i < walk.len() ==> others.contains(edges[#[trigger] walk[i]]),
    ensures
        is_walk(others, moved, from, to),
        walk_weight(others, moved) == walk_weight(edges, walk),
    decreases walk.len(),
{
    if walk.len() == 0 {
        walk
    } else {
        let shorter = walk.drop_last();
        let moved = lemma_walk_transfer(edges, others, shorter, from, edges[walk.last()].0);
        let edge = choose|edge: int| 0 <= edge < others.len() && others[edge] == edges[walk.last()];
        lemma_walk_push(others, moved, from, edge);
        moved.push(edge)
    }
}

} // verus!
