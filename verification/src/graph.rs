//! Nodes, weights and edges.

use vstd::prelude::*;

verus! {

/// A node is named by a number; the numbers in use need not be contiguous.
pub type Node = u32;

/// The weight of one edge.
pub type Weight = u32;

/// A directed edge `(from, to)`.
pub type UnweightedEdge = (Node, Node);

/// A directed edge `(from, to, weight)`.
pub type WeightedEdge = (Node, Node, Weight);

/// The larger of two nodes.
pub open spec fn larger(a: Node, b: Node) -> Node {
    if a >= b {
        a
    } else {
        b
    }
}

/// The largest node that the edges touch, or 0 where there are no edges.
pub open spec fn max_node(edges: Seq<WeightedEdge>) -> Node
    decreases edges.len(),
{
    if edges.len() == 0 {
        0
    } else {
        larger(max_node(edges.drop_last()), larger(edges.last().0, edges.last().1))
    }
}

/// No edge touches a node beyond `max_node`.
pub proof fn lemma_max_node_bounds(edges: Seq<WeightedEdge>, i: int)
    requires
        0 <= i < edges.len(),
    ensures
        edges[i].0 <= max_node(edges),
        edges[i].1 <= max_node(edges),
    decreases edges.len(),
{
    if i < edges.len() - 1 {
        lemma_max_node_bounds(edges.drop_last(), i);
    }
}

/// The size of the node universe of an edge list, taken as its largest node.
pub fn num_nodes_from_edge_list(edges: &Vec<WeightedEdge>) -> (max: u32)
    ensures
        max == max_node(edges@),
{
    let mut max: u32 = 0;
    let mut i: usize = 0;
    while i < edges.len()
        invariant
            i <= edges.len(),
            max == max_node(edges@.take(i as int)),
        decreases edges.len() - i,
    {
        let (from, to, _) = edges[i];
        if from > max {
            max = from;
        }
        if to > max {
            max = to;
        }
        proof {
            assert(edges@.take(i + 1).drop_last() =~= edges@.take(i as int));
        }
        i += 1;
    }
    proof {
        assert(edges@.take(i as int) =~= edges@);
    }
    max
}

} // verus!
