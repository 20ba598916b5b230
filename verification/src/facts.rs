//! Facts: edges and roots, each with the time at which it was said and
//! with a signed multiplicity. What was inserted more often than it was
//! retracted is live.

use std::collections::{HashMap, HashSet};
use vstd::prelude::*;
use crate::graph::{Node, WeightedEdge};

verus! {

/// What a fact is about.
#[derive(Clone, Copy, Debug, PartialEq, Eq)]
pub enum Datum {
    Edge(WeightedEdge),
    Root(Node),
}

/// A datum, the time at which it was said, and how often: +1 inserts it,
/// -1 retracts it.
#[derive(Clone, Copy, Debug, PartialEq, Eq)]
pub struct Fact {
    pub datum: Datum,
    pub time: u32,
    pub multiplicity: i64,
}

/// The sum of the multiplicities of the facts about `datum`.
pub open spec fn net_multiplicity(facts: Seq<Fact>, datum: Datum) -> int
    decreases facts.len(),
{
    if facts.len() == 0 {
        0
    } else {
        net_multiplicity(facts.drop_last(), datum) + if facts.last().datum == datum {
            facts.last().multiplicity as int
        } else {
            0
        }
    }
}

/// `datum` was inserted more often than it was retracted.
pub open spec fn is_live(facts: Seq<Fact>, datum: Datum) -> bool {
    net_multiplicity(facts, datum) > 0
}

/// One of the first `count` facts is about `datum`.
pub open spec fn occurs_within(facts: Seq<Fact>, datum: Datum, count: int) -> bool {
    exists|k: int| 0 <= k < count && k < facts.len() && (#[trigger] facts[k]).datum == datum
}

/// The live edges among those that the first `count` facts speak of, each
/// once, in the order in which the facts first speak of them.
pub open spec fn live_edges_upto(facts: Seq<Fact>, count: nat) -> Seq<WeightedEdge>
    decreases count,
{
    if count == 0 {
        Seq::empty()
    } else {
        let rest = live_edges_upto(facts, (count - 1) as nat);
        let fact = facts[count - 1];
        match fact.datum {
            Datum::Edge(edge) => if !occurs_within(facts, fact.datum, count - 1) && is_live(facts, fact.datum) {
                rest.push(edge)
            } else {
                rest
            },
            Datum::Root(_) => rest,
        }
    }
}

/// The live roots among those that the first `count` facts speak of, each
/// once, in the order in which the facts first speak of them.
pub open spec fn live_roots_upto(facts: Seq<Fact>, count: nat) -> Seq<Node>
    decreases count,
{
    if count == 0 {
        Seq::empty()
    } else {
        let rest = live_roots_upto(facts, (count - 1) as nat);
        let fact = facts[count - 1];
        match fact.datum {
            Datum::Root(node) => if !occurs_within(facts, fact.datum, count - 1) && is_live(facts, fact.datum) {
                rest.push(node)
            } else {
                rest
            },
            Datum::Edge(_) => rest,
        }
    }
}

/// The live edges of `facts`.
pub open spec fn live_edges(facts: Seq<Fact>) -> Seq<WeightedEdge> {
    live_edges_upto(facts, facts.len())
}

/// The live roots of `facts`.
pub open spec fn live_roots(facts: Seq<Fact>) -> Seq<Node> {
    live_roots_upto(facts, facts.len())
}

/// A number that stands for a datum, and for no other.
pub open spec fn datum_key(datum: Datum) -> u128 {
    match datum {
        Datum::Edge(edge) => (0x1_0000_0000_0000_0000_0000_0000 + edge.0 * 0x1_0000_0000_0000_0000 + edge.1
            * 0x1_0000_0000 + edge.2) as u128,
        Datum::Root(node) => node as u128,
    }
}

/// What is live was spoken of.
pub proof fn lemma_live_occurs(facts: Seq<Fact>, datum: Datum)
    requires
        net_multiplicity(facts, datum) != 0,
    ensures
        occurs_within(facts, datum, facts.len() as int),
    decreases facts.len(),
{
    if facts.last().datum != datum {
        lemma_live_occurs(facts.drop_last(), datum);
    }
}

/// A net multiplicity is at most the number of facts times the largest
/// multiplicity of one.
proof fn lemma_net_bound(facts: Seq<Fact>, datum: Datum)
    ensures
        -(facts.len() * 0x8000_0000_0000_0000) <= net_multiplicity(facts, datum) <= facts.len()
            * 0x8000_0000_0000_0000,
    decreases facts.len(),
{
    if facts.len() > 0 {
        lemma_net_bound(facts.drop_last(), datum);
    }
}

/// The live edges up to a place are the live edges that were spoken of up
/// to there.
proof fn lemma_live_edges_upto(facts: Seq<Fact>, count: nat, edge: WeightedEdge)
    requires
        count <= facts.len(),
    ensures
        live_edges_upto(facts, count).contains(edge) <==> is_live(facts, Datum::Edge(edge)) && occurs_within(
            facts,
            Datum::Edge(edge),
            count as int,
        ),
    decreases count,
{
    if count > 0 {
        let rest = live_edges_upto(facts, (count - 1) as nat);
        let fact = facts[count - 1];
        lemma_live_edges_upto(facts, (count - 1) as nat, edge);
        match fact.datum {
            Datum::Edge(other) => {
                if !occurs_within(facts, fact.datum, count - 1) && is_live(facts, fact.datum) {
                    assert(rest.push(other).last() == other);
                    assert forall|i: int| 0 <= i < rest.len() implies rest.push(other)[i] == rest[i] by {}
                }
            },
            Datum::Root(_) => {},
        }
    }
}

/// The live edges are exactly the edges that are live.
pub proof fn lemma_live_edges(facts: Seq<Fact>, edge: WeightedEdge)
    ensures
        live_edges(facts).contains(edge) <==> is_live(facts, Datum::Edge(edge)),
{
    lemma_live_edges_upto(facts, facts.len(), edge);
    if is_live(facts, Datum::Edge(edge)) {
        lemma_live_occurs(facts, Datum::Edge(edge));
    }
}

/// The live roots up to a place are the live roots that were spoken of up
/// to there.
proof fn lemma_live_roots_upto(facts: Seq<Fact>, count: nat, node: Node)
    requires
        count <= facts.len(),
    ensures
        live_roots_upto(facts, count).contains(node) <==> is_live(facts, Datum::Root(node)) && occurs_within(
            facts,
            Datum::Root(node),
            count as int,
        ),
    decreases count,
{
    if count > 0 {
        let rest = live_roots_upto(facts, (count - 1) as nat);
        let fact = facts[count - 1];
        lemma_live_roots_upto(facts, (count - 1) as nat, node);
        match fact.datum {
            Datum::Root(other) => {
                if !occurs_within(facts, fact.datum, count - 1) && is_live(facts, fact.datum) {
                    assert(rest.push(other).last() == other);
                    assert forall|i: int| 0 <= i < rest.len() implies rest.push(other)[i] == rest[i] by {}
                }
            },
            Datum::Edge(_) => {},
        }
    }
}

/// The live roots are exactly the roots that are live.
pub proof fn lemma_live_roots(facts: Seq<Fact>, node: Node)
    ensures
        live_roots(facts).contains(node) <==> is_live(facts, Datum::Root(node)),
{
    lemma_live_roots_upto(facts, facts.len(), node);
    if is_live(facts, Datum::Root(node)) {
        lemma_live_occurs(facts, Datum::Root(node));
    }
}

/// Where more facts are said and no datum is live that was not, nor the
/// other way about, the live edges and roots that the earlier facts spoke
/// of stay what they were.
proof fn lemma_live_upto_extends(facts: Seq<Fact>, more: Seq<Fact>, count: nat)
    requires
        count <= facts.len(),
        forall|datum: Datum| is_live(facts + more, datum) == is_live(facts, datum),
    ensures
        live_edges_upto(facts + more, count) == live_edges_upto(facts, count),
        live_roots_upto(facts + more, count) == live_roots_upto(facts, count),
    decreases count,
{
    if count > 0 {
        let all = facts + more;
        lemma_live_upto_extends(facts, more, (count - 1) as nat);
        let datum = facts[count - 1].datum;
        if occurs_within(facts, datum, count - 1) {
            let k = choose|k: int| 0 <= k < count - 1 && k < facts.len() && (#[trigger] facts[k]).datum == datum;
            assert(all[k].datum == datum);
        }
    }
}

/// An insertion that is followed by its retraction leaves the graph as if
/// neither had been said: the same edges and the same roots are live, in
/// the same order.
pub proof fn lemma_retraction_cancels(facts: Seq<Fact>, datum: Datum, multiplicity: i64, said: u32, retracted: u32)
    requires
        multiplicity > i64::MIN,
    ensures
        live_edges(
            facts.push(Fact { datum, time: said, multiplicity }).push(
                Fact { datum, time: retracted, multiplicity: (-multiplicity) as i64 },
            ),
        ) == live_edges(facts),
        live_roots(
            facts.push(Fact { datum, time: said, multiplicity }).push(
                Fact { datum, time: retracted, multiplicity: (-multiplicity) as i64 },
            ),
        ) == live_roots(facts),
{
    let insertion = Fact { datum, time: said, multiplicity };
    let retraction = Fact { datum, time: retracted, multiplicity: (-multiplicity) as i64 };
    let more = seq![insertion, retraction];
    let all = facts.push(insertion).push(retraction);
    assert(all =~= facts + more);
    assert(all.drop_last() =~= facts.push(insertion));
    assert(facts.push(insertion).drop_last() =~= facts);
    assert forall|other: Datum| net_multiplicity(all, other) == net_multiplicity(facts, other) by {
        let with_insertion = facts.push(insertion);
        assert(net_multiplicity(with_insertion, other) == net_multiplicity(facts, other) + if datum == other {
            multiplicity as int
        } else {
            0
        });
    }
    lemma_live_upto_extends(facts, more, facts.len());
    let n = facts.len() as int;
    if is_live(facts, datum) {
        lemma_live_occurs(facts, datum);
    }
    assert(live_edges_upto(all, (n + 1) as nat) == live_edges_upto(all, n as nat));
    assert(live_roots_upto(all, (n + 1) as nat) == live_roots_upto(all, n as nat));
}

/// The number that stands for `datum`.
pub fn key_of(datum: &Datum) -> (key: u128)
    ensures
        key == datum_key(*datum),
{
    match datum {
        Datum::Edge((from, to, weight)) => 0x1_0000_0000_0000_0000_0000_0000u128 + (*from as u128)
            * 0x1_0000_0000_0000_0000u128 + (*to as u128) * 0x1_0000_0000u128 + (*weight as u128),
        Datum::Root(node) => *node as u128,
    }
}

/// The net multiplicity of every datum that the first `count` facts speak
/// of, under the number that stands for it.
fn net_counts(facts: &Vec<Fact>, count: usize) -> (counts: HashMap<u128, i128>)
    requires
        count <= facts.len(),
    ensures
        forall|datum: Datum|
            net_multiplicity(facts@.take(count as int), datum) == if counts@.contains_key(
                #[trigger] datum_key(datum),
            ) {
                counts@[datum_key(datum)] as int
            } else {
                0
            },
{
    let mut counts: HashMap<u128, i128> = HashMap::new();
    let ghost all = facts@.take(count as int);
    let mut i: usize = 0;
    while i < count
        invariant
            i <= count <= facts.len(),
            all == facts@.take(count as int),
            forall|datum: Datum|
                net_multiplicity(all.take(i as int), datum) == if counts@.contains_key(#[trigger] datum_key(datum)) {
                    counts@[datum_key(datum)] as int
                } else {
                    0
                },
        decreases count - i,
    {
        let fact = facts[i];
        let key = key_of(&fact.datum);
        let held: i128 = match counts.get(&key) {
            Some(sum) => *sum,
            None => 0,
        };
        proof {
            assert(all.take(i + 1).drop_last() =~= all.take(i as int));
            lemma_net_bound(all.take(i as int), fact.datum);
        }
        counts.insert(key, held + fact.multiplicity as i128);
        i += 1;
    }
    proof {
        assert(all.take(i as int) =~= all);
    }
    counts
}

/// The live edges and the live roots of the first `count` facts.
pub fn live_graph(facts: &Vec<Fact>, count: usize) -> (live: (Vec<WeightedEdge>, Vec<Node>))
    requires
        count <= facts.len(),
    ensures
        live.0@ == live_edges(facts@.take(count as int)),
        live.1@ == live_roots(facts@.take(count as int)),
{
    let counts = net_counts(facts, count);
    let ghost all = facts@.take(count as int);
    let mut seen: HashSet<u128> = HashSet::new();
    let mut edges: Vec<WeightedEdge> = Vec::new();
    let mut roots: Vec<Node> = Vec::new();
    let mut i: usize = 0;
    while i < count
        invariant
            i <= count <= facts.len(),
            all == facts@.take(count as int),
            forall|datum: Datum|
                net_multiplicity(all, datum) == if counts@.contains_key(#[trigger] datum_key(datum)) {
                    counts@[datum_key(datum)] as int
                } else {
                    0
                },
            forall|datum: Datum| seen@.contains(#[trigger] datum_key(datum)) <==> occurs_within(all, datum, i as int),
            edges@ == live_edges_upto(all, i as nat),
            roots@ == live_roots_upto(all, i as nat),
        decreases count - i,
    {
        let fact = facts[i];
        let key = key_of(&fact.datum);
        assert(all[i as int] == fact);
        let fresh = seen.insert(key);
        let live = match counts.get(&key) {
            Some(sum) => *sum > 0,
            None => false,
        };
        if fresh && live {
            match fact.datum {
                Datum::Edge(edge) => {
                    edges.push(edge);
                },
                Datum::Root(node) => {
                    roots.push(node);
                },
            }
        }
        i += 1;
    }
    (edges, roots)
}

} // verus!
