//! Random graphs and updates from a seed. Every number is drawn from the
//! ChaCha stream of the seed, at a position that the generator keeps, so
//! that equal seeds and equal requests give equal graphs.

use rand::distributions::{Distribution, Uniform};
use rand::SeedableRng;
use rand_chacha::ChaCha8Rng;
use vstd::prelude::*;
use crate::config::{GraphBenchmarkData, GraphBenchmarkUpdates};
use crate::error::{ConfigurationFault, GraphError};
use crate::graph::{max_node, num_nodes_from_edge_list, UnweightedEdge, Weight, WeightedEdge};
use crate::loader::{shard_edges, unweighted_rows, weighted_rows, GraphLoader};

verus! {

/// What `Uniform::new(low, high).sample(..)` returns from the ChaCha8
/// generator that `seed_from_u64(seed)` makes, set to the word `position`
/// of its stream, and the word position of the generator after the draw.
pub uninterp spec fn uniform_draw(seed: u64, position: u64, low: u32, high: u32) -> (u32, u128);

/// Seeds a `rand_chacha::ChaCha8Rng` with `seed_from_u64`, moves it to
/// `position` with `set_word_pos`, draws one number with
/// `rand::distributions::Uniform::new(low, high)` and reads the position
/// with `get_word_pos`. The draw depends on the four arguments alone, and
/// `Uniform` keeps it within `[low, high)`; it panics unless `low < high`.
#[verifier::external_body]
fn draw_uniform(seed: u64, position: u64, low: u32, high: u32) -> (drawn: (u32, u128))
    requires
        low < high,
    ensures
        drawn == uniform_draw(seed, position, low, high),
        low <= drawn.0 < high,
{
    let mut rng = ChaCha8Rng::seed_from_u64(seed);
    rng.set_word_pos(position as u128);
    let value = Uniform::new(low, high).sample(&mut rng);
    (value, rng.get_word_pos())
}

/// A place in the random stream of a seed.
#[derive(Clone, Copy, Debug, PartialEq, Eq)]
pub struct SeededStream {
    pub seed: u64,
    /// The number of 32-bit words of the stream that lie before this place.
    pub position: u64,
}

/// The next number in `[low, high)` from `stream` and the stream after it,
/// or nothing where the stream has no place left that the generator can
/// name.
pub open spec fn drawn(stream: SeededStream, low: u32, high: u32) -> Option<(u32, SeededStream)> {
    let (value, position) = uniform_draw(stream.seed, stream.position, low, high);
    if position <= u64::MAX {
        Some((value, SeededStream { seed: stream.seed, position: position as u64 }))
    } else {
        None
    }
}

/// The next edge from `stream`: its two endpoints below `num_nodes`, then
/// its weight in `[low, high)`.
pub open spec fn drawn_edge(stream: SeededStream, num_nodes: u32, low: Weight, high: Weight) -> Option<
    (WeightedEdge, SeededStream),
> {
    match drawn(stream, 0, num_nodes) {
        None => None,
        Some((from, after_from)) => match drawn(after_from, 0, num_nodes) {
            None => None,
            Some((to, after_to)) => match drawn(after_to, low, high) {
                None => None,
                Some((weight, after)) => Some(((from, to, weight), after)),
            },
        },
    }
}

/// The next `count` weighted edges from `stream`.
pub open spec fn drawn_weighted(stream: SeededStream, num_nodes: u32, count: nat, low: Weight, high: Weight) -> Option<
    (Seq<WeightedEdge>, SeededStream),
>
    decreases count,
{
    if count == 0 {
        Some((Seq::empty(), stream))
    } else {
        match drawn_weighted(stream, num_nodes, (count - 1) as nat, low, high) {
            None => None,
            Some((edges, before)) => match drawn_edge(before, num_nodes, low, high) {
                None => None,
                Some((edge, after)) => Some((edges.push(edge), after)),
            },
        }
    }
}

/// The next `count` edges from `stream`, each its two endpoints below
/// `num_nodes`.
pub open spec fn drawn_unweighted(stream: SeededStream, num_nodes: u32, count: nat) -> Option<
    (Seq<UnweightedEdge>, SeededStream),
>
    decreases count,
{
    if count == 0 {
        Some((Seq::empty(), stream))
    } else {
        match drawn_unweighted(stream, num_nodes, (count - 1) as nat) {
            None => None,
            Some((edges, before)) => match drawn(before, 0, num_nodes) {
                None => None,
                Some((from, after_from)) => match drawn(after_from, 0, num_nodes) {
                    None => None,
                    Some((to, after)) => Some((edges.push((from, to)), after)),
                },
            },
        }
    }
}

/// The first `count` of `edges`, each with a weight in `[low, high)` from
/// `stream`.
pub open spec fn drawn_weights(stream: SeededStream, edges: Seq<UnweightedEdge>, count: nat, low: Weight, high: Weight) -> Option<
    (Seq<WeightedEdge>, SeededStream),
>
    decreases count,
{
    if count == 0 {
        Some((Seq::empty(), stream))
    } else {
        match drawn_weights(stream, edges, (count - 1) as nat, low, high) {
            None => None,
            Some((weighted, before)) => match drawn(before, low, high) {
                None => None,
                Some((weight, after)) => Some(
                    (weighted.push((edges[count - 1].0, edges[count - 1].1, weight)), after),
                ),
            },
        }
    }
}

/// Every edge lies between nodes below `num_nodes` and weighs within
/// `[low, high)`.
pub open spec fn edges_within(edges: Seq<WeightedEdge>, num_nodes: u32, low: Weight, high: Weight) -> bool {
    forall|i: int|
        0 <= i < edges.len() ==> (#[trigger] edges[i]).0 < num_nodes && edges[i].1 < num_nodes && low
            <= edges[i].2 < high
}

/// What a request for edges gives: the fault of the request, or the edges
/// and the stream after them, or the news that the stream is used up.
pub open spec fn requested<E>(fault: Option<ConfigurationFault>, drawn: Option<(Seq<E>, SeededStream)>) -> Result<
    (Seq<E>, SeededStream),
    GraphError,
> {
    match fault {
        Some(fault) => Err(GraphError::Configuration(fault)),
        None => match drawn {
            Some(edges) => Ok(edges),
            None => Err(GraphError::StreamExhausted),
        },
    }
}

/// What is wrong with a request for edges between `num_nodes` nodes with
/// weights in `[low, high)`.
pub open spec fn request_fault(num_nodes: u32, low: Weight, high: Weight) -> Option<ConfigurationFault> {
    if num_nodes == 0 {
        Some(ConfigurationFault::NoNodes)
    } else if low >= high {
        Some(ConfigurationFault::WeightRange)
    } else {
        None
    }
}

/// `result` and the stream `after` are what `expected` says; where that is
/// an error, the stream is where it was `before`.
pub open spec fn generates<E>(
    result: Result<Vec<E>, GraphError>,
    before: SeededStream,
    after: SeededStream,
    expected: Result<(Seq<E>, SeededStream), GraphError>,
) -> bool {
    match expected {
        Ok((edges, stream)) => result is Ok && result->Ok_0@ == edges && after == stream,
        Err(error) => result == Err::<Vec<E>, GraphError>(error) && after == before,
    }
}

/// The stream of `seed` at its beginning.
pub fn default_rng(seed: u64) -> (stream: SeededStream)
    ensures
        stream == (SeededStream { seed, position: 0 }),
{
    SeededStream { seed, position: 0 }
}

impl SeededStream {
    /// Draws the next number in `[low, high)`.
    pub fn draw(&mut self, low: u32, high: u32) -> (result: Result<u32, GraphError>)
        requires
            low < high,
        ensures
            match drawn(*old(self), low, high) {
                Some((value, after)) => result == Ok::<u32, GraphError>(value) && *final(self) == after && low
                    <= value < high,
                None => result == Err::<u32, GraphError>(GraphError::StreamExhausted) && *final(self) == *old(self),
            },
    {
        let (value, position) = draw_uniform(self.seed, self.position, low, high);
        if position > u64::MAX as u128 {
            return Err(GraphError::StreamExhausted);
        }
        self.position = position as u64;
        Ok(value)
    }
}

/// Draws `num_edges` edges between nodes below `num_nodes`.
pub fn generate_unweighted_graph(rng: &mut SeededStream, num_nodes: u32, num_edges: u32) -> (result: Result<
    Vec<UnweightedEdge>,
    GraphError,
>)
    ensures
        generates(
            result,
            *old(rng),
            *final(rng),
            requested(
                if num_nodes == 0 {
                    Some(ConfigurationFault::NoNodes)
                } else {
                    None
                },
                drawn_unweighted(*old(rng), num_nodes, num_edges as nat),
            ),
        ),
        result matches Ok(edges) ==> edges@.len() == num_edges && forall|i: int|
            0 <= i < edges@.len() ==> (#[trigger] edges@[i]).0 < num_nodes && edges@[i].1 < num_nodes,
{
    if num_nodes == 0 {
        return Err(GraphError::Configuration(ConfigurationFault::NoNodes));
    }
    let start = *rng;
    let mut edges: Vec<UnweightedEdge> = Vec::new();
    let mut i: u32 = 0;
    while i < num_edges
        invariant
            i <= num_edges,
            num_nodes > 0,
            start == *old(rng),
            drawn_unweighted(start, num_nodes, i as nat) == Some((edges@, *rng)),
            edges@.len() == i,
            forall|k: int| 0 <= k < edges@.len() ==> (#[trigger] edges@[k]).0 < num_nodes && edges@[k].1 < num_nodes,
        decreases num_edges - i,
    {
        let from = match rng.draw(0, num_nodes) {
            Ok(value) => value,
            Err(error) => {
                proof {
                    lemma_unweighted_stops(start, num_nodes, (i + 1) as nat, num_edges as nat);
                }
                *rng = start;
                return Err(error);
            },
        };
        let to = match rng.draw(0, num_nodes) {
            Ok(value) => value,
            Err(error) => {
                proof {
                    lemma_unweighted_stops(start, num_nodes, (i + 1) as nat, num_edges as nat);
                }
                *rng = start;
                return Err(error);
            },
        };
        edges.push((from, to));
        i += 1;
    }
    Ok(edges)
}

/// Draws `num_edges` edges between nodes below `num_nodes`, with weights
/// in `[weight_range.0, weight_range.1)`.
pub fn generate_weighted_graph(
    rng: &mut SeededStream,
    num_nodes: u32,
    num_edges: u32,
    weight_range: (Weight, Weight),
) -> (result: Result<Vec<WeightedEdge>, GraphError>)
    ensures
        generates(
            result,
            *old(rng),
            *final(rng),
            requested(
                request_fault(num_nodes, weight_range.0, weight_range.1),
                drawn_weighted(*old(rng), num_nodes, num_edges as nat, weight_range.0, weight_range.1),
            ),
        ),
        result matches Ok(edges) ==> edges@.len() == num_edges && edges_within(
            edges@,
            num_nodes,
            weight_range.0,
            weight_range.1,
        ),
{
    if num_nodes == 0 {
        return Err(GraphError::Configuration(ConfigurationFault::NoNodes));
    }
    let (low, high) = weight_range;
    if low >= high {
        return Err(GraphError::Configuration(ConfigurationFault::WeightRange));
    }
    let start = *rng;
    let mut edges: Vec<WeightedEdge> = Vec::new();
    let mut i: u32 = 0;
    while i < num_edges
        invariant
            i <= num_edges,
            num_nodes > 0,
            low < high,
            (low, high) == weight_range,
            start == *old(rng),
            drawn_weighted(start, num_nodes, i as nat, low, high) == Some((edges@, *rng)),
            edges@.len() == i,
            edges_within(edges@, num_nodes, low, high),
        decreases num_edges - i,
    {
        let from = match rng.draw(0, num_nodes) {
            Ok(value) => value,
            Err(error) => {
                proof {
                    lemma_weighted_stops(start, num_nodes, (i + 1) as nat, num_edges as nat, low, high);
                }
                *rng = start;
                return Err(error);
            },
        };
        let to = match rng.draw(0, num_nodes) {
            Ok(value) => value,
            Err(error) => {
                proof {
                    lemma_weighted_stops(start, num_nodes, (i + 1) as nat, num_edges as nat, low, high);
                }
                *rng = start;
                return Err(error);
            },
        };
        let weight = match rng.draw(low, high) {
            Ok(value) => value,
            Err(error) => {
                proof {
                    lemma_weighted_stops(start, num_nodes, (i + 1) as nat, num_edges as nat, low, high);
                }
                *rng = start;
                return Err(error);
            },
        };
        edges.push((from, to, weight));
        i += 1;
    }
    Ok(edges)
}

/// Draws a weight in `[weight_range.0, weight_range.1)` for each of
/// `edges`, in their order.
pub fn generate_weights_for_graph(
    rng: &mut SeededStream,
    edges: Vec<UnweightedEdge>,
    weight_range: (Weight, Weight),
) -> (result: Result<Vec<WeightedEdge>, GraphError>)
    ensures
        generates(
            result,
            *old(rng),
            *final(rng),
            requested(
                if weight_range.0 >= weight_range.1 {
                    Some(ConfigurationFault::WeightRange)
                } else {
                    None
                },
                drawn_weights(*old(rng), edges@, edges@.len(), weight_range.0, weight_range.1),
            ),
        ),
        result matches Ok(weighted) ==> weighted@.len() == edges@.len() && forall|i: int|
            0 <= i < edges@.len() ==> (#[trigger] weighted@[i]).0 == edges@[i].0 && weighted@[i].1 == edges@[i].1
                && weight_range.0 <= weighted@[i].2 < weight_range.1,
{
    let (low, high) = weight_range;
    if low >= high {
        return Err(GraphError::Configuration(ConfigurationFault::WeightRange));
    }
    let start = *rng;
    let mut weighted: Vec<WeightedEdge> = Vec::new();
    let mut i: usize = 0;
    while i < edges.len()
        invariant
            i <= edges.len(),
            low < high,
            (low, high) == weight_range,
            start == *old(rng),
            drawn_weights(start, edges@, i as nat, low, high) == Some((weighted@, *rng)),
            weighted@.len() == i,
            forall|k: int|
                0 <= k < i ==> (#[trigger] weighted@[k]).0 == edges@[k].0 && weighted@[k].1 == edges@[k].1 && low
                    <= weighted@[k].2 < high,
        decreases edges.len() - i,
    {
        let (from, to) = edges[i];
        let weight = match rng.draw(low, high) {
            Ok(value) => value,
            Err(error) => {
                proof {
                    lemma_weights_stop(start, edges@, (i + 1) as nat, edges@.len(), low, high);
                }
                *rng = start;
                return Err(error);
            },
        };
        weighted.push((from, to, weight));
        i += 1;
    }
    Ok(weighted)
}

/// Once the stream is used up, no larger request can be met.
proof fn lemma_weighted_stops(stream: SeededStream, num_nodes: u32, count: nat, more: nat, low: Weight, high: Weight)
    requires
        drawn_weighted(stream, num_nodes, count, low, high) is None,
        count <= more,
    ensures
        drawn_weighted(stream, num_nodes, more, low, high) is None,
    decreases more,
{
    if count < more {
        lemma_weighted_stops(stream, num_nodes, count, (more - 1) as nat, low, high);
    }
}

/// Once the stream is used up, no larger request can be met.
proof fn lemma_unweighted_stops(stream: SeededStream, num_nodes: u32, count: nat, more: nat)
    requires
        drawn_unweighted(stream, num_nodes, count) is None,
        count <= more,
    ensures
        drawn_unweighted(stream, num_nodes, more) is None,
    decreases more,
{
    if count < more {
        lemma_unweighted_stops(stream, num_nodes, count, (more - 1) as nat);
    }
}

/// Once the stream is used up, no further weight can be drawn.
proof fn lemma_weights_stop(stream: SeededStream, edges: Seq<UnweightedEdge>, count: nat, more: nat, low: Weight, high: Weight)
    requires
        drawn_weights(stream, edges, count, low, high) is None,
        count <= more,
    ensures
        drawn_weights(stream, edges, more, low, high) is None,
    decreases more,
{
    if count < more {
        lemma_weights_stop(stream, edges, count, (more - 1) as nat, low, high);
    }
}

/// The initial graph that `desc` asks for, and the stream after it: random
/// edges from `stream`; or the weighted edges that the lines of `text`
/// hold; or the edges that they hold, each with a weight from `stream`.
pub open spec fn initial_graph(stream: SeededStream, desc: GraphBenchmarkData, text: Seq<u8>) -> Result<
    (Seq<WeightedEdge>, SeededStream),
    GraphError,
> {
    match desc {
        GraphBenchmarkData::RandomGraph { nodes, edges, weight_par } => requested(
            request_fault(nodes, weight_par.weight_range.0, weight_par.weight_range.1),
            drawn_weighted(stream, nodes, edges as nat, weight_par.weight_range.0, weight_par.weight_range.1),
        ),
        GraphBenchmarkData::RealWorldGraph { weight_par: None, .. } => match shard_edges(
            text,
            0,
            1,
            weighted_rows(),
        ) {
            Ok(edges) => Ok((edges, stream)),
            Err(error) => Err(error),
        },
        GraphBenchmarkData::RealWorldGraph { weight_par: Some(parameters), .. } => match shard_edges(
            text,
            0,
            1,
            unweighted_rows(),
        ) {
            Ok(edges) => requested(
                if parameters.weight_range.0 >= parameters.weight_range.1 {
                    Some(ConfigurationFault::WeightRange)
                } else {
                    None
                },
                drawn_weights(stream, edges, edges.len(), parameters.weight_range.0, parameters.weight_range.1),
            ),
            Err(error) => Err(error),
        },
    }
}

/// The size of the node universe that an initial graph sets up: the number
/// of nodes asked for, or the largest node of the file's edges.
pub open spec fn universe(desc: GraphBenchmarkData, edges: Seq<WeightedEdge>) -> u32 {
    match desc {
        GraphBenchmarkData::RandomGraph { nodes, .. } => nodes,
        GraphBenchmarkData::RealWorldGraph { .. } => max_node(edges),
    }
}

/// The updates that `desc` asks for from a generator with the stream
/// `stream` and a universe of `num_nodes` nodes, and the stream after them.
pub open spec fn graph_updates(stream: SeededStream, num_nodes: u32, desc: GraphBenchmarkUpdates) -> Result<
    (Seq<WeightedEdge>, SeededStream),
    GraphError,
> {
    if num_nodes == 0 {
        Err(GraphError::Sequence)
    } else {
        match desc {
            GraphBenchmarkUpdates::RandomUpdates { edges_per_update, weight_par } => requested(
                request_fault(num_nodes, weight_par.weight_range.0, weight_par.weight_range.1),
                drawn_weighted(
                    stream,
                    num_nodes,
                    edges_per_update as nat,
                    weight_par.weight_range.0,
                    weight_par.weight_range.1,
                ),
            ),
        }
    }
}

/// The batches of `rounds` rounds of updates, one after the other from
/// `stream`.
pub open spec fn update_rounds(stream: SeededStream, num_nodes: u32, desc: GraphBenchmarkUpdates, rounds: nat) -> Result<
    (Seq<Seq<WeightedEdge>>, SeededStream),
    GraphError,
>
    decreases rounds,
{
    if rounds == 0 {
        Ok((Seq::empty(), stream))
    } else {
        match update_rounds(stream, num_nodes, desc, (rounds - 1) as nat) {
            Err(error) => Err(error),
            Ok((batches, before)) => match graph_updates(before, num_nodes, desc) {
                Err(error) => Err(error),
                Ok((batch, after)) => Ok((batches.push(batch), after)),
            },
        }
    }
}

/// All the edges of a run: the initial graph of `desc` from the stream of
/// `seed`, then `rounds` batches of updates.
pub open spec fn generated_run(
    seed: u64,
    desc: GraphBenchmarkData,
    text: Seq<u8>,
    updates: GraphBenchmarkUpdates,
    rounds: nat,
) -> Result<(Seq<WeightedEdge>, Seq<Seq<WeightedEdge>>), GraphError> {
    match initial_graph(SeededStream { seed, position: 0 }, desc, text) {
        Err(error) => Err(error),
        Ok((edges, stream)) => match update_rounds(stream, universe(desc, edges), updates, rounds) {
            Err(error) => Err(error),
            Ok((batches, _)) => Ok((edges, batches)),
        },
    }
}

/// What a request gives is settled by the stream and the request: two
/// outcomes of the same request from the same place in the stream are the
/// same edges, or the same error, and leave the stream at the same place.
pub proof fn lemma_one_outcome<E>(
    first: Result<Vec<E>, GraphError>,
    second: Result<Vec<E>, GraphError>,
    before: SeededStream,
    after_first: SeededStream,
    after_second: SeededStream,
    expected: Result<(Seq<E>, SeededStream), GraphError>,
)
    requires
        generates(first, before, after_first, expected),
        generates(second, before, after_second, expected),
    ensures
        after_first == after_second,
        match (first, second) {
            (Ok(edges), Ok(others)) => edges@ == others@,
            (Err(error), Err(other)) => error == other,
            _ => false,
        },
{
}

/// Two runs with the same seed and the same requests generate the same
/// initial graph and the same batches of updates.
pub proof fn lemma_runs_agree(
    seed: u64,
    other_seed: u64,
    desc: GraphBenchmarkData,
    other_desc: GraphBenchmarkData,
    text: Seq<u8>,
    other_text: Seq<u8>,
    updates: GraphBenchmarkUpdates,
    other_updates: GraphBenchmarkUpdates,
    rounds: nat,
)
    requires
        seed == other_seed,
        desc == other_desc,
        text == other_text,
        updates == other_updates,
    ensures
        generated_run(seed, desc, text, updates, rounds) == generated_run(
            other_seed,
            other_desc,
            other_text,
            other_updates,
            rounds,
        ),
{
}

/// The source of a run's edges: a random stream, and the size of the node
/// universe that the initial graph has set up.
pub struct GraphDataGenerator {
    rng: SeededStream,
    num_nodes: u32,
}

impl View for GraphDataGenerator {
    type V = (SeededStream, u32);

    /// The stream, and the size of the node universe; 0 before any initial
    /// graph.
    closed spec fn view(&self) -> (SeededStream, u32) {
        (self.rng, self.num_nodes)
    }
}

impl GraphDataGenerator {
    /// A generator at the beginning of the stream of `seed`, with no node
    /// universe yet.
    pub fn new_from_seed(seed: u64) -> (generator: GraphDataGenerator)
        ensures
            generator@ == (SeededStream { seed, position: 0 }, 0u32),
    {
        GraphDataGenerator { rng: default_rng(seed), num_nodes: 0 }
    }

    /// The initial graph that `desc` asks for. `text` holds the bytes of
    /// the edge list that a file's graph is read from; for a random graph
    /// it is not read. The node universe is set up from the graph.
    pub fn gen_initial_graph(&mut self, desc: &GraphBenchmarkData, text: &[u8]) -> (result: Result<
        Vec<WeightedEdge>,
        GraphError,
    >)
        ensures
            generates(result, old(self)@.0, final(self)@.0, initial_graph(old(self)@.0, *desc, text@)),
            final(self)@.1 == match result {
                Ok(edges) => universe(*desc, edges@),
                Err(_) => old(self)@.1,
            },
    {
        match desc {
            GraphBenchmarkData::RandomGraph { nodes, edges, weight_par } => {
                let generated = generate_weighted_graph(&mut self.rng, *nodes, *edges, weight_par.weight_range);
                if generated.is_ok() {
                    self.num_nodes = *nodes;
                }
                generated
            },
            GraphBenchmarkData::RealWorldGraph { path_to_edge_list: _, weight_par } => {
                let loader = GraphLoader::default();
                let edges = match weight_par {
                    None => loader.load_weighted_graph(text),
                    Some(parameters) => match loader.load_unweighted_graph(text) {
                        Ok(unweighted) => generate_weights_for_graph(
                            &mut self.rng,
                            unweighted,
                            parameters.weight_range,
                        ),
                        Err(error) => Err(error),
                    },
                };
                match edges {
                    Ok(edges) => {
                        self.num_nodes = num_nodes_from_edge_list(&edges);
                        Ok(edges)
                    },
                    Err(error) => Err(error),
                }
            },
        }
    }

    /// The size of the node universe.
    pub fn max_num_nodes(&self) -> (num_nodes: u32)
        ensures
            num_nodes == self@.1,
    {
        self.num_nodes
    }

    /// The next batch of updates that `desc` asks for, between nodes of the
    /// universe that the initial graph has set up. Before any initial graph
    /// there is no universe to draw from.
    pub fn gen_graph_updates(&mut self, desc: &GraphBenchmarkUpdates) -> (result: Result<
        Vec<WeightedEdge>,
        GraphError,
    >)
        ensures
            generates(result, old(self)@.0, final(self)@.0, graph_updates(old(self)@.0, old(self)@.1, *desc)),
            final(self)@.1 == old(self)@.1,
            result matches Ok(edges) ==> forall|i: int|
                0 <= i < edges@.len() ==> (#[trigger] edges@[i]).0 < old(self)@.1 && edges@[i].1 < old(self)@.1,
    {
        if self.num_nodes == 0 {
            return Err(GraphError::Sequence);
        }
        match desc {
            GraphBenchmarkUpdates::RandomUpdates { edges_per_update, weight_par } => generate_weighted_graph(
                &mut self.rng,
                self.num_nodes,
                *edges_per_update,
                weight_par.weight_range,
            ),
        }
    }
}

} // verus!
