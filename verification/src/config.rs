//! The description of a benchmark, and how the words of a command line
//! spell one.

use vstd::prelude::*;
use vstd::string::StringExecFns;
use vstd::utf8::encode_utf8;
use crate::error::{Argument, ConfigurationFault, GraphError};
use crate::text::{decimal_u32, parse_u32};

verus! {

/// The range `[low, high)` that weights are drawn from, and the seed of
/// the stream that they are drawn from.
#[derive(Clone, Copy, Debug, PartialEq, Eq)]
pub struct WeightParameters {
    pub weight_range: (u32, u32),
    pub rng_seed: u64,
}

/// Where the initial graph comes from.
#[derive(Clone, Debug, PartialEq, Eq)]
pub enum GraphBenchmarkData {
    /// `edges` random edges between `nodes` nodes.
    RandomGraph { nodes: u32, edges: u32, weight_par: WeightParameters },
    /// The edge list of a file, which holds weights unless some are to be
    /// drawn for it.
    RealWorldGraph { path_to_edge_list: String, weight_par: Option<WeightParameters> },
}

/// What a round of updates holds.
#[derive(Clone, Copy, Debug, PartialEq, Eq)]
pub enum GraphBenchmarkUpdates {
    RandomUpdates { edges_per_update: u32, weight_par: WeightParameters },
}

/// The distance asked for: from `source` to `target`.
#[derive(Clone, Copy, Debug, PartialEq, Eq)]
pub struct SearchQuery {
    pub source: u32,
    pub target: u32,
}

/// All that a run needs to know.
#[derive(Clone, Debug, PartialEq, Eq)]
pub struct BenchmarkDescription {
    pub graph_data: GraphBenchmarkData,
    pub graph_updates: GraphBenchmarkUpdates,
    pub num_rounds: u32,
    pub search_query: SearchQuery,
    pub inspect_results: bool,
}

/// The seed of every benchmark's random stream.
pub const DEFAULT_SEED: u64 = 10;

/// The weights of a file's graph that says nothing of weights.
pub open spec fn default_weight_parameters() -> WeightParameters {
    WeightParameters { weight_range: (0u32, 10u32), rng_seed: DEFAULT_SEED }
}

/// The weight parameters that go with a graph: its own, or the default
/// ones where a file's graph has none.
pub open spec fn weight_parameters(data: GraphBenchmarkData) -> WeightParameters {
    match data {
        GraphBenchmarkData::RandomGraph { weight_par, .. } => weight_par,
        GraphBenchmarkData::RealWorldGraph { weight_par, .. } => match weight_par {
            Some(parameters) => parameters,
            None => default_weight_parameters(),
        },
    }
}

/// The weight parameters that go with a graph.
pub fn extract_weight_parameters(data: &GraphBenchmarkData) -> (parameters: WeightParameters)
    ensures
        parameters == weight_parameters(*data),
{
    match data {
        GraphBenchmarkData::RandomGraph { weight_par, .. } => *weight_par,
        GraphBenchmarkData::RealWorldGraph { weight_par, .. } => match weight_par {
            Some(parameters) => *parameters,
            None => WeightParameters { weight_range: (0u32, 10u32), rng_seed: DEFAULT_SEED },
        },
    }
}

/// The range of the weights that go with a graph.
pub fn extract_weight_range(data: &GraphBenchmarkData) -> (range: (u32, u32))
    ensures
        range == weight_parameters(*data).weight_range,
{
    extract_weight_parameters(data).weight_range
}

/// The bytes of an argument.
pub open spec fn argument_bytes(argument: String) -> Seq<u8> {
    encode_utf8(argument@)
}

/// The number that the argument at `place` writes.
pub open spec fn number_at(arguments: Seq<String>, place: int, which: Argument) -> Result<u32, GraphError> {
    if place >= arguments.len() {
        Err(GraphError::Configuration(ConfigurationFault::Missing(which)))
    } else {
        match decimal_u32(argument_bytes(arguments[place])) {
            Some(value) => Ok(value),
            None => Err(GraphError::Configuration(ConfigurationFault::Invalid(which))),
        }
    }
}

/// The weight range that the arguments at `place` and after it write.
pub open spec fn weights_at(arguments: Seq<String>, place: int) -> Result<WeightParameters, GraphError> {
    match number_at(arguments, place, Argument::LowerWeight) {
        Err(error) => Err(error),
        Ok(low) => match number_at(arguments, place + 1, Argument::UpperWeight) {
            Err(error) => Err(error),
            Ok(high) => if low >= high {
                Err(GraphError::Configuration(ConfigurationFault::WeightRange))
            } else {
                Ok(WeightParameters { weight_range: (low, high), rng_seed: DEFAULT_SEED })
            },
        },
    }
}

/// The graph that the arguments from the second on describe, and the
/// place of the first argument after it.
pub open spec fn graph_at(arguments: Seq<String>) -> Result<(GraphBenchmarkData, int), GraphError> {
    if arguments.len() < 1 {
        Err(GraphError::Configuration(ConfigurationFault::Missing(Argument::Executable)))
    } else if arguments.len() < 2 {
        Err(GraphError::Configuration(ConfigurationFault::Missing(Argument::DataType)))
    } else if arguments[1]@ == "random"@ {
        match number_at(arguments, 2, Argument::Nodes) {
            Err(error) => Err(error),
            Ok(nodes) => match number_at(arguments, 3, Argument::Edges) {
                Err(error) => Err(error),
                Ok(edges) => match weights_at(arguments, 4) {
                    Err(error) => Err(error),
                    Ok(weight_par) => Ok((GraphBenchmarkData::RandomGraph { nodes, edges, weight_par }, 6)),
                },
            },
        }
    } else if arguments[1]@ == "real"@ {
        if arguments.len() < 3 {
            Err(GraphError::Configuration(ConfigurationFault::Missing(Argument::GraphFile)))
        } else if arguments.len() < 4 {
            Err(GraphError::Configuration(ConfigurationFault::Missing(Argument::WeightGeneration)))
        } else if arguments[3]@ == "generate"@ {
            match weights_at(arguments, 4) {
                Err(error) => Err(error),
                Ok(weight_par) => Ok(
                    (
                        GraphBenchmarkData::RealWorldGraph {
                            path_to_edge_list: arguments[2],
                            weight_par: Some(weight_par),
                        },
                        6,
                    ),
                ),
            }
        } else {
            Ok((GraphBenchmarkData::RealWorldGraph { path_to_edge_list: arguments[2], weight_par: None }, 4))
        }
    } else {
        Err(GraphError::Configuration(ConfigurationFault::Invalid(Argument::DataType)))
    }
}

/// The benchmark that the arguments describe: the executable's name; then
/// `random`, the numbers of nodes and of edges and the bounds of the
/// weights, or `real`, a file's path and, after the word `generate`, the
/// bounds of the weights to draw; then the numbers of rounds and of edges
/// per round, the source and the target; and last, if results are to be
/// shown, the word `inspect`. What follows is not read.
pub open spec fn described(arguments: Seq<String>) -> Result<BenchmarkDescription, GraphError> {
    match graph_at(arguments) {
        Err(error) => Err(error),
        Ok((graph_data, place)) => match number_at(arguments, place, Argument::Rounds) {
            Err(error) => Err(error),
            Ok(num_rounds) => match number_at(arguments, place + 1, Argument::EdgesPerRound) {
                Err(error) => Err(error),
                Ok(edges_per_update) => match number_at(arguments, place + 2, Argument::Source) {
                    Err(error) => Err(error),
                    Ok(source) => match number_at(arguments, place + 3, Argument::Target) {
                        Err(error) => Err(error),
                        Ok(target) => Ok(
                            BenchmarkDescription {
                                graph_data,
                                graph_updates: GraphBenchmarkUpdates::RandomUpdates {
                                    edges_per_update,
                                    weight_par: weight_parameters(graph_data),
                                },
                                num_rounds,
                                search_query: SearchQuery { source, target },
                                inspect_results: place + 4 < arguments.len() && arguments[place + 4]@
                                    == "inspect"@,
                            },
                        ),
                    },
                },
            },
        },
    }
}

/// Whether `argument` is the word `word`.
fn is_word(argument: &String, word: &str) -> (same: bool)
    ensures
        same == (argument@ == word@),
{
    let expected = String::from_str(word);
    *argument == expected
}

fn read_number(arguments: &Vec<String>, place: usize, which: Argument) -> (result: Result<u32, GraphError>)
    ensures
        result == number_at(arguments@, place as int, which),
{
    if place >= arguments.len() {
        return Err(GraphError::Configuration(ConfigurationFault::Missing(which)));
    }
    match parse_u32(arguments[place].as_str().as_bytes()) {
        Some(value) => Ok(value),
        None => Err(GraphError::Configuration(ConfigurationFault::Invalid(which))),
    }
}

fn read_weights(arguments: &Vec<String>, place: usize) -> (result: Result<WeightParameters, GraphError>)
    requires
        place < usize::MAX,
    ensures
        result == weights_at(arguments@, place as int),
{
    let low = match read_number(arguments, place, Argument::LowerWeight) {
        Ok(value) => value,
        Err(error) => {
            return Err(error);
        },
    };
    let high = match read_number(arguments, place + 1, Argument::UpperWeight) {
        Ok(value) => value,
        Err(error) => {
            return Err(error);
        },
    };
    if low >= high {
        return Err(GraphError::Configuration(ConfigurationFault::WeightRange));
    }
    Ok(WeightParameters { weight_range: (low, high), rng_seed: DEFAULT_SEED })
}

fn read_graph(arguments: &Vec<String>) -> (result: Result<(GraphBenchmarkData, usize), GraphError>)
    ensures
        match result {
            Ok((data, place)) => graph_at(arguments@) == Ok::<(GraphBenchmarkData, int), GraphError>(
                (data, place as int),
            ) && place <= 6,
            Err(error) => graph_at(arguments@) == Err::<(GraphBenchmarkData, int), GraphError>(error),
        },
{
    if arguments.len() < 1 {
        return Err(GraphError::Configuration(ConfigurationFault::Missing(Argument::Executable)));
    }
    if arguments.len() < 2 {
        return Err(GraphError::Configuration(ConfigurationFault::Missing(Argument::DataType)));
    }
    if is_word(&arguments[1], "random") {
        let nodes = match read_number(arguments, 2, Argument::Nodes) {
            Ok(value) => value,
            Err(error) => {
                return Err(error);
            },
        };
        let edges = match read_number(arguments, 3, Argument::Edges) {
            Ok(value) => value,
            Err(error) => {
                return Err(error);
            },
        };
        match read_weights(arguments, 4) {
            Ok(weight_par) => Ok((GraphBenchmarkData::RandomGraph { nodes, edges, weight_par }, 6)),
            Err(error) => Err(error),
        }
    } else if is_word(&arguments[1], "real") {
        if arguments.len() < 3 {
            return Err(GraphError::Configuration(ConfigurationFault::Missing(Argument::GraphFile)));
        }
        if arguments.len() < 4 {
            return Err(GraphError::Configuration(ConfigurationFault::Missing(Argument::WeightGeneration)));
        }
        let path_to_edge_list = arguments[2].clone();
        if is_word(&arguments[3], "generate") {
            match read_weights(arguments, 4) {
                Ok(weight_par) => Ok(
                    (GraphBenchmarkData::RealWorldGraph { path_to_edge_list, weight_par: Some(weight_par) }, 6),
                ),
                Err(error) => Err(error),
            }
        } else {
            Ok((GraphBenchmarkData::RealWorldGraph { path_to_edge_list, weight_par: None }, 4))
        }
    } else {
        Err(GraphError::Configuration(ConfigurationFault::Invalid(Argument::DataType)))
    }
}

/// Reads the description of a benchmark from the words of a command line,
/// the executable's name first.
pub fn parse_graph_benchmark_arguments(arguments: &Vec<String>) -> (result: Result<
    BenchmarkDescription,
    GraphError,
>)
    ensures
        result == described(arguments@),
{
    let (graph_data, place) = match read_graph(arguments) {
        Ok(read) => read,
        Err(error) => {
            return Err(error);
        },
    };
    let num_rounds = match read_number(arguments, place, Argument::Rounds) {
        Ok(value) => value,
        Err(error) => {
            return Err(error);
        },
    };
    let edges_per_update = match read_number(arguments, place + 1, Argument::EdgesPerRound) {
        Ok(value) => value,
        Err(error) => {
            return Err(error);
        },
    };
    let source = match read_number(arguments, place + 2, Argument::Source) {
        Ok(value) => value,
        Err(error) => {
            return Err(error);
        },
    };
    let target = match read_number(arguments, place + 3, Argument::Target) {
        Ok(value) => value,
        Err(error) => {
            return Err(error);
        },
    };
    let inspect_results = place + 4 < arguments.len() && is_word(&arguments[place + 4], "inspect");
    let weight_par = extract_weight_parameters(&graph_data);
    Ok(
        BenchmarkDescription {
            graph_data,
            graph_updates: GraphBenchmarkUpdates::RandomUpdates { edges_per_update, weight_par },
            num_rounds,
            search_query: SearchQuery { source, target },
            inspect_results,
        },
    )
}

} // verus!
