//! What can go wrong, and where.

use vstd::prelude::*;

verus! {

/// The fields of a line of an edge list.
#[derive(Clone, Copy, Debug, PartialEq, Eq, Structural)]
pub enum Field {
    From,
    To,
    Weight,
}

/// What is wrong with a line of an edge list.
#[derive(Clone, Copy, Debug, PartialEq, Eq, Structural)]
pub enum LineFault {
    /// The line ends before this field.
    Missing(Field),
    /// This field is no number that fits a node or a weight.
    Invalid(Field),
}

/// The arguments of a benchmark, in the words of the command line.
#[derive(Clone, Copy, Debug, PartialEq, Eq, Structural)]
pub enum Argument {
    Executable,
    DataType,
    Nodes,
    Edges,
    LowerWeight,
    UpperWeight,
    GraphFile,
    WeightGeneration,
    Rounds,
    EdgesPerRound,
    Source,
    Target,
}

/// What is wrong with a configuration.
#[derive(Clone, Copy, Debug, PartialEq, Eq, Structural)]
pub enum ConfigurationFault {
    /// The arguments end before this one.
    Missing(Argument),
    /// This argument is not what it has to be.
    Invalid(Argument),
    /// The lower bound of the weights is not below the upper one.
    WeightRange,
    /// There is no node to draw an endpoint from.
    NoNodes,
    /// A loader is one of no loaders.
    NoPeers,
}

/// Why a run cannot go on.
#[derive(Clone, Copy, Debug, PartialEq, Eq, Structural)]
pub enum GraphError {
    /// A value of the configuration is not valid.
    Configuration(ConfigurationFault),
    /// A line of the edge list, counted from 0, is malformed.
    DataFormat { line: usize, fault: LineFault },
    /// Updates were asked for before any graph was generated, or a time
    /// lies before one that was closed.
    Sequence,
    /// The fixpoint was not reached within the rounds allowed.
    ConvergenceStall,
    /// The random stream of the seed is used up.
    StreamExhausted,
}

} // verus!
