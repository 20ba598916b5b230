//! Single-source shortest paths over a stream of signed, time-stamped edge
//! facts, for benchmarks that feed a graph one round of updates after the
//! other.
//!
//! - `graph`, `paths`: edges, walks, and what a shortest distance is.
//! - `semiring`: the min-plus semiring that distances live in.
//! - `fixpoint`, `feedback`: the two formulations of the least fixpoint,
//!   round by round, with the proofs that they converge and agree.
//! - `engine`: the fixpoint computed, by either formulation, from nothing
//!   or from labels that are there.
//! - `support`: the labels that outlast a change of the graph.
//! - `facts`, `dataflow`, `observer`, `epoch`: facts with times and
//!   multiplicities, the engine that takes them in time by time, the
//!   observer of one node, and the frontiers of the workers.
//! - `generator`, `loader`, `text`, `config`: random graphs from a seed,
//!   edge lists as text, and the description of a benchmark.
//! - `timer`, `error`: wall-clock timing, and what can go wrong.

pub mod config;
pub mod dataflow;
pub mod engine;
pub mod epoch;
pub mod error;
pub mod facts;
pub mod feedback;
pub mod fixpoint;
pub mod generator;
pub mod graph;
pub mod loader;
pub mod observer;
pub mod paths;
pub mod semiring;
pub mod support;
pub mod text;
pub mod timer;
