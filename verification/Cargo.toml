[package]
name = "graph_utility"
version = "0.1.0"
edition = "2021"
publish = false

[dependencies]
rand = "0.7"
rand_chacha = "0.2"
timely = "0.11"
differential-dataflow = "0.11"
petgraph = "0.5"
abomonation = "0.7"
abomonation_derive = "0.5"
serde = "1"
serde_derive = "1"
