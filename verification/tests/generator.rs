use graph_utility::config::{GraphBenchmarkData, GraphBenchmarkUpdates, WeightParameters};
use graph_utility::error::{ConfigurationFault, GraphError};
use graph_utility::generator::{
    default_rng, generate_unweighted_graph, generate_weighted_graph, generate_weights_for_graph,
    GraphDataGenerator, SeededStream,
};
use rand::distributions::{Distribution, Uniform};
use rand::SeedableRng;
use rand_chacha::ChaCha8Rng;

fn direct_weighted(seed: u64, nodes: u32, edges: u32, low: u32, high: u32) -> Vec<(u32, u32, u32)> {
    let mut rng = ChaCha8Rng::seed_from_u64(seed);
    let dist = Uniform::new(0u32, nodes);
    let dist_w = Uniform::new(low, high);
    let mut out = Vec::new();
    for _ in 0..edges {
        let from = dist.sample(&mut rng);
        let to = dist.sample(&mut rng);
        let w = dist_w.sample(&mut rng);
        out.push((from, to, w));
    }
    out
}

#[test]
fn default_rng_starts_at_the_beginning() {
    assert_eq!(default_rng(10), SeededStream { seed: 10, position: 0 });
}

#[test]
fn weighted_graph_is_the_stream_of_the_seed() {
    let mut rng = default_rng(10);
    let edges = generate_weighted_graph(&mut rng, 100, 100, (1, 20)).unwrap();
    assert_eq!(edges, direct_weighted(10, 100, 100, 1, 20));
    assert_eq!(edges.len(), 100);
    assert!(rng.position >= 300);
}

#[test]
fn weighted_graph_over_many_blocks() {
    let mut rng = default_rng(7);
    let edges = generate_weighted_graph(&mut rng, 1000, 5000, (3, 1_000_000)).unwrap();
    assert_eq!(edges, direct_weighted(7, 1000, 5000, 3, 1_000_000));
}

#[test]
fn weighted_graph_with_awkward_ranges() {
    let mut rng = default_rng(3);
    let edges = generate_weighted_graph(&mut rng, 3_000_000_000, 2000, (0, 3_000_000_001)).unwrap();
    assert_eq!(edges, direct_weighted(3, 3_000_000_000, 2000, 0, 3_000_000_001));
}

#[test]
fn weighted_graph_stays_in_range() {
    let mut rng = default_rng(99);
    let edges = generate_weighted_graph(&mut rng, 17, 500, (5, 9)).unwrap();
    for (from, to, weight) in edges {
        assert!(from < 17 && to < 17);
        assert!(5 <= weight && weight < 9);
    }
}

#[test]
fn weighted_graph_rejects_an_empty_weight_range() {
    let mut rng = default_rng(10);
    assert_eq!(
        generate_weighted_graph(&mut rng, 10, 5, (4, 4)),
        Err(GraphError::Configuration(ConfigurationFault::WeightRange))
    );
    assert_eq!(
        generate_weighted_graph(&mut rng, 10, 0, (9, 2)),
        Err(GraphError::Configuration(ConfigurationFault::WeightRange))
    );
    assert_eq!(rng, default_rng(10));
}

#[test]
fn weighted_graph_rejects_no_nodes() {
    let mut rng = default_rng(10);
    assert_eq!(
        generate_weighted_graph(&mut rng, 0, 5, (1, 4)),
        Err(GraphError::Configuration(ConfigurationFault::NoNodes))
    );
    assert_eq!(generate_unweighted_graph(&mut rng, 0, 5), Err(GraphError::Configuration(ConfigurationFault::NoNodes)));
    assert_eq!(rng, default_rng(10));
}

#[test]
fn unweighted_graph_is_the_stream_of_the_seed() {
    let mut rng = default_rng(21);
    let edges = generate_unweighted_graph(&mut rng, 50, 300).unwrap();
    let mut direct = ChaCha8Rng::seed_from_u64(21);
    let dist = Uniform::new(0u32, 50u32);
    let mut expected = Vec::new();
    for _ in 0..300 {
        let from = dist.sample(&mut direct);
        let to = dist.sample(&mut direct);
        expected.push((from, to));
    }
    assert_eq!(edges, expected);
}

#[test]
fn weights_for_graph_keep_the_edges() {
    let mut rng = default_rng(5);
    let edges = vec![(0, 1), (1, 2), (7, 3), (2, 2)];
    let weighted = generate_weights_for_graph(&mut rng, edges.clone(), (10, 12)).unwrap();
    let mut direct = ChaCha8Rng::seed_from_u64(5);
    let dist = Uniform::new(10u32, 12u32);
    let expected: Vec<(u32, u32, u32)> = edges.into_iter().map(|(from, to)| (from, to, dist.sample(&mut direct))).collect();
    assert_eq!(weighted, expected);
}

#[test]
fn weights_for_graph_reject_an_empty_range() {
    let mut rng = default_rng(5);
    assert_eq!(
        generate_weights_for_graph(&mut rng, vec![(0, 1)], (12, 12)),
        Err(GraphError::Configuration(ConfigurationFault::WeightRange))
    );
}

#[test]
fn two_runs_generate_the_same_edges() {
    let desc = GraphBenchmarkData::RandomGraph {
        nodes: 100,
        edges: 100,
        weight_par: WeightParameters { weight_range: (1, 20), rng_seed: 10 },
    };
    let updates = GraphBenchmarkUpdates::RandomUpdates {
        edges_per_update: 3,
        weight_par: WeightParameters { weight_range: (1, 20), rng_seed: 10 },
    };
    let mut first = GraphDataGenerator::new_from_seed(10);
    let mut second = GraphDataGenerator::new_from_seed(10);
    assert_eq!(first.gen_initial_graph(&desc, b""), second.gen_initial_graph(&desc, b""));
    for _ in 0..20 {
        assert_eq!(first.gen_graph_updates(&updates), second.gen_graph_updates(&updates));
    }
}

#[test]
fn updates_follow_the_initial_graph_in_the_stream() {
    let desc = GraphBenchmarkData::RandomGraph {
        nodes: 100,
        edges: 100,
        weight_par: WeightParameters { weight_range: (1, 20), rng_seed: 10 },
    };
    let updates = GraphBenchmarkUpdates::RandomUpdates {
        edges_per_update: 5,
        weight_par: WeightParameters { weight_range: (1, 20), rng_seed: 10 },
    };
    let mut generator = GraphDataGenerator::new_from_seed(10);
    let initial = generator.gen_initial_graph(&desc, b"").unwrap();
    let first = generator.gen_graph_updates(&updates).unwrap();
    let second = generator.gen_graph_updates(&updates).unwrap();
    let all = direct_weighted(10, 100, 110, 1, 20);
    assert_eq!(initial, all[..100].to_vec());
    assert_eq!(first, all[100..105].to_vec());
    assert_eq!(second, all[105..].to_vec());
    assert_eq!(generator.max_num_nodes(), 100);
}

#[test]
fn updates_before_any_graph_are_out_of_sequence() {
    let updates = GraphBenchmarkUpdates::RandomUpdates {
        edges_per_update: 5,
        weight_par: WeightParameters { weight_range: (1, 20), rng_seed: 10 },
    };
    let mut generator = GraphDataGenerator::new_from_seed(10);
    assert_eq!(generator.max_num_nodes(), 0);
    assert_eq!(generator.gen_graph_updates(&updates), Err(GraphError::Sequence));
}

#[test]
fn initial_graph_from_a_weighted_file() {
    let desc = GraphBenchmarkData::RealWorldGraph { path_to_edge_list: String::from("graph.txt"), weight_par: None };
    let mut generator = GraphDataGenerator::new_from_seed(10);
    let edges = generator.gen_initial_graph(&desc, b"# a comment\n0 1 5\n1 7 2\n").unwrap();
    assert_eq!(edges, vec![(0, 1, 5), (1, 7, 2)]);
    assert_eq!(generator.max_num_nodes(), 7);
}

#[test]
fn initial_graph_from_a_file_without_weights() {
    let desc = GraphBenchmarkData::RealWorldGraph {
        path_to_edge_list: String::from("graph.txt"),
        weight_par: Some(WeightParameters { weight_range: (1, 10), rng_seed: 10 }),
    };
    let mut generator = GraphDataGenerator::new_from_seed(10);
    let edges = generator.gen_initial_graph(&desc, b"0 1\n1 2\n2 9\n").unwrap();
    let mut direct = ChaCha8Rng::seed_from_u64(10);
    let dist = Uniform::new(1u32, 10u32);
    let expected: Vec<(u32, u32, u32)> =
        vec![(0, 1), (1, 2), (2, 9)].into_iter().map(|(from, to)| (from, to, dist.sample(&mut direct))).collect();
    assert_eq!(edges, expected);
    assert_eq!(generator.max_num_nodes(), 9);
}

#[test]
fn a_failed_initial_graph_leaves_the_generator_as_it_was() {
    let desc = GraphBenchmarkData::RandomGraph {
        nodes: 0,
        edges: 100,
        weight_par: WeightParameters { weight_range: (1, 20), rng_seed: 10 },
    };
    let updates = GraphBenchmarkUpdates::RandomUpdates {
        edges_per_update: 5,
        weight_par: WeightParameters { weight_range: (1, 20), rng_seed: 10 },
    };
    let mut generator = GraphDataGenerator::new_from_seed(10);
    assert_eq!(
        generator.gen_initial_graph(&desc, b""),
        Err(GraphError::Configuration(ConfigurationFault::NoNodes))
    );
    assert_eq!(generator.gen_graph_updates(&updates), Err(GraphError::Sequence));
}

#[test]
fn a_draw_moves_the_stream_on() {
    let mut stream = default_rng(10);
    let mut direct = ChaCha8Rng::seed_from_u64(10);
    for low in 0..50u32 {
        let drawn = stream.draw(low, 3 * low + 1).unwrap();
        assert_eq!(drawn, Uniform::new(low, 3 * low + 1).sample(&mut direct));
        assert!(low <= drawn && drawn < 3 * low + 1);
    }
    assert!(stream.position >= 50);
    assert_eq!(stream.seed, 10);
}

#[test]
fn a_stream_that_is_used_up_draws_nothing() {
    let mut stream = SeededStream { seed: 10, position: u64::MAX };
    assert_eq!(stream.draw(0, 10), Err(GraphError::StreamExhausted));
    assert_eq!(stream, SeededStream { seed: 10, position: u64::MAX });
    assert_eq!(generate_weighted_graph(&mut stream, 10, 1, (0, 10)), Err(GraphError::StreamExhausted));
    assert_eq!(generate_unweighted_graph(&mut stream, 10, 1), Err(GraphError::StreamExhausted));
    assert_eq!(generate_weights_for_graph(&mut stream, vec![(0, 1)], (0, 10)), Err(GraphError::StreamExhausted));
    assert_eq!(stream, SeededStream { seed: 10, position: u64::MAX });
    assert_eq!(generate_weighted_graph(&mut stream, 10, 0, (0, 10)), Ok(vec![]));
}

#[test]
fn a_stream_that_runs_out_midway_is_left_where_it_was() {
    let start = SeededStream { seed: 4, position: u64::MAX - 20 };
    let mut stream = start;
    assert_eq!(generate_weighted_graph(&mut stream, 10, 100, (0, 10)), Err(GraphError::StreamExhausted));
    assert_eq!(stream, start);
    let some = generate_weighted_graph(&mut stream, 10, 2, (0, 10)).unwrap();
    assert_eq!(some.len(), 2);
    assert!(stream.position > start.position);
}
