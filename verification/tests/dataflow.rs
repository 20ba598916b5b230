use graph_utility::config::{GraphBenchmarkData, GraphBenchmarkUpdates, WeightParameters};
use graph_utility::dataflow::{Engine, Formulation};
use graph_utility::engine::sssp;
use graph_utility::epoch::times_of_round;
use graph_utility::error::GraphError;
use graph_utility::facts::{live_graph, Datum, Fact};
use graph_utility::generator::GraphDataGenerator;
use graph_utility::observer::{DistanceObserver, Observation};

fn run(engine: &mut Engine, time: u32) {
    engine.advance_to(time).unwrap();
    engine.flush();
    while engine.less_than(time) {
        engine.step().unwrap();
    }
}

fn edge(from: u32, to: u32, weight: u32, time: u32, multiplicity: i64) -> Fact {
    Fact { datum: Datum::Edge((from, to, weight)), time, multiplicity }
}

#[test]
fn what_is_inserted_is_live() {
    let facts = vec![
        edge(0, 1, 5, 0, 1),
        Fact { datum: Datum::Root(0), time: 0, multiplicity: 1 },
        edge(1, 2, 5, 0, 1),
        edge(0, 1, 5, 1, 1),
        Fact { datum: Datum::Root(9), time: 1, multiplicity: 1 },
    ];
    assert_eq!(live_graph(&facts, 5), (vec![(0, 1, 5), (1, 2, 5)], vec![0, 9]));
    assert_eq!(live_graph(&facts, 1), (vec![(0, 1, 5)], vec![]));
    assert_eq!(live_graph(&facts, 0), (vec![], vec![]));
}

#[test]
fn what_is_retracted_as_often_as_inserted_is_not_live() {
    let facts = vec![
        edge(0, 1, 5, 0, 1),
        edge(1, 2, 5, 0, 1),
        edge(0, 1, 5, 1, -1),
        edge(0, 1, 6, 1, -1),
        edge(1, 2, 5, 1, 2),
        edge(1, 2, 5, 2, -2),
        Fact { datum: Datum::Root(3), time: 2, multiplicity: -1 },
        Fact { datum: Datum::Root(3), time: 2, multiplicity: 1 },
        Fact { datum: Datum::Root(4), time: 2, multiplicity: 1 },
    ];
    assert_eq!(live_graph(&facts, 9), (vec![(1, 2, 5)], vec![4]));
    assert_eq!(live_graph(&facts, 3), (vec![(1, 2, 5)], vec![]));
    assert_eq!(live_graph(&facts, 2), (vec![(0, 1, 5), (1, 2, 5)], vec![]));
}

#[test]
fn edges_that_differ_in_one_field_are_different_facts() {
    let facts = vec![edge(1, 2, 3, 0, 1), edge(2, 1, 3, 0, 1), edge(1, 2, 4, 0, 1), edge(1, 3, 2, 0, 1), edge(1, 2, 3, 0, -1)];
    assert_eq!(live_graph(&facts, 5), (vec![(2, 1, 3), (1, 2, 4), (1, 3, 2)], vec![]));
}

#[test]
fn a_new_engine_is_at_time_zero() {
    for formulation in [Formulation::Explicit, Formulation::MinSum] {
        let engine = Engine::new(formulation);
        assert_eq!(engine.time(), 0);
        assert_eq!(engine.frontier(), 0);
        assert!(!engine.less_than(0));
        assert!(engine.less_than(1));
        assert_eq!(engine.distances().len(), 0);
    }
}

#[test]
fn labels_follow_the_facts_once_their_time_is_closed() {
    for formulation in [Formulation::Explicit, Formulation::MinSum] {
        let mut engine = Engine::new(formulation);
        engine.insert_root(0);
        engine.insert_edge(0, 1, 5);
        engine.insert_edge(1, 2, 5);
        assert_eq!(engine.distance(2), None);
        engine.flush();
        assert_eq!(engine.step(), Ok(None));
        assert_eq!(engine.distance(2), None);
        assert_eq!(engine.frontier(), 0);
        assert_eq!(engine.advance_to(1), Ok(()));
        assert_eq!(engine.step(), Ok(None));
        assert_eq!(engine.distance(2), None);
        engine.flush();
        assert!(engine.less_than(1));
        assert_eq!(engine.step(), Ok(Some(0)));
        assert_eq!(engine.frontier(), 1);
        assert!(!engine.less_than(1));
        assert_eq!(engine.distance(0), Some(0));
        assert_eq!(engine.distance(1), Some(5));
        assert_eq!(engine.distance(2), Some(10));
        assert_eq!(engine.step(), Ok(None));
        assert_eq!(engine.frontier(), 1);
    }
}

#[test]
fn time_does_not_run_backwards() {
    let mut engine = Engine::new(Formulation::Explicit);
    assert_eq!(engine.advance_to(5), Ok(()));
    assert_eq!(engine.advance_to(5), Ok(()));
    assert_eq!(engine.advance_to(4), Err(GraphError::Sequence));
    assert_eq!(engine.time(), 5);
    assert_eq!(engine.advance_to(0), Err(GraphError::Sequence));
    assert_eq!(engine.advance_to(u32::MAX), Ok(()));
    assert_eq!(engine.time(), u32::MAX);
}

#[test]
fn an_edge_that_is_retracted_leaves_no_trace() {
    for formulation in [Formulation::Explicit, Formulation::MinSum] {
        let mut with = Engine::new(formulation);
        let mut without = Engine::new(formulation);
        with.insert_root(0);
        without.insert_root(0);
        with.insert_edge(0, 1, 5);
        run(&mut with, 1);
        run(&mut without, 1);
        assert_eq!(with.distance(1), Some(5));
        assert_eq!(without.distance(1), None);
        with.retract_edge(0, 1, 5);
        run(&mut with, 2);
        run(&mut without, 2);
        for node in 0..3 {
            assert_eq!(with.distance(node), without.distance(node));
        }
        assert_eq!(with.distance(1), None);
        assert_eq!(with.distance(0), Some(0));
        assert_eq!(with.distances().len(), 1);
    }
}

#[test]
fn a_retraction_falls_back_on_another_path() {
    for formulation in [Formulation::Explicit, Formulation::MinSum] {
        let mut engine = Engine::new(formulation);
        engine.insert_root(0);
        engine.insert_edge(0, 1, 5);
        engine.insert_edge(0, 2, 1);
        engine.insert_edge(2, 1, 7);
        run(&mut engine, 1);
        assert_eq!(engine.distance(1), Some(5));
        engine.retract_edge(0, 1, 5);
        run(&mut engine, 2);
        assert_eq!(engine.distance(1), Some(8));
        engine.retract_root(0);
        run(&mut engine, 3);
        assert_eq!(engine.distance(1), None);
        assert_eq!(engine.distances().len(), 0);
    }
}

#[test]
fn a_retraction_of_what_was_never_inserted_changes_nothing() {
    let mut engine = Engine::new(Formulation::Explicit);
    engine.insert_root(0);
    engine.insert_edge(0, 1, 5);
    engine.retract_edge(0, 1, 4);
    run(&mut engine, 1);
    assert_eq!(engine.distance(1), Some(5));
    engine.insert_edge(0, 1, 4);
    run(&mut engine, 2);
    assert_eq!(engine.distance(1), Some(5));
    engine.insert_edge(0, 1, 4);
    run(&mut engine, 3);
    assert_eq!(engine.distance(1), Some(4));
}

#[test]
fn every_closed_time_is_taken_in_by_itself() {
    let mut engine = Engine::new(Formulation::MinSum);
    let mut observer = DistanceObserver::new(2, true);
    engine.insert_root(0);
    engine.insert_edge(0, 2, 9);
    engine.advance_to(3).unwrap();
    engine.insert_edge(0, 2, 4);
    engine.advance_to(7).unwrap();
    engine.retract_edge(0, 2, 4);
    engine.retract_edge(0, 2, 9);
    engine.advance_to(8).unwrap();
    engine.insert_edge(0, 2, 1);
    engine.advance_to(10).unwrap();
    engine.flush();
    let mut seen = Vec::new();
    let mut epochs = Vec::new();
    while engine.less_than(10) {
        if let Some(epoch) = engine.step().unwrap() {
            epochs.push(epoch);
            seen.extend(observer.observe(engine.distances(), epoch));
        }
    }
    assert_eq!(epochs, vec![0, 3, 7, 8]);
    assert_eq!(engine.frontier(), 10);
    assert_eq!(
        seen,
        vec![
            Observation { distance: 9, time: 0, multiplicity: 1 },
            Observation { distance: 4, time: 3, multiplicity: 1 },
            Observation { distance: 9, time: 3, multiplicity: -1 },
            Observation { distance: 4, time: 7, multiplicity: -1 },
            Observation { distance: 1, time: 8, multiplicity: 1 },
        ]
    );
}

#[test]
fn facts_of_an_open_time_wait() {
    let mut engine = Engine::new(Formulation::Explicit);
    engine.insert_root(0);
    engine.advance_to(1).unwrap();
    engine.insert_edge(0, 1, 2);
    engine.flush();
    assert_eq!(engine.step(), Ok(Some(0)));
    assert_eq!(engine.step(), Ok(None));
    assert_eq!(engine.frontier(), 1);
    assert_eq!(engine.distance(1), None);
    engine.insert_edge(0, 1, 1);
    engine.advance_to(2).unwrap();
    engine.flush();
    assert_eq!(engine.step(), Ok(Some(1)));
    assert_eq!(engine.distance(1), Some(1));
    assert_eq!(engine.frontier(), 2);
}

#[test]
fn a_bounded_engine_gives_up_and_stays_as_it_is() {
    for formulation in [Formulation::Explicit, Formulation::MinSum] {
        let mut engine = Engine::bounded(formulation, 3);
        engine.insert_root(0);
        engine.insert_edge(0, 1, 1);
        run(&mut engine, 1);
        assert_eq!(engine.distance(1), Some(1));
        for node in 1..9 {
            engine.insert_edge(node, node + 1, 1);
        }
        engine.advance_to(2).unwrap();
        engine.flush();
        assert_eq!(engine.step(), Err(GraphError::ConvergenceStall));
        assert_eq!(engine.frontier(), 1);
        assert_eq!(engine.distance(1), Some(1));
        assert_eq!(engine.distance(2), None);
        assert_eq!(engine.step(), Err(GraphError::ConvergenceStall));
    }
    let mut engine = Engine::bounded(Formulation::Explicit, 9);
    engine.insert_root(0);
    for node in 0..9 {
        engine.insert_edge(node, node + 1, 1);
    }
    run(&mut engine, 1);
    assert_eq!(engine.distance(9), Some(9));
}

#[test]
fn a_round_of_retractions_matches_a_fresh_start() {
    let weight_par = WeightParameters { weight_range: (1, 20), rng_seed: 10 };
    let desc = GraphBenchmarkData::RandomGraph { nodes: 100, edges: 100, weight_par };
    let updates = GraphBenchmarkUpdates::RandomUpdates { edges_per_update: 3, weight_par };
    for formulation in [Formulation::Explicit, Formulation::MinSum] {
        let mut generator = GraphDataGenerator::new_from_seed(10);
        let mut engine = Engine::new(formulation);
        engine.insert_root(0);
        let mut multiset: Vec<((u32, u32, u32), i64)> = Vec::new();
        for (from, to, weight) in generator.gen_initial_graph(&desc, b"").unwrap() {
            engine.insert_edge(from, to, weight);
            multiset.push(((from, to, weight), 1));
        }
        run(&mut engine, 1);
        for round in 0..5 {
            let (said, closes) = times_of_round(round).unwrap();
            assert_eq!(engine.time(), said);
            for (from, to, weight) in generator.gen_graph_updates(&updates).unwrap() {
                engine.retract_edge(from, to, weight);
                multiset.push(((from, to, weight), -1));
            }
            run(&mut engine, closes);
            let mut live: Vec<(u32, u32, u32)> = Vec::new();
            for (edge, _) in multiset.iter() {
                let net: i64 = multiset.iter().filter(|(other, _)| other == edge).map(|(_, count)| count).sum();
                if net > 0 && !live.contains(edge) {
                    live.push(*edge);
                }
            }
            let fresh = sssp(&live, &vec![0]);
            for node in 0..100 {
                assert_eq!(engine.distance(node), fresh.get(node));
            }
            assert_eq!(engine.distances().len(), fresh.len());
        }
    }
}

#[test]
fn a_round_that_retracts_edges_of_the_graph_matches_a_fresh_start() {
    let weight_par = WeightParameters { weight_range: (1, 20), rng_seed: 10 };
    let desc = GraphBenchmarkData::RandomGraph { nodes: 100, edges: 100, weight_par };
    let mut generator = GraphDataGenerator::new_from_seed(10);
    let initial = generator.gen_initial_graph(&desc, b"").unwrap();
    let before = sssp(&initial, &vec![0]);
    let mut engine = Engine::new(Formulation::Explicit);
    engine.insert_root(0);
    for &(from, to, weight) in initial.iter() {
        engine.insert_edge(from, to, weight);
    }
    run(&mut engine, 1);
    let target = (1..100).filter(|&node| before.get(node).is_some()).max_by_key(|&node| before.get(node)).unwrap();
    let mut kept = Vec::new();
    let mut retracted = 0;
    for &(from, to, weight) in initial.iter() {
        if from == 0 && retracted < 1 {
            engine.retract_edge(from, to, weight);
            retracted += 1;
        } else {
            kept.push((from, to, weight));
        }
    }
    assert_eq!(retracted, 1);
    run(&mut engine, 2);
    let fresh = sssp(&kept, &vec![0]);
    assert_eq!(engine.distance(target), fresh.get(target));
    for node in 0..100 {
        assert_eq!(engine.distance(node), fresh.get(node));
    }
}
