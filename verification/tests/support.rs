use graph_utility::dataflow::{Engine, Formulation};
use graph_utility::engine::{resume_explicit, resume_monoid, sssp, sssp_monoid, DistanceLabels};
use graph_utility::generator::{default_rng, generate_weighted_graph};
use graph_utility::support::keep_supported;

fn same_labels(one: &DistanceLabels, other: &DistanceLabels, nodes: u32) {
    for node in 0..nodes {
        assert_eq!(one.get(node), other.get(node), "node {}", node);
    }
    assert_eq!(one.len(), other.len());
}

#[test]
fn labels_below_a_lost_edge_stay() {
    let edges = vec![(0, 1, 2), (1, 2, 2), (2, 3, 2), (0, 4, 1), (4, 5, 9)];
    let labels = sssp(&edges, &vec![0]);
    let now = vec![(0, 1, 2), (1, 2, 2), (0, 4, 1), (4, 5, 9)];
    let kept = keep_supported(&edges, &vec![0], &labels, &now, &vec![0]);
    assert_eq!(kept.get(0), Some(0));
    assert_eq!(kept.get(1), Some(2));
    assert_eq!(kept.get(2), Some(4));
    assert_eq!(kept.get(3), None);
    assert_eq!(kept.get(4), Some(1));
    assert_eq!(kept.get(5), None);
    assert_eq!(kept.len(), 4);
}

#[test]
fn no_label_outlasts_its_root() {
    let edges = vec![(0, 1, 2), (7, 8, 1)];
    let labels = sssp(&edges, &vec![0, 7]);
    let kept = keep_supported(&edges, &vec![0, 7], &labels, &edges, &vec![7]);
    assert_eq!(kept.len(), 0);
}

#[test]
fn all_labels_stay_where_nothing_is_lost() {
    let edges = vec![(0, 1, 2), (1, 2, 2)];
    let labels = sssp(&edges, &vec![0]);
    let now = vec![(5, 6, 1), (1, 2, 2), (0, 1, 2), (0, 2, 1)];
    let kept = keep_supported(&edges, &vec![0], &labels, &now, &vec![9, 0]);
    same_labels(&kept, &labels, 10);
}

#[test]
fn an_edge_that_was_of_no_use_takes_no_label_along() {
    let edges = vec![(0, 1, 2), (1, 2, 2), (0, 2, 100), (3, 0, 1)];
    let labels = sssp(&edges, &vec![0]);
    let now = vec![(0, 1, 2), (1, 2, 2)];
    let kept = keep_supported(&edges, &vec![0], &labels, &now, &vec![0]);
    same_labels(&kept, &labels, 5);
}

#[test]
fn rounds_go_on_from_the_labels_that_stay() {
    let edges = vec![(0, 1, 2), (1, 2, 2), (2, 3, 2), (0, 4, 1), (4, 5, 9)];
    let labels = sssp(&edges, &vec![0]);
    let now = vec![(0, 1, 2), (1, 2, 2), (0, 4, 1), (4, 5, 9), (5, 3, 1), (0, 6, 3)];
    let fresh = sssp(&now, &vec![0]);
    let kept = keep_supported(&edges, &vec![0], &labels, &now, &vec![0]);
    same_labels(&resume_explicit(&now, &vec![0], kept, 5).unwrap(), &fresh, 8);
    let kept = keep_supported(&edges, &vec![0], &labels, &now, &vec![0]);
    same_labels(&resume_monoid(&now, &vec![0], kept, 5).unwrap(), &fresh, 8);
    assert_eq!(fresh.get(3), Some(11));
}

#[test]
fn rounds_from_no_labels_are_a_fresh_start() {
    let edges = vec![(0, 1, 2), (1, 2, 2), (2, 0, 2)];
    let fresh = sssp_monoid(&edges, &vec![1]);
    same_labels(&resume_explicit(&edges, &vec![1], DistanceLabels::new(), 0).unwrap(), &fresh, 4);
    same_labels(&resume_monoid(&edges, &vec![1], DistanceLabels::new(), 0).unwrap(), &fresh, 4);
}

#[test]
fn rounds_that_have_no_room_left_end_without_a_result() {
    let edges = vec![(0, 1, 2)];
    assert!(resume_explicit(&edges, &vec![0], DistanceLabels::new(), u32::MAX).is_none());
    assert!(resume_monoid(&edges, &vec![0], DistanceLabels::new(), u32::MAX).is_none());
    let settled = sssp(&edges, &vec![0]);
    assert!(resume_explicit(&edges, &vec![0], settled, u32::MAX).is_some());
}

#[test]
fn an_engine_under_random_changes_matches_a_fresh_start() {
    for formulation in [Formulation::Explicit, Formulation::MinSum] {
        for seed in 0..6u64 {
            let mut rng = default_rng(seed);
            let mut engine = Engine::new(formulation);
            let mut counts: Vec<((u32, u32, u32), i64)> = Vec::new();
            engine.insert_root(0);
            let mut roots = vec![0u32];
            for time in 0..25u32 {
                let batch = generate_weighted_graph(&mut rng, 12, 6, (0, 4)).unwrap();
                for (place, &(from, to, weight)) in batch.iter().enumerate() {
                    let live: Vec<(u32, u32, u32)> =
                        counts.iter().filter(|(_, count)| *count > 0).map(|(edge, _)| *edge).collect();
                    if place % 2 == 1 && !live.is_empty() {
                        let gone = live[(from as usize * 7 + to as usize) % live.len()];
                        engine.retract_edge(gone.0, gone.1, gone.2);
                        counts.iter_mut().find(|(edge, _)| *edge == gone).unwrap().1 -= 1;
                    } else {
                        engine.insert_edge(from, to, weight);
                        match counts.iter_mut().find(|(edge, _)| *edge == (from, to, weight)) {
                            Some(entry) => entry.1 += 1,
                            None => counts.push(((from, to, weight), 1)),
                        }
                    }
                }
                if time == 10 {
                    engine.insert_root(5);
                    roots.push(5);
                }
                if time == 17 {
                    engine.retract_root(0);
                    roots.retain(|&root| root != 0);
                }
                engine.advance_to(time + 1).unwrap();
                engine.flush();
                while engine.less_than(time + 1) {
                    engine.step().unwrap();
                }
                let live: Vec<(u32, u32, u32)> =
                    counts.iter().filter(|(_, count)| *count > 0).map(|(edge, _)| *edge).collect();
                same_labels(engine.distances(), &sssp(&live, &roots), 12);
            }
        }
    }
}
