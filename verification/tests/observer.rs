use graph_utility::engine::DistanceLabels;
use graph_utility::epoch::{times_of_round, EpochSynchronizer};
use graph_utility::error::GraphError;
use graph_utility::observer::{DistanceObserver, Observation};
use graph_utility::timer::SubEventTimer;

#[test]
fn an_unreachable_target_is_never_reported() {
    let mut observer = DistanceObserver::new(7, true);
    let mut labels = DistanceLabels::new();
    assert_eq!(observer.observe(&labels, 0), vec![]);
    labels.set(3, 1);
    assert_eq!(observer.observe(&labels, 1), vec![]);
    assert_eq!(observer.last(), None);
}

#[test]
fn a_change_is_reported_once() {
    let mut observer = DistanceObserver::new(7, true);
    let mut labels = DistanceLabels::new();
    labels.set(7, 12);
    assert_eq!(observer.observe(&labels, 0), vec![Observation { distance: 12, time: 0, multiplicity: 1 }]);
    assert_eq!(observer.last(), Some(12));
    assert_eq!(observer.observe(&labels, 1), vec![]);
    labels.set(7, 9);
    assert_eq!(
        observer.observe(&labels, 2),
        vec![
            Observation { distance: 9, time: 2, multiplicity: 1 },
            Observation { distance: 12, time: 2, multiplicity: -1 }
        ]
    );
    labels.set(7, 30);
    assert_eq!(
        observer.observe(&labels, 3),
        vec![
            Observation { distance: 9, time: 3, multiplicity: -1 },
            Observation { distance: 30, time: 3, multiplicity: 1 }
        ]
    );
    assert_eq!(observer.observe(&DistanceLabels::new(), 4), vec![Observation { distance: 30, time: 4, multiplicity: -1 }]);
    assert_eq!(observer.last(), None);
    assert_eq!(observer.observe(&DistanceLabels::new(), 5), vec![]);
}

#[test]
fn an_observer_that_does_not_inspect_reports_nothing() {
    let mut observer = DistanceObserver::new(7, false);
    let mut labels = DistanceLabels::new();
    labels.set(7, 12);
    assert_eq!(observer.observe(&labels, 0), vec![]);
    assert_eq!(observer.last(), None);
}

#[test]
fn rounds_take_one_time_each() {
    assert_eq!(times_of_round(0), Some((1, 2)));
    assert_eq!(times_of_round(1), Some((2, 3)));
    assert_eq!(times_of_round(999), Some((1000, 1001)));
    assert_eq!(times_of_round(u32::MAX - 2), Some((u32::MAX - 1, u32::MAX)));
    assert_eq!(times_of_round(u32::MAX - 1), None);
    assert_eq!(times_of_round(u32::MAX), None);
}

#[test]
fn a_time_is_quiescent_once_all_workers_are_beyond_it() {
    let mut synchronizer = EpochSynchronizer::new(3);
    assert_eq!(synchronizer.workers(), 3);
    assert_eq!(synchronizer.frontier(), Some(0));
    assert!(!synchronizer.is_quiescent(0));
    assert_eq!(synchronizer.advance(0, 2), Ok(()));
    assert_eq!(synchronizer.advance(1, 1), Ok(()));
    assert!(!synchronizer.is_quiescent(0));
    assert_eq!(synchronizer.advance(2, 5), Ok(()));
    assert!(synchronizer.is_quiescent(0));
    assert!(!synchronizer.is_quiescent(1));
    assert_eq!(synchronizer.frontier(), Some(1));
    assert_eq!(synchronizer.advance(1, 9), Ok(()));
    assert!(synchronizer.is_quiescent(1));
    assert!(!synchronizer.is_quiescent(2));
    assert_eq!(synchronizer.frontier(), Some(2));
}

#[test]
fn a_frontier_does_not_move_backwards() {
    let mut synchronizer = EpochSynchronizer::new(2);
    assert_eq!(synchronizer.advance(1, 4), Ok(()));
    assert_eq!(synchronizer.advance(1, 4), Ok(()));
    assert_eq!(synchronizer.advance(1, 3), Err(GraphError::Sequence));
    assert_eq!(synchronizer.advance(2, 3), Err(GraphError::Sequence));
    assert_eq!(synchronizer.frontier(), Some(0));
    assert_eq!(synchronizer.advance(0, 7), Ok(()));
    assert_eq!(synchronizer.frontier(), Some(4));
}

#[test]
fn no_workers_leave_every_time_quiescent() {
    let synchronizer = EpochSynchronizer::new(0);
    assert_eq!(synchronizer.workers(), 0);
    assert_eq!(synchronizer.frontier(), None);
    assert!(synchronizer.is_quiescent(0));
    assert!(synchronizer.is_quiescent(u32::MAX));
}

#[test]
fn a_timed_step_hands_back_its_result() {
    let timer = SubEventTimer::new_timer();
    let (answer, line) = timer.time_subevent("Loading", || 6 * 7);
    assert_eq!(answer, 42);
    assert!(line.starts_with("Total: "));
    assert!(line.contains("Loading"));
    let first = timer.elapsed();
    let second = timer.elapsed();
    assert!(first <= second);
}
