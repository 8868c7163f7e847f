use std::collections::HashMap;
use workpool::mapjoin::{JoinError, MapJoin};

#[test]
fn join_returns_outcomes_in_input_order() {
    let mut barrier = MapJoin::new(HashMap::new(), 5);
    for index in [3usize, 0, 4, 1, 2] {
        assert_eq!(barrier.record(index, index * 10), Ok(()));
    }
    assert!(barrier.is_finished());
    assert_eq!(barrier.join(), Ok(vec![0, 10, 20, 30, 40]));
}

#[test]
fn join_order_is_that_of_the_inputs_for_every_completion_order() {
    let orders: [[usize; 3]; 6] =
        [[0, 1, 2], [0, 2, 1], [1, 0, 2], [1, 2, 0], [2, 0, 1], [2, 1, 0]];
    for order in orders {
        let mut barrier = MapJoin::new(HashMap::new(), 3);
        for index in order {
            assert_eq!(barrier.record(index, format!("outcome {}", index)), Ok(()));
        }
        assert_eq!(
            barrier.join(),
            Ok(vec![
                "outcome 0".to_string(),
                "outcome 1".to_string(),
                "outcome 2".to_string()
            ])
        );
    }
}

#[test]
fn join_before_the_last_outcome_is_pending() {
    let mut barrier = MapJoin::new(HashMap::new(), 2);
    assert_eq!(barrier.join(), Err(JoinError::Pending));
    assert_eq!(barrier.record(1, 'b'), Ok(()));
    assert!(!barrier.is_finished());
    assert_eq!(barrier.join(), Err(JoinError::Pending));
    assert_eq!(barrier.record(0, 'a'), Ok(()));
    assert!(barrier.is_finished());
    assert_eq!(barrier.join(), Ok(vec!['a', 'b']));
}

#[test]
fn join_twice_reports_drained() {
    let mut barrier = MapJoin::new(HashMap::new(), 1);
    assert_eq!(barrier.record(0, 9u8), Ok(()));
    assert_eq!(barrier.join(), Ok(vec![9]));
    assert_eq!(barrier.join(), Err(JoinError::Drained));
    assert_eq!(barrier.join(), Err(JoinError::Drained));
    assert!(barrier.is_finished());
}

#[test]
fn join_of_an_empty_batch() {
    let mut barrier: MapJoin<u8> = MapJoin::new(HashMap::new(), 0);
    assert!(barrier.is_finished());
    assert_eq!(barrier.join(), Ok(vec![]));
    assert_eq!(barrier.join(), Err(JoinError::Drained));
}

#[test]
fn record_takes_each_index_of_the_batch_once() {
    let mut barrier = MapJoin::new(HashMap::new(), 2);
    assert_eq!(barrier.record(2, "outside"), Err("outside"));
    assert_eq!(barrier.record(usize::MAX, "far outside"), Err("far outside"));
    assert_eq!(barrier.record(0, "first"), Ok(()));
    assert_eq!(barrier.record(0, "second"), Err("second"));
    assert_eq!(barrier.record(1, "other"), Ok(()));
    assert_eq!(barrier.join(), Ok(vec!["first", "other"]));
    assert_eq!(barrier.record(1, "late"), Err("late"));
}

#[test]
fn new_takes_outcomes_that_have_landed() {
    let mut landed = HashMap::new();
    landed.insert(1usize, -1i64);
    landed.insert(0usize, 5i64);
    let mut barrier = MapJoin::new(landed, 3);
    assert!(!barrier.is_finished());
    assert_eq!(barrier.record(1, 100), Err(100));
    assert_eq!(barrier.record(2, 7), Ok(()));
    assert!(barrier.is_finished());
    assert_eq!(barrier.join(), Ok(vec![5, -1, 7]));
}
