use rand::Rng;
use std::collections::HashMap;
use workpool::child::{thread_operation, Step};
use workpool::mapjoin::{JoinError, MapJoin};
use workpool::pool::Pool;

#[test]
fn thread_count() {
    let thread_ammount: usize = rand::thread_rng().gen::<usize>() % 16 + 1;

    let pool: Pool<u8, u8> = Pool::new(thread_ammount);
    assert_eq!(pool.live_count(), thread_ammount, "batata");
}

#[test]
fn access_pool_from_thread() {
    let mut pool: Pool<(usize, u64), u8> = Pool::new(1);
    let mut barrier: MapJoin<Result<bool, String>> =
        pool.map(|index, worker| (index, worker), vec![0]);
    match thread_operation(&mut pool, 0) {
        Step::Run((index, worker)) => {
            assert_eq!(barrier.record(index, Ok(pool.within_pool(worker))), Ok(()));
        }
        step => panic!("{:?}", step),
    }
    let equality = barrier.join().unwrap();

    assert!(equality[0].as_ref().unwrap());
}

#[test]
fn simple_math_prob() {
    let mut pool: Pool<(usize, i32), u8> = Pool::default(None);

    let math_func = |x: i32| (x * x + 4) / 33;
    let values = vec![1, 2, 3, 4, 7, 33];

    let correct = values
        .iter()
        .map(|val| math_func(*val))
        .collect::<Vec<i32>>();

    let mut barrier: MapJoin<Result<i32, String>> = pool.map(|index, value| (index, value), values);
    while let Step::Run((index, value)) = thread_operation(&mut pool, 0) {
        assert_eq!(barrier.record(index, Ok(math_func(value))), Ok(()));
    }
    let threaded_math = barrier
        .join()
        .unwrap()
        .iter()
        .map(|ret| ret.as_ref().expect("trivial testing").clone())
        .collect::<Vec<_>>();

    assert_eq!(correct, threaded_math);
}

#[test]
fn map_squares_on_four_workers() {
    let mut pool: Pool<(usize, u32), u8> = Pool::new(4);
    let mut barrier: MapJoin<u32> = pool.map(|index, x| (index, x), vec![1, 2, 3, 4, 5]);
    assert!(!barrier.is_finished());
    let mut taken = Vec::new();
    for worker in [2u64, 0, 3, 1, 2] {
        match thread_operation(&mut pool, worker) {
            Step::Run(task) => taken.push(task),
            step => panic!("{:?}", step),
        }
    }
    assert_eq!(taken, vec![(0, 1), (1, 2), (2, 3), (3, 4), (4, 5)]);
    assert_eq!(thread_operation(&mut pool, 0), Step::Park);
    for (index, x) in taken.into_iter().rev() {
        assert_eq!(barrier.record(index, x * x), Ok(()));
    }
    assert_eq!(barrier.join(), Ok(vec![1, 4, 9, 16, 25]));
}

#[test]
fn map_keeps_the_position_of_a_failure() {
    let mut pool: Pool<(usize, i32), u8> = Pool::new(2);
    let mut barrier: MapJoin<Result<i32, String>> = pool.map(|index, x| (index, x), vec![1, 2, 3]);
    while let Step::Run((index, x)) = thread_operation(&mut pool, 1) {
        let outcome = if x % 2 == 0 { Err("panic".to_string()) } else { Ok(x) };
        assert_eq!(barrier.record(index, outcome), Ok(()));
    }
    assert_eq!(
        barrier.join(),
        Ok(vec![Ok(1), Err("panic".to_string()), Ok(3)])
    );
    assert_eq!(pool.live_count(), 2);
}

#[test]
fn map_of_no_inputs() {
    let mut pool: Pool<(usize, u8), u8> = Pool::new(1);
    let mut barrier: MapJoin<u8> = pool.map(|index, x| (index, x), Vec::new());
    assert_eq!(thread_operation(&mut pool, 0), Step::Park);
    assert!(barrier.is_finished());
    assert_eq!(barrier.join(), Ok(Vec::new()));
}

#[test]
fn map_queues_behind_the_tasks_of_an_earlier_batch() {
    let mut pool: Pool<String, u8> = Pool::new(1);
    let _first: MapJoin<u8> =
        pool.map(|index, x: &str| format!("first {} {}", index, x), vec!["a", "b"]);
    let _second: MapJoin<u8> =
        pool.map(|index, x: &str| format!("second {} {}", index, x), vec!["c"]);
    assert_eq!(pool.fetch_task(), Some("first 0 a".to_string()));
    assert_eq!(pool.fetch_task(), Some("first 1 b".to_string()));
    assert_eq!(pool.fetch_task(), Some("second 0 c".to_string()));
    assert_eq!(pool.fetch_task(), None);
}

#[test]
fn new_pool_has_its_workers_and_nothing_else() {
    let mut pool: Pool<u8, u8> = Pool::new(3);
    assert_eq!(pool.target(), 3);
    assert_eq!(pool.live_count(), 3);
    assert_eq!(pool.pending(), 0);
    for worker in 0..3 {
        assert!(pool.within_pool(worker));
        assert!(!pool.is_asleep(worker));
    }
    assert!(!pool.within_pool(3));
    assert_eq!(pool.fetch_task(), None);
}

#[test]
fn pool_without_workers() {
    let mut pool: Pool<u8, u8> = Pool::new(0);
    assert_eq!(pool.live_count(), 0);
    assert!(!pool.within_pool(0));
    assert_eq!(thread_operation(&mut pool, 0), Step::Stop);
    assert_eq!(pool.register_block(0, 1), Err(1));
}

#[test]
fn default_pool_is_sized_to_the_machine() {
    let sized: Pool<u8, u8> = Pool::default(Some(8));
    assert_eq!(sized.target(), 8);
    assert_eq!(sized.live_count(), 8);
    let single: Pool<u8, u8> = Pool::default(None);
    assert_eq!(single.target(), 1);
    assert_eq!(single.live_count(), 1);
    assert!(single.within_pool(0));
}

#[test]
fn live_workers_stay_at_target_without_blocking() {
    let mut pool: Pool<(usize, u16), u8> = Pool::new(4);
    let mut barrier: MapJoin<u16> = pool.map(|index, x| (index, x), (0..40).collect());
    let mut round = 0u64;
    loop {
        assert_eq!(pool.live_count(), 4);
        assert_eq!(pool.hand_off(round % 4), None);
        assert!(!pool.mark_ready(round % 4));
        match thread_operation(&mut pool, round % 4) {
            Step::Run((index, x)) => assert_eq!(barrier.record(index, x + 1), Ok(())),
            Step::Park => break,
            step => panic!("{:?}", step),
        }
        round += 1;
    }
    assert_eq!(round, 40);
    assert_eq!(pool.live_count(), 4);
    assert_eq!(barrier.join(), Ok((1..41).collect::<Vec<u16>>()));
}

#[test]
fn hand_off_keeps_concurrency_at_target() {
    let mut pool: Pool<u8, &str> = Pool::new(3);
    let active = |pool: &Pool<u8, &str>| {
        (0..10u64).filter(|worker| pool.within_pool(*worker) && !pool.is_asleep(*worker)).count()
    };
    assert_eq!(active(&pool), 3);

    assert_eq!(pool.register_block(1, "alarm of 1"), Ok(3));
    assert_eq!(pool.live_count(), 4);
    assert_eq!(active(&pool), 3);
    assert!(pool.is_blocked(1));

    assert_eq!(thread_operation(&mut pool, 0), Step::Park);
    assert!(pool.mark_ready(1));
    assert!(!pool.is_blocked(1));
    assert!(pool.is_pending(1));
    assert_eq!(pool.pending(), 1);
    assert_eq!(active(&pool), 3);

    assert_eq!(thread_operation(&mut pool, 3), Step::Retire(1, "alarm of 1"));
    assert_eq!(pool.pending(), 0);
    assert_eq!(pool.live_count(), 3);
    assert_eq!(active(&pool), 3);
    assert!(pool.within_pool(1));
    assert!(!pool.is_asleep(1));
    assert!(!pool.within_pool(3));
    assert_eq!(thread_operation(&mut pool, 3), Step::Stop);
}

#[test]
fn resumptions_are_claimed_oldest_first_and_once() {
    let mut pool: Pool<u8, char> = Pool::new(4);
    assert_eq!(pool.register_block(2, 'c'), Ok(4));
    assert_eq!(pool.register_block(0, 'a'), Ok(5));
    assert_eq!(pool.live_count(), 6);
    assert!(pool.mark_ready(2));
    assert!(pool.mark_ready(0));
    assert!(!pool.mark_ready(0));
    assert_eq!(pool.pending(), 2);
    assert_eq!(pool.hand_off(1), Some((2, 'c')));
    assert_eq!(pool.hand_off(1), None);
    assert_eq!(pool.hand_off(4), Some((0, 'a')));
    assert_eq!(pool.hand_off(5), None);
    assert_eq!(pool.pending(), 0);
    assert_eq!(pool.live_count(), 4);
}

#[test]
fn register_block_refuses_strangers_and_sleepers() {
    let mut pool: Pool<u8, &str> = Pool::new(2);
    assert_eq!(pool.register_block(7, "stranger"), Err("stranger"));
    assert_eq!(pool.register_block(0, "first"), Ok(2));
    assert_eq!(pool.register_block(0, "again"), Err("again"));
    assert!(pool.mark_ready(0));
    assert_eq!(pool.register_block(0, "pending"), Err("pending"));
    assert_eq!(pool.live_count(), 3);
}

#[test]
fn parked_workers_do_not_hand_off() {
    let mut pool: Pool<u8, &str> = Pool::new(2);
    assert_eq!(pool.register_block(0, "zero"), Ok(2));
    assert_eq!(pool.register_block(1, "one"), Ok(3));
    assert!(pool.mark_ready(0));
    assert_eq!(pool.hand_off(0), None);
    assert_eq!(pool.hand_off(1), None);
    assert_eq!(pool.hand_off(9), None);
    assert_eq!(pool.hand_off(2), Some((0, "zero")));
}

#[test]
fn worker_hands_off_before_it_takes_a_task() {
    let mut pool: Pool<(usize, u8), &str> = Pool::new(2);
    let _barrier: MapJoin<u8> = pool.map(|index, x| (index, x), vec![10, 20]);
    assert_eq!(pool.register_block(0, "zero"), Ok(2));
    assert_eq!(thread_operation(&mut pool, 1), Step::Run((0, 10)));
    assert!(pool.mark_ready(0));
    assert_eq!(thread_operation(&mut pool, 1), Step::Retire(0, "zero"));
    assert_eq!(thread_operation(&mut pool, 2), Step::Run((1, 20)));
    assert_eq!(thread_operation(&mut pool, 2), Step::Park);
    assert_eq!(thread_operation(&mut pool, 1), Step::Stop);
    assert_eq!(pool.live_count(), 2);
}

#[test]
fn barrier_of_a_batch_reports_pending_until_the_workers_are_done() {
    let mut pool: Pool<(usize, u8), u8> = Pool::new(1);
    let mut barrier: MapJoin<u8> = pool.map(|index, x| (index, x), vec![1, 2]);
    assert_eq!(barrier.join(), Err(JoinError::Pending));
    let landed: HashMap<usize, u8> = HashMap::new();
    assert!(landed.is_empty());
    while let Step::Run((index, x)) = thread_operation(&mut pool, 0) {
        assert_eq!(barrier.record(index, x), Ok(()));
    }
    assert_eq!(barrier.join(), Ok(vec![1, 2]));
}
