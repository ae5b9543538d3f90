use simple_http_server::pool::{Message, Phase, Pool};

#[test]
fn new_pool_has_idle_workers_and_an_empty_queue() {
    let pool: Pool<u32> = Pool::new(3);
    assert_eq!(pool.size(), 3);
    assert_eq!(pool.queued(), 0);
    assert!(!pool.is_closing());
    assert!(!pool.is_torn_down());
    for worker in 0..3 {
        assert_eq!(pool.phase(worker), Some(Phase::Idle));
    }
    assert_eq!(pool.phase(3), None);
}

#[test]
fn jobs_are_delivered_in_the_order_of_submission() {
    let mut pool: Pool<&str> = Pool::new(2);
    assert_eq!(pool.submit("first"), Ok(()));
    assert_eq!(pool.submit("second"), Ok(()));
    assert_eq!(pool.submit("third"), Ok(()));
    assert_eq!(pool.queued(), 3);
    assert_eq!(pool.receive(1), Some(Message::NewJob("first")));
    assert_eq!(pool.receive(0), Some(Message::NewJob("second")));
    assert_eq!(pool.queued(), 1);
    assert_eq!(pool.phase(0), Some(Phase::Busy));
    assert_eq!(pool.phase(1), Some(Phase::Busy));
}

#[test]
fn busy_worker_takes_nothing_until_it_finishes() {
    let mut pool: Pool<u8> = Pool::new(1);
    assert_eq!(pool.submit(1), Ok(()));
    assert_eq!(pool.submit(2), Ok(()));
    assert_eq!(pool.receive(0), Some(Message::NewJob(1)));
    assert_eq!(pool.receive(0), None);
    assert_eq!(pool.queued(), 1);
    pool.finish(0);
    assert_eq!(pool.phase(0), Some(Phase::Idle));
    assert_eq!(pool.receive(0), Some(Message::NewJob(2)));
}

#[test]
fn idle_worker_gets_nothing_from_an_empty_queue() {
    let mut pool: Pool<u8> = Pool::new(2);
    assert_eq!(pool.receive(0), None);
    assert_eq!(pool.phase(0), Some(Phase::Idle));
}

#[test]
fn unknown_worker_changes_nothing() {
    let mut pool: Pool<u8> = Pool::new(2);
    assert_eq!(pool.submit(9), Ok(()));
    assert_eq!(pool.receive(2), None);
    pool.finish(7);
    assert_eq!(pool.queued(), 1);
    assert_eq!(pool.phase(0), Some(Phase::Idle));
    assert_eq!(pool.phase(1), Some(Phase::Idle));
}

#[test]
fn finish_of_an_idle_worker_changes_nothing() {
    let mut pool: Pool<u8> = Pool::new(1);
    pool.finish(0);
    assert_eq!(pool.phase(0), Some(Phase::Idle));
    assert_eq!(pool.queued(), 0);
}

#[test]
fn shutdown_queues_one_terminate_per_worker() {
    let mut pool: Pool<u8> = Pool::new(3);
    assert_eq!(pool.submit(1), Ok(()));
    pool.shutdown();
    assert!(pool.is_closing());
    assert_eq!(pool.queued(), 4);
    assert_eq!(pool.receive(0), Some(Message::NewJob(1)));
    assert_eq!(pool.receive(1), Some(Message::Terminate));
    assert_eq!(pool.receive(2), Some(Message::Terminate));
    pool.finish(0);
    assert_eq!(pool.receive(0), Some(Message::Terminate));
    assert_eq!(pool.queued(), 0);
    assert!(pool.is_torn_down());
}

#[test]
fn second_shutdown_changes_nothing() {
    let mut pool: Pool<u8> = Pool::new(2);
    pool.shutdown();
    pool.shutdown();
    assert_eq!(pool.queued(), 2);
}

#[test]
fn job_submitted_after_shutdown_is_handed_back() {
    let mut pool: Pool<String> = Pool::new(2);
    pool.shutdown();
    assert_eq!(pool.submit("late".to_string()), Err("late".to_string()));
    assert_eq!(pool.queued(), 2);
}

#[test]
fn terminated_worker_takes_nothing_more() {
    let mut pool: Pool<u8> = Pool::new(2);
    pool.shutdown();
    assert_eq!(pool.receive(0), Some(Message::Terminate));
    assert_eq!(pool.phase(0), Some(Phase::Exited));
    assert_eq!(pool.receive(0), None);
    assert_eq!(pool.queued(), 1);
    assert!(!pool.is_torn_down());
    assert_eq!(pool.receive(1), Some(Message::Terminate));
    assert!(pool.is_torn_down());
}

/// Runs a pool of `size` workers on `count` jobs, with the workers taking
/// turns in the order that `turn` gives, and returns the jobs in the order
/// in which they were completed.
fn run_to_teardown(size: usize, count: u32, turn: fn(usize, usize) -> usize) -> Vec<u32> {
    let mut pool: Pool<u32> = Pool::new(size);
    for job in 0..count {
        assert_eq!(pool.submit(job), Ok(()));
    }
    pool.shutdown();
    let mut running: Vec<Option<u32>> = vec![None; size];
    let mut completed = Vec::new();
    let mut round = 0;
    while !pool.is_torn_down() {
        let worker = turn(round, size);
        round += 1;
        assert!(round < 10_000);
        if let Some(job) = running[worker].take() {
            pool.finish(worker);
            completed.push(job);
        } else if let Some(Message::NewJob(job)) = pool.receive(worker) {
            running[worker] = Some(job);
        }
    }
    assert!(running.iter().all(|job| job.is_none()));
    assert_eq!(pool.queued(), 0);
    completed
}

#[test]
fn every_job_runs_once_before_teardown() {
    for size in 1..=4 {
        for count in [0u32, 1, 2, 5, 17] {
            let mut completed = run_to_teardown(size, count, |round, size| round % size);
            assert_eq!(completed.len(), count as usize);
            completed.sort();
            assert_eq!(completed, (0..count).collect::<Vec<u32>>());
        }
    }
}

#[test]
fn every_job_runs_once_when_workers_take_uneven_turns() {
    let mut completed = run_to_teardown(3, 11, |round, size| (round * round + round / 3) % size);
    assert_eq!(completed.len(), 11);
    completed.sort();
    assert_eq!(completed, (0..11).collect::<Vec<u32>>());
}

#[test]
fn single_worker_completes_jobs_in_order() {
    let completed = run_to_teardown(1, 6, |_, _| 0);
    assert_eq!(completed, vec![0, 1, 2, 3, 4, 5]);
}
