use workpool::pool::{JobStatus, Phase, ThreadPool, Worker};

#[test]
fn new_creates_exactly_size_workers() {
    let pool = ThreadPool::new(3);
    assert_eq!(pool.workers.len(), 3);
    for (i, w) in pool.workers.iter().enumerate() {
        assert_eq!(
            *w,
            Worker {
                id: i,
                phase: Phase::Listening,
                joined: false,
            }
        );
    }
    assert!(pool.sender_open);
    assert_eq!(pool.queue.len(), 0);
    assert_eq!(pool.statuses.len(), 0);
}

#[test]
fn worker_new_starts_listening() {
    let w = Worker::new(7);
    assert_eq!(w.id, 7);
    assert_eq!(w.phase, Phase::Listening);
    assert!(!w.joined);
}

#[test]
fn submitting_more_jobs_than_workers_queues_them_all() {
    // Two workers, five jobs: every submission returns at once and none is
    // dropped; the queue keeps them in submission order.
    let mut pool = ThreadPool::new(2);
    for expected in 0..5 {
        let job = pool.execute();
        assert_eq!(job, expected);
    }
    assert_eq!(pool.queue, vec![0, 1, 2, 3, 4]);
    assert_eq!(pool.statuses, vec![JobStatus::Queued; 5]);
}

#[test]
fn dispatch_is_fifo_and_exclusive() {
    let mut pool = ThreadPool::new(2);
    pool.execute();
    pool.execute();
    pool.execute();
    let a = pool.dispatch(0);
    let b = pool.dispatch(1);
    assert_eq!(a, 0);
    assert_eq!(b, 1);
    assert_ne!(a, b);
    assert_eq!(pool.statuses[0], JobStatus::Running { worker: 0 });
    assert_eq!(pool.statuses[1], JobStatus::Running { worker: 1 });
    assert_eq!(pool.queue, vec![2]);
}

#[test]
fn five_jobs_on_two_workers_each_runs_exactly_once() {
    // Pool of size 2, five jobs; completions are collected as they happen.
    // After teardown the collection holds all five indices exactly once.
    let mut pool = ThreadPool::new(2);
    for _ in 0..5 {
        pool.execute();
    }
    let mut completed: Vec<usize> = Vec::new();
    // Interleave the two workers, letting them race in an arbitrary order.
    while !pool.queue.is_empty() {
        let w = completed.len() % 2;
        pool.dispatch(w);
        completed.push(pool.complete(w));
    }
    pool.close();
    pool.retire(0);
    pool.retire(1);
    let crashed = pool.shutdown();
    assert!(crashed.is_empty());
    let mut sorted = completed.clone();
    sorted.sort();
    assert_eq!(sorted, vec![0, 1, 2, 3, 4]);
    assert_eq!(pool.statuses, vec![JobStatus::Done; 5]);
}

#[test]
fn teardown_with_no_jobs_joins_all_workers() {
    // Pool of size 4, no jobs: teardown completes and every worker has
    // exited cleanly and been joined.
    let mut pool = ThreadPool::new(4);
    pool.close();
    for w in 0..4 {
        pool.retire(w);
    }
    let crashed = pool.shutdown();
    assert!(crashed.is_empty());
    for w in &pool.workers {
        assert_eq!(w.phase, Phase::Terminated);
        assert!(w.joined);
    }
    assert!(!pool.sender_open);
}

#[test]
fn panicking_job_is_surfaced_at_teardown() {
    // Pool of size 1: the first job panics, a second job is still accepted,
    // and teardown reports the dead worker instead of hanging on it.
    let mut pool = ThreadPool::new(1);
    let first = pool.execute();
    pool.dispatch(0);
    let lost = pool.job_panicked(0);
    assert_eq!(lost, first);
    let second = pool.execute();
    pool.close();
    let crashed = pool.shutdown();
    assert_eq!(crashed, vec![0]);
    assert!(pool.workers[0].joined);
    assert_eq!(pool.workers[0].phase, Phase::Poisoned);
    assert_eq!(pool.statuses[first], JobStatus::Lost { worker: 0 });
    // The second job was never delivered and is still pending: a panicking
    // worker loses only its own job, but a one-worker pool has nobody left.
    assert_eq!(pool.statuses[second], JobStatus::Queued);
}

#[test]
fn join_worker_reports_how_the_thread_ended() {
    let mut pool = ThreadPool::new(2);
    pool.execute();
    pool.dispatch(0);
    pool.job_panicked(0);
    pool.close();
    pool.retire(1);
    let panicked = pool.join_worker(0);
    let clean = pool.join_worker(1);
    assert!(panicked);
    assert!(!clean);
}
