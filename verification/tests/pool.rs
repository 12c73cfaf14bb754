use simple_server::Action;
use simple_server::Message;
use simple_server::Phase;
use simple_server::PoolError;
use simple_server::ThreadPool;

#[test]
fn zero_size_pool_is_refused_every_time() {
    assert_eq!(ThreadPool::new(0).err(), Some(PoolError::ZeroSize));
    assert_eq!(ThreadPool::new(0).err(), Some(PoolError::ZeroSize));
}

#[test]
fn new_pool_has_n_running_workers() {
    let pool = ThreadPool::new(4).unwrap();
    assert_eq!(pool.workers.len(), 4);
    for (i, w) in pool.workers.iter().enumerate() {
        assert_eq!(w.id, i);
        assert!(w.running);
        assert!(!w.joined);
    }
    assert!(pool.queue.is_empty());
    assert!(pool.executed.is_empty());
    assert_eq!(pool.phase, Phase::Accepting);
}

#[test]
fn smallest_pool_has_one_worker() {
    let pool = ThreadPool::new(1).unwrap();
    assert_eq!(pool.workers.len(), 1);
    assert!(pool.workers[0].running);
}

#[test]
fn submit_appends_to_queue_in_order() {
    let mut pool = ThreadPool::new(2).unwrap();
    assert_eq!(pool.execute(10), Ok(()));
    assert_eq!(pool.execute(20), Ok(()));
    assert_eq!(pool.queue, vec![Message::NewJob(10), Message::NewJob(20)]);
    assert!(pool.executed.is_empty());
}

#[test]
fn submit_does_not_wait_for_busy_workers() {
    // A single worker with a job already queued: the second submission is
    // still accepted at once, before any job has run.
    let mut pool = ThreadPool::new(1).unwrap();
    assert_eq!(pool.execute(1), Ok(()));
    assert_eq!(pool.execute(2), Ok(()));
    assert!(pool.executed.is_empty());
    assert_eq!(pool.queue.len(), 2);
}

#[test]
fn every_job_runs_exactly_once() {
    let mut pool = ThreadPool::new(2).unwrap();
    for label in 0..5u64 {
        pool.execute(label).unwrap();
    }
    pool.shutdown();
    assert_eq!(pool.executed, vec![0, 1, 2, 3, 4]);
}

#[test]
fn shutdown_runs_all_jobs_and_leaves_no_live_worker() {
    let mut pool = ThreadPool::new(3).unwrap();
    pool.execute(7).unwrap();
    pool.execute(8).unwrap();
    pool.shutdown();
    assert!(pool.queue.is_empty());
    assert_eq!(pool.executed, vec![7, 8]);
    for w in &pool.workers {
        assert!(!w.running);
        assert!(w.joined);
    }
    assert_eq!(pool.phase, Phase::Closing);
}

#[test]
fn three_labels_each_appended_exactly_once() {
    // Pool of two workers; jobs A, B and C each record their label; after
    // shutdown the record holds each label exactly once.
    let label_a: u64 = 65;
    let label_b: u64 = 66;
    let label_c: u64 = 67;
    let mut pool = ThreadPool::new(2).unwrap();
    pool.execute(label_a).unwrap();
    pool.execute(label_b).unwrap();
    pool.execute(label_c).unwrap();
    pool.shutdown();
    let mut record = pool.executed.clone();
    record.sort();
    assert_eq!(record, vec![label_a, label_b, label_c]);
}

#[test]
fn single_worker_serializes_jobs() {
    // Pool of one worker; while the first job occupies the worker the second
    // stays queued, and starts only after the first has finished.
    let mut pool = ThreadPool::new(1).unwrap();
    pool.execute(1).unwrap();
    pool.execute(2).unwrap();
    assert_eq!(pool.deliver_next(0), Action::Run(1));
    assert_eq!(pool.executed, vec![1]);
    assert_eq!(pool.queue, vec![Message::NewJob(2)]);
    assert_eq!(pool.deliver_next(0), Action::Run(2));
    assert_eq!(pool.executed, vec![1, 2]);
    pool.shutdown();
}

#[test]
fn submit_after_shutdown_began_is_refused() {
    let mut pool = ThreadPool::new(1).unwrap();
    pool.shutdown_begin();
    assert_eq!(pool.execute(3), Err(PoolError::PoolClosed));
    assert_eq!(pool.queue, vec![Message::Terminate]);
    assert_eq!(pool.deliver_next(0), Action::Stop);
    pool.join(0);
    assert!(pool.workers[0].joined);
}

#[test]
fn one_terminate_per_worker_stops_each_once() {
    let mut pool = ThreadPool::new(2).unwrap();
    pool.shutdown_begin();
    assert_eq!(pool.queue, vec![Message::Terminate, Message::Terminate]);
    assert_eq!(pool.deliver_next(1), Action::Stop);
    assert!(!pool.workers[1].running);
    assert!(pool.workers[0].running);
    assert_eq!(pool.deliver_next(0), Action::Stop);
    assert!(!pool.workers[0].running);
    pool.join(0);
    pool.join(1);
    assert!(pool.queue.is_empty());
}

#[test]
fn shutdown_with_no_jobs_still_stops_every_worker() {
    let mut pool = ThreadPool::new(2).unwrap();
    pool.shutdown();
    assert!(pool.executed.is_empty());
    assert!(pool.queue.is_empty());
    for w in &pool.workers {
        assert!(!w.running);
        assert!(w.joined);
    }
}

#[test]
fn duplicate_labels_run_once_per_submission() {
    let mut pool = ThreadPool::new(2).unwrap();
    pool.execute(5).unwrap();
    pool.execute(5).unwrap();
    pool.shutdown();
    assert_eq!(pool.executed, vec![5, 5]);
}

#[test]
fn jobs_run_in_submission_order() {
    let mut pool = ThreadPool::new(1).unwrap();
    pool.execute(30).unwrap();
    pool.execute(10).unwrap();
    pool.execute(20).unwrap();
    pool.shutdown();
    assert_eq!(pool.executed, vec![30, 10, 20]);
}

#[test]
fn jobs_queued_before_shutdown_run_before_the_pills() {
    let mut pool = ThreadPool::new(2).unwrap();
    pool.execute(5).unwrap();
    pool.shutdown_begin();
    assert_eq!(
        pool.queue,
        vec![Message::NewJob(5), Message::Terminate, Message::Terminate]
    );
    // Whichever worker dequeues next gets the job, not a pill.
    assert_eq!(pool.deliver_next(1), Action::Run(5));
    assert_eq!(pool.deliver_next(0), Action::Stop);
    assert_eq!(pool.deliver_next(1), Action::Stop);
    pool.join(0);
    pool.join(1);
    assert_eq!(pool.executed, vec![5]);
}
