use ruginx::pool::{Pool, PoolError};
use ruginx::queue::{JobQueue, Recv};
use ruginx::worker::Phase;

#[test]
fn zero_size_is_refused() {
    let r: Result<Pool<u8, usize>, PoolError> = Pool::new(0, 1u8, |id| id);
    assert!(matches!(r, Err(PoolError::ZeroSize)));
}

#[test]
fn new_pool_has_one_started_worker_per_slot() {
    let p: Pool<u8, usize> = Pool::new(4, 9u8, |id| id * 10).unwrap();
    assert_eq!(p.len(), 4);
    assert_eq!(p.sender(), Some(&9u8));
}

#[test]
fn single_worker_pool() {
    let mut p: Pool<(), usize> = Pool::new(1, (), |id| id + 100).unwrap();
    assert_eq!(p.len(), 1);
    let (sender, threads) = p.teardown();
    assert_eq!(sender, Some(()));
    assert_eq!(threads, vec![(0, 100)]);
}

#[test]
fn teardown_releases_sender_then_reclaims_in_identity_order() {
    let mut p: Pool<&str, String> = Pool::new(3, "tx", |id| format!("thread-{id}")).unwrap();
    let (sender, threads) = p.teardown();
    assert_eq!(sender, Some("tx"));
    assert_eq!(
        threads,
        vec![
            (0, "thread-0".to_string()),
            (1, "thread-1".to_string()),
            (2, "thread-2".to_string()),
        ]
    );
    assert_eq!(p.sender(), None);
    assert_eq!(p.len(), 3);
}

#[test]
fn second_teardown_reclaims_nothing() {
    let mut p: Pool<u8, usize> = Pool::new(2, 0u8, |id| id).unwrap();
    let _ = p.teardown();
    let (sender, threads) = p.teardown();
    assert_eq!(sender, None);
    assert!(threads.is_empty());
}

#[test]
fn release_sender_keeps_workers() {
    let mut p: Pool<u8, usize> = Pool::new(2, 5u8, |id| id).unwrap();
    assert_eq!(p.release_sender(), Some(5));
    assert_eq!(p.release_sender(), None);
    assert_eq!(p.reclaim_threads(), vec![(0, 0), (1, 1)]);
    assert!(p.reclaim_threads().is_empty());
}

#[test]
fn worker_hands_its_thread_out_once() {
    let mut w = ruginx::pool::Worker::new(3, "handle");
    assert_eq!(w.id(), 3);
    assert!(w.has_thread());
    assert_eq!(w.take_thread(), Some("handle"));
    assert!(!w.has_thread());
    assert_eq!(w.take_thread(), None);
    assert_eq!(w.id(), 3);
}

#[test]
fn worker_phase_follows_receive_outcome() {
    assert_eq!(Phase::after_receive(&Recv::Job(1u8)), Phase::Executing);
    assert_eq!(Phase::after_receive(&Recv::<u8>::Pending), Phase::Idle);
    assert_eq!(Phase::after_receive(&Recv::<u8>::Closed), Phase::Terminal);
    assert_eq!(Phase::Executing.after_job(), Phase::Idle);
    assert!(Phase::Terminal.is_terminal());
    assert!(!Phase::Idle.is_terminal());
}

/// Two workers take turns on the queue as the lock would let them; five jobs
/// each record (worker, job index).
#[test]
fn two_workers_five_jobs_scenario() {
    let mut pool: Pool<(), usize> = Pool::new(2, (), |id| id).unwrap();
    let mut q: JobQueue<usize> = JobQueue::new();
    for job in 0..5usize {
        q.send(job).unwrap();
    }
    let (sender, threads) = pool.teardown();
    assert!(sender.is_some());
    q.close();
    let mut phases = vec![Phase::Idle; threads.len()];
    let mut records: Vec<(usize, usize)> = Vec::new();
    let mut turn = 0usize;
    while phases.iter().any(|p| !p.is_terminal()) {
        let (worker, _) = threads[turn % threads.len()];
        turn += 1;
        if phases[worker].is_terminal() {
            continue;
        }
        let outcome = q.recv();
        phases[worker] = Phase::after_receive(&outcome);
        if let Recv::Job(job) = outcome {
            records.push((worker, job));
            phases[worker] = phases[worker].after_job();
        }
    }
    assert_eq!(records.len(), 5);
    let mut indices: Vec<usize> = records.iter().map(|r| r.1).collect();
    indices.sort();
    assert_eq!(indices, vec![0, 1, 2, 3, 4]);
    let mut workers: Vec<usize> = records.iter().map(|r| r.0).collect();
    workers.sort();
    workers.dedup();
    assert!(workers.len() <= 2);
}
