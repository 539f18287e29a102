use ruginx::queue::{JobQueue, Recv};

fn take<T>(q: &mut JobQueue<T>) -> Option<T> {
    match q.recv() {
        Recv::Job(j) => Some(j),
        _ => None,
    }
}

#[test]
fn new_queue_is_open_and_empty() {
    let mut q: JobQueue<u32> = JobQueue::new();
    assert!(q.is_open());
    assert_eq!(q.len(), 0);
    assert!(matches!(q.recv(), Recv::Pending));
}

#[test]
fn jobs_start_in_submission_order() {
    let mut q: JobQueue<&str> = JobQueue::new();
    assert!(q.send("J1").is_ok());
    assert!(q.send("J2").is_ok());
    assert!(q.send("J3").is_ok());
    assert_eq!(q.len(), 3);
    assert_eq!(take(&mut q), Some("J1"));
    assert_eq!(take(&mut q), Some("J2"));
    assert_eq!(take(&mut q), Some("J3"));
    assert!(matches!(q.recv(), Recv::Pending));
}

#[test]
fn closing_drains_pending_jobs_before_reporting_closed() {
    let mut q: JobQueue<u32> = JobQueue::new();
    for i in 0..4u32 {
        q.send(i).unwrap();
    }
    q.close();
    assert!(!q.is_open());
    assert_eq!(q.len(), 4);
    for i in 0..4u32 {
        assert_eq!(take(&mut q), Some(i));
    }
    assert!(matches!(q.recv(), Recv::Closed));
    assert!(matches!(q.recv(), Recv::Closed));
}

#[test]
fn send_after_close_hands_the_job_back() {
    let mut q: JobQueue<u32> = JobQueue::new();
    q.close();
    assert_eq!(q.send(7), Err(7));
    assert_eq!(q.len(), 0);
    assert!(matches!(q.recv(), Recv::Closed));
}

#[test]
fn interleaved_sends_and_receives_lose_nothing() {
    let mut q: JobQueue<u32> = JobQueue::new();
    let mut delivered = Vec::new();
    let mut next = 0u32;
    for round in 0..10u32 {
        for _ in 0..(round % 3 + 1) {
            q.send(next).unwrap();
            next += 1;
        }
        if round % 2 == 0 {
            if let Some(j) = take(&mut q) {
                delivered.push(j);
            }
        }
    }
    q.close();
    while let Some(j) = take(&mut q) {
        delivered.push(j);
    }
    let expected: Vec<u32> = (0..next).collect();
    assert_eq!(delivered, expected);
}

#[test]
fn boxed_closures_run_once_each() {
    let log = std::rc::Rc::new(std::cell::RefCell::new(Vec::new()));
    let mut q: JobQueue<Box<dyn FnOnce()>> = JobQueue::new();
    for i in 0..3usize {
        let log = log.clone();
        assert!(q.send(Box::new(move || log.borrow_mut().push(i))).is_ok());
    }
    q.close();
    while let Recv::Job(job) = q.recv() {
        job();
    }
    assert_eq!(*log.borrow(), vec![0, 1, 2]);
}
