use rust_book::pool::WorkerState;
use rust_book::{JobQueue, Message, PoolError};

/// Runs every worker of `q` in turn until none is left waiting, as the worker
/// threads would. Each job is a task id; running it records the id. Returns the
/// recorded ids and the number of terminate markers taken.
fn drain(q: &mut JobQueue<u32>) -> (Vec<u32>, usize) {
    let mut ran = Vec::new();
    let mut stops = 0;
    loop {
        let mut progressed = false;
        for w in 0..q.worker_count() {
            if q.worker_state(w) != WorkerState::Idle {
                continue;
            }
            match q.take(w) {
                Some(Message::NewJob(job)) => {
                    assert_eq!(q.worker_state(w), WorkerState::Busy(job.id));
                    ran.push(job.task);
                    q.finish(w);
                    progressed = true;
                }
                Some(Message::Terminate) => {
                    assert_eq!(q.worker_state(w), WorkerState::Exited);
                    stops += 1;
                    progressed = true;
                }
                None => {}
            }
        }
        if !progressed {
            return (ran, stops);
        }
    }
}

#[test]
fn teardown_without_jobs_lets_every_worker_exit() {
    for n in 1..=8 {
        let mut q: JobQueue<u32> = JobQueue::new(n);
        assert_eq!(q.shutdown(), n);
        let (ran, stops) = drain(&mut q);
        assert!(ran.is_empty());
        assert_eq!(stops, n);
        for w in 0..n {
            assert_eq!(q.worker_state(w), WorkerState::Exited);
        }
    }
}

#[test]
fn every_job_runs_exactly_once() {
    let mut q: JobQueue<u32> = JobQueue::new(3);
    for k in 0..10u32 {
        assert_eq!(q.submit(k), Ok(k as u64));
    }
    q.shutdown();
    let (mut ran, stops) = drain(&mut q);
    assert_eq!(stops, 3);
    ran.sort();
    assert_eq!(ran, (0..10).collect::<Vec<u32>>());
}

#[test]
fn shutdown_enqueues_one_marker_per_worker() {
    let mut q: JobQueue<u32> = JobQueue::new(5);
    q.submit(7).unwrap();
    assert_eq!(q.shutdown(), 5);
    assert!(q.is_closing());
    let (ran, stops) = drain(&mut q);
    assert_eq!(ran, vec![7]);
    assert_eq!(stops, 5);
    for w in 0..5 {
        assert_eq!(q.worker_state(w), WorkerState::Exited);
    }
}

#[test]
fn four_workers_run_four_tasks() {
    let mut q: JobQueue<u32> = JobQueue::new(4);
    for id in 0..4u32 {
        q.submit(id).unwrap();
    }
    // all four workers take a job before any of them finishes
    let mut busy = Vec::new();
    for w in 0..4 {
        match q.take(w) {
            Some(Message::NewJob(job)) => busy.push((w, job.task)),
            _ => panic!("worker {} found no job", w),
        }
    }
    let mut ids = Vec::new();
    for (w, task) in busy.into_iter().rev() {
        ids.push(task);
        q.finish(w);
    }
    q.shutdown();
    let (ran, stops) = drain(&mut q);
    assert!(ran.is_empty());
    assert_eq!(stops, 4);
    ids.sort();
    assert_eq!(ids, vec![0, 1, 2, 3]);
}

#[test]
fn failed_job_does_not_hang_teardown() {
    let mut q: JobQueue<u32> = JobQueue::new(1);
    q.submit(1).unwrap();
    match q.take(0) {
        Some(Message::NewJob(job)) => assert_eq!(job.id, 0),
        _ => panic!("expected a job"),
    }
    q.fail(0);
    assert_eq!(q.worker_state(0), WorkerState::Failed);
    assert_eq!(q.submit(2), Err(PoolError::ChannelClosed));
    assert_eq!(q.shutdown(), 1);
    let (ran, stops) = drain(&mut q);
    assert!(ran.is_empty());
    assert_eq!(stops, 0);
    assert_eq!(q.worker_state(0), WorkerState::Failed);
}

#[test]
fn jobs_come_out_in_submission_order() {
    let mut q: JobQueue<u32> = JobQueue::new(1);
    for k in [5u32, 3, 9] {
        q.submit(k).unwrap();
    }
    assert_eq!(q.submitted(), 3);
    q.shutdown();
    let (ran, stops) = drain(&mut q);
    assert_eq!(ran, vec![5, 3, 9]);
    assert_eq!(stops, 1);
}

#[test]
fn no_job_after_teardown_began() {
    let mut q: JobQueue<u32> = JobQueue::new(2);
    q.shutdown();
    assert_eq!(q.submit(1), Err(PoolError::ChannelClosed));
    assert_eq!(q.submitted(), 0);
}

#[test]
fn idle_worker_waits_while_queue_is_empty() {
    let mut q: JobQueue<u32> = JobQueue::new(2);
    assert!(q.take(1).is_none());
    assert_eq!(q.worker_state(1), WorkerState::Idle);
    assert!(q.accepts());
}
