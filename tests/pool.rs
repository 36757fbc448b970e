use webserver::pool::{Message, PoolState};

fn job_of(m: Option<Message<u32>>) -> Option<u32> {
    match m {
        Some(Message::NewJob(j)) => Some(j),
        _ => None,
    }
}

fn is_terminate(m: &Option<Message<u32>>) -> bool {
    matches!(m, Some(Message::Terminate))
}

#[test]
fn new_pool_has_all_workers_running() {
    let p: PoolState<u32> = PoolState::new(4);
    assert_eq!(p.size(), 4);
    assert_eq!(p.live_workers(), 4);
    assert_eq!(p.pending(), 0);
    assert!(!p.is_stopping());
}

#[test]
fn jobs_come_out_in_submission_order() {
    let mut p = PoolState::new(2);
    p.execute(1u32);
    p.execute(2);
    p.execute(3);
    assert_eq!(job_of(p.take()), Some(1));
    assert_eq!(job_of(p.take()), Some(2));
    assert_eq!(job_of(p.take()), Some(3));
    assert!(p.take().is_none());
    assert_eq!(p.live_workers(), 2);
}

#[test]
fn shutdown_drains_earlier_jobs_and_never_runs_later_ones() {
    let mut p = PoolState::new(2);
    p.execute(1u32);
    p.execute(2);
    p.shutdown();
    assert!(p.is_stopping());
    p.execute(3);
    assert_eq!(p.pending(), 5);
    let mut ran = Vec::new();
    while p.live_workers() > 0 {
        match p.take() {
            Some(Message::NewJob(j)) => ran.push(j),
            Some(Message::Terminate) => {}
            None => break,
        }
    }
    assert_eq!(ran, vec![1, 2]);
    assert_eq!(p.live_workers(), 0);
    assert_eq!(p.pending(), 1);
}

#[test]
fn termination_signal_stops_one_worker() {
    let mut p = PoolState::new(3);
    p.shutdown();
    assert_eq!(p.pending(), 3);
    assert!(is_terminate(&p.take()));
    assert_eq!(p.live_workers(), 2);
}

#[test]
fn faulted_job_costs_one_worker_and_others_go_on() {
    let mut p = PoolState::new(2);
    p.execute(1u32);
    p.execute(2);
    p.execute(3);
    assert_eq!(job_of(p.take()), Some(1));
    p.job_failed();
    assert_eq!(p.live_workers(), 1);
    assert_eq!(job_of(p.take()), Some(2));
    assert_eq!(job_of(p.take()), Some(3));
    p.shutdown();
    assert!(is_terminate(&p.take()));
    assert_eq!(p.live_workers(), 0);
    assert_eq!(p.size(), 2);
}
