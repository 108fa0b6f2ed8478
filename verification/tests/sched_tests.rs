use check_port::ports::PortRange;
use check_port::probe::{FailureReason, ProbeOutcome};
use check_port::sched::{run_schedule, valid_params, Scheduler};

fn fail() -> ProbeOutcome {
    ProbeOutcome::Failure(FailureReason::Timeout)
}

fn ok() -> ProbeOutcome {
    ProbeOutcome::Success
}

#[test]
fn responder_on_middle_port_only() {
    // ip 127.0.0.1, ports 9000..=9002, token "ping", timeout 500 ms,
    // two concurrency slots, responder listening only on 9001: the
    // failure set is {9000, 9002}, size 2.
    let range = PortRange::new(9000, 9002).unwrap();
    let outcomes = vec![fail(), ok(), fail()];
    let failures = run_schedule(range, 2, &outcomes);
    assert_eq!(failures.len(), 2);
    assert!(failures.contains(&9000));
    assert!(failures.contains(&9002));
    assert!(!failures.contains(&9001));
}

#[test]
fn responder_listening_nowhere() {
    // Same sweep with no responder at all: every port fails.
    let range = PortRange::new(9000, 9002).unwrap();
    let outcomes = vec![fail(), fail(), fail()];
    let failures = run_schedule(range, 2, &outcomes);
    assert_eq!(failures.len(), 3);
    assert!(failures.contains(&9000));
    assert!(failures.contains(&9001));
    assert!(failures.contains(&9002));
}

#[test]
fn fully_reachable_range_gives_empty_set() {
    let range = PortRange::new(9000, 9002).unwrap();
    let outcomes = vec![ok(), ok(), ok()];
    let failures = run_schedule(range, 2, &outcomes);
    assert!(failures.is_empty());
}

#[test]
fn rerun_against_unchanged_target_is_idempotent() {
    let range = PortRange::new(4000, 4009).unwrap();
    let outcomes: Vec<ProbeOutcome> = (0..10).map(|_| ok()).collect();
    let first = run_schedule(range, 3, &outcomes);
    let second = run_schedule(range, 3, &outcomes);
    assert!(first.is_empty());
    assert_eq!(first, second);
}

#[test]
fn single_port_range() {
    let range = PortRange::new(7000, 7000).unwrap();
    assert_eq!(run_schedule(range, 2, &vec![ok()]).len(), 0);
    let failures = run_schedule(range, 2, &vec![fail()]);
    assert_eq!(failures, vec![7000]);
}

#[test]
fn failure_set_size_is_bounded_by_range_size() {
    let range = PortRange::new(100, 104).unwrap();
    for pattern in 0..32u32 {
        let outcomes: Vec<ProbeOutcome> = (0..5)
            .map(|i| if pattern & (1 << i) != 0 { fail() } else { ok() })
            .collect();
        let failures = run_schedule(range, 1, &outcomes);
        assert!(failures.len() <= 5);
        assert_eq!(failures.len(), pattern.count_ones() as usize);
    }
}

#[test]
fn admission_control_caps_active_probes() {
    let range = PortRange::new(1000, 1009).unwrap();
    let mut s = Scheduler::new(range, 2);
    let a = s.try_admit();
    let b = s.try_admit();
    assert_eq!(a, Some(1000));
    assert_eq!(b, Some(1001));
    // Admission control is full: nothing more starts until a probe finishes.
    assert_eq!(s.try_admit(), None);
    assert_eq!(s.active_count(), 2);
    assert!(s.record_completion(1000, ok()));
    assert_eq!(s.active_count(), 1);
    assert_eq!(s.try_admit(), Some(1002));
    assert_eq!(s.active_count(), 2);
}

#[test]
fn completion_of_unknown_port_changes_nothing() {
    let range = PortRange::new(1000, 1009).unwrap();
    let mut s = Scheduler::new(range, 2);
    s.try_admit();
    assert!(!s.record_completion(5555, fail()));
    assert!(!s.record_completion(1001, fail()));
    assert_eq!(s.active_count(), 1);
    assert_eq!(s.into_failures(), Vec::<u16>::new());
}

#[test]
fn out_of_order_completion() {
    let range = PortRange::new(2000, 2002).unwrap();
    let mut s = Scheduler::new(range, 3);
    assert_eq!(s.try_admit(), Some(2000));
    assert_eq!(s.try_admit(), Some(2001));
    assert_eq!(s.try_admit(), Some(2002));
    assert!(s.record_completion(2002, fail()));
    assert!(s.record_completion(2000, fail()));
    assert!(s.record_completion(2001, ok()));
    assert!(s.is_complete());
    let failures = s.into_failures();
    assert_eq!(failures.len(), 2);
    assert!(failures.contains(&2000));
    assert!(failures.contains(&2002));
}

#[test]
fn double_completion_is_not_counted() {
    let range = PortRange::new(3000, 3001).unwrap();
    let mut s = Scheduler::new(range, 2);
    s.try_admit();
    s.try_admit();
    assert!(s.record_completion(3000, fail()));
    assert!(!s.record_completion(3000, fail()));
    assert!(s.record_completion(3001, ok()));
    let failures = s.into_failures();
    assert_eq!(failures, vec![3000]);
}

#[test]
fn parameter_validation() {
    assert!(valid_params(b"ping", 500, 2));
    assert!(!valid_params(b"", 500, 2));
    assert!(!valid_params(b"ping", 0, 2));
    assert!(!valid_params(b"ping", 500, 0));
    let long = [0u8; 128];
    assert!(valid_params(&long, 1, 1));
    let too_long = [0u8; 129];
    assert!(!valid_params(&too_long, 1, 1));
}
