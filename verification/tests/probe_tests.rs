use check_port::probe::{
    probe_run, probe_step, FailureReason, ProbeEvent, ProbeOutcome, ProbePhase,
};

#[test]
fn successful_exchange() {
    let events = vec![ProbeEvent::BindOk, ProbeEvent::SendOk, ProbeEvent::RecvOk];
    assert_eq!(probe_run(&events), ProbePhase::Done(ProbeOutcome::Success));
}

#[test]
fn bind_failure() {
    let events = vec![ProbeEvent::BindFailed];
    assert_eq!(
        probe_run(&events),
        ProbePhase::Done(ProbeOutcome::Failure(FailureReason::BindError))
    );
}

#[test]
fn send_failure() {
    let events = vec![ProbeEvent::BindOk, ProbeEvent::SendFailed];
    assert_eq!(
        probe_run(&events),
        ProbePhase::Done(ProbeOutcome::Failure(FailureReason::SendError))
    );
}

#[test]
fn recv_failure() {
    let events = vec![ProbeEvent::BindOk, ProbeEvent::SendOk, ProbeEvent::RecvFailed];
    assert_eq!(
        probe_run(&events),
        ProbePhase::Done(ProbeOutcome::Failure(FailureReason::RecvError))
    );
}

#[test]
fn late_reply_after_timeout_stays_a_timeout() {
    // The responder answers only after the timeout has elapsed: the probe
    // is recorded as a Timeout failure even though a reply arrived.
    let events = vec![
        ProbeEvent::BindOk,
        ProbeEvent::SendOk,
        ProbeEvent::TimedOut,
        ProbeEvent::RecvOk,
    ];
    assert_eq!(
        probe_run(&events),
        ProbePhase::Done(ProbeOutcome::Failure(FailureReason::Timeout))
    );
}

#[test]
fn timeout_during_any_phase() {
    for prefix in [
        vec![],
        vec![ProbeEvent::BindOk],
        vec![ProbeEvent::BindOk, ProbeEvent::SendOk],
    ] {
        let mut events = prefix.clone();
        events.push(ProbeEvent::TimedOut);
        assert_eq!(
            probe_run(&events),
            ProbePhase::Done(ProbeOutcome::Failure(FailureReason::Timeout))
        );
    }
}

#[test]
fn any_datagram_counts_as_success() {
    // The worker accepts any received datagram without comparing its
    // content against the token it sent: RecvOk alone decides.
    let phase = probe_step(ProbePhase::Receiving, ProbeEvent::RecvOk);
    assert_eq!(phase, ProbePhase::Done(ProbeOutcome::Success));
}

#[test]
fn finished_probe_ignores_events() {
    let done = ProbePhase::Done(ProbeOutcome::Success);
    for e in [
        ProbeEvent::BindOk,
        ProbeEvent::BindFailed,
        ProbeEvent::SendOk,
        ProbeEvent::SendFailed,
        ProbeEvent::RecvOk,
        ProbeEvent::RecvFailed,
        ProbeEvent::TimedOut,
    ] {
        assert_eq!(probe_step(done, e), done);
    }
}

#[test]
fn outcome_classification() {
    assert!(!ProbeOutcome::Success.is_failure());
    assert!(ProbeOutcome::Failure(FailureReason::Timeout).is_failure());
    assert!(ProbeOutcome::Failure(FailureReason::BindError).is_failure());
}
