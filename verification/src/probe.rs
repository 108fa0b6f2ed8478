//! One probe's challenge/response state machine.
//!
//! A probe walks through bind, send and receive. Each step of the outside
//! world is reported here as an event, and the machine classifies the
//! exchange as a success or as one of four failures. The wrapping timeout is
//! itself an event: it ends any unfinished probe as `Timeout`, and nothing
//! that arrives later can change a finished probe's outcome.

use vstd::prelude::*;

verus! {

/// Why a probe failed.
#[derive(Clone, Copy, PartialEq, Eq, Structural, Debug)]
pub enum FailureReason {
    BindError,
    SendError,
    RecvError,
    Timeout,
}

/// The classification of one finished probe.
#[derive(Clone, Copy, PartialEq, Eq, Structural, Debug)]
pub enum ProbeOutcome {
    Success,
    Failure(FailureReason),
}

impl ProbeOutcome {
    /// Whether this outcome records the port as failed.
    pub open spec fn spec_is_failure(self) -> bool {
        self is Failure
    }

    /// Executable test of `spec_is_failure`.
    pub fn is_failure(&self) -> (r: bool)
        ensures
            r == self.spec_is_failure(),
    {
        match self {
            ProbeOutcome::Success => false,
            ProbeOutcome::Failure(_) => true,
        }
    }
}

/// Where a probe stands between events.
#[derive(Clone, Copy, PartialEq, Eq, Structural, Debug)]
pub enum ProbePhase {
    /// Waiting for the local endpoint to bind.
    Binding,
    /// Bound; waiting for the challenge to be sent.
    Sending,
    /// Sent; waiting for a response datagram.
    Receiving,
    /// Finished, with its outcome.
    Done(ProbeOutcome),
}

/// One thing the outside world reports to a probe.
#[derive(Clone, Copy, PartialEq, Eq, Structural, Debug)]
pub enum ProbeEvent {
    BindOk,
    BindFailed,
    SendOk,
    SendFailed,
    /// A response datagram arrived. Any datagram counts as success: the
    /// worker does not compare the response against the token it sent.
    RecvOk,
    RecvFailed,
    /// The wrapping timeout elapsed before the probe finished.
    TimedOut,
}

/// How a probe advances: a finished probe ignores every further event, the
/// timeout finishes any unfinished probe as `Timeout`, and each step's
/// failure carries its own reason. An event that does not belong to the
/// current phase changes nothing.
pub open spec fn spec_probe_step(phase: ProbePhase, event: ProbeEvent) -> ProbePhase {
    match phase {
        ProbePhase::Done(_) => phase,
        _ => match event {
            ProbeEvent::TimedOut => ProbePhase::Done(
                ProbeOutcome::Failure(FailureReason::Timeout),
            ),
            _ => match (phase, event) {
                (ProbePhase::Binding, ProbeEvent::BindOk) => ProbePhase::Sending,
                (ProbePhase::Binding, ProbeEvent::BindFailed) => ProbePhase::Done(
                    ProbeOutcome::Failure(FailureReason::BindError),
                ),
                (ProbePhase::Sending, ProbeEvent::SendOk) => ProbePhase::Receiving,
                (ProbePhase::Sending, ProbeEvent::SendFailed) => ProbePhase::Done(
                    ProbeOutcome::Failure(FailureReason::SendError),
                ),
                (ProbePhase::Receiving, ProbeEvent::RecvOk) => ProbePhase::Done(
                    ProbeOutcome::Success,
                ),
                (ProbePhase::Receiving, ProbeEvent::RecvFailed) => ProbePhase::Done(
                    ProbeOutcome::Failure(FailureReason::RecvError),
                ),
                _ => phase,
            },
        },
    }
}

/// Advances a probe by one event.
pub fn probe_step(phase: ProbePhase, event: ProbeEvent) -> (r: ProbePhase)
    ensures
        r == spec_probe_step(phase, event),
{
    match phase {
        ProbePhase::Done(_) => phase,
        _ => match event {
            ProbeEvent::TimedOut => ProbePhase::Done(
                ProbeOutcome::Failure(FailureReason::Timeout),
            ),
            _ => match (phase, event) {
                (ProbePhase::Binding, ProbeEvent::BindOk) => ProbePhase::Sending,
                (ProbePhase::Binding, ProbeEvent::BindFailed) => ProbePhase::Done(
                    ProbeOutcome::Failure(FailureReason::BindError),
                ),
                (ProbePhase::Sending, ProbeEvent::SendOk) => ProbePhase::Receiving,
                (ProbePhase::Sending, ProbeEvent::SendFailed) => ProbePhase::Done(
                    ProbeOutcome::Failure(FailureReason::SendError),
                ),
                (ProbePhase::Receiving, ProbeEvent::RecvOk) => ProbePhase::Done(
                    ProbeOutcome::Success,
                ),
                (ProbePhase::Receiving, ProbeEvent::RecvFailed) => ProbePhase::Done(
                    ProbeOutcome::Failure(FailureReason::RecvError),
                ),
                _ => phase,
            },
        },
    }
}

/// The phase a probe reaches after a whole sequence of events, starting
/// from `phase`.
pub open spec fn spec_probe_run(phase: ProbePhase, events: Seq<ProbeEvent>) -> ProbePhase
    decreases events.len(),
{
    if events.len() == 0 {
        phase
    } else {
        spec_probe_run(spec_probe_step(phase, events[0]), events.drop_first())
    }
}

/// Runs a probe over a recorded sequence of events, from the start.
pub fn probe_run(events: &Vec<ProbeEvent>) -> (r: ProbePhase)
    ensures
        r == spec_probe_run(ProbePhase::Binding, events@),
{
    let mut phase = ProbePhase::Binding;
    let mut i: usize = 0;
    proof {
        assert(events@.skip(0) =~= events@);
    }
    while i < events.len()
        invariant
            i <= events@.len(),
            spec_probe_run(phase, events@.skip(i as int)) == spec_probe_run(
                ProbePhase::Binding,
                events@,
            ),
        decreases events@.len() - i,
    {
        proof {
            assert(events@.skip(i as int).drop_first() =~= events@.skip(i + 1));
            assert(events@.skip(i as int)[0] == events@[i as int]);
        }
        phase = probe_step(phase, events[i]);
        i = i + 1;
    }
    proof {
        assert(events@.skip(i as int) =~= Seq::<ProbeEvent>::empty());
    }
    phase
}

/// A finished probe stays finished: no later event changes its outcome.
pub proof fn lemma_done_is_final(outcome: ProbeOutcome, events: Seq<ProbeEvent>)
    ensures
        spec_probe_run(ProbePhase::Done(outcome), events) == ProbePhase::Done(outcome),
    decreases events.len(),
{
    if events.len() > 0 {
        lemma_done_is_final(outcome, events.drop_first());
    }
}

/// A probe whose timeout elapses before it finishes is recorded as a
/// `Timeout` failure, even if a reply (or anything else) arrives afterwards.
pub proof fn lemma_timeout_preempts_late_reply(phase: ProbePhase, later: Seq<ProbeEvent>)
    requires
        !(phase is Done),
    ensures
        spec_probe_run(spec_probe_step(phase, ProbeEvent::TimedOut), later) == ProbePhase::Done(
            ProbeOutcome::Failure(FailureReason::Timeout),
        ),
{
    lemma_done_is_final(ProbeOutcome::Failure(FailureReason::Timeout), later);
}

} // verus!
