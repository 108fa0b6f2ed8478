//! The echo responder's reply decision.
//!
//! The responder receives one datagram at a time and either echoes it back
//! to the sender or ignores it. It replies exactly when the datagram's bytes
//! equal the configured token, byte for byte; anything else — a wrong token,
//! or a payload that is not even text — is logged by the caller and skipped,
//! and the responder keeps listening.

use vstd::prelude::*;

verus! {

/// What the responder does with one received datagram.
#[derive(Clone, Copy, PartialEq, Eq, Structural, Debug)]
pub enum ResponderAction {
    /// Send the same bytes back to the sender.
    Reply,
    /// Do not answer; keep listening.
    Ignore,
}

/// Decides the responder's action: reply exactly when the received bytes
/// equal the configured token.
pub fn responder_decide(data: &[u8], token: &[u8]) -> (r: ResponderAction)
    ensures
        r == ResponderAction::Reply <==> data@ == token@,
        r == ResponderAction::Reply || r == ResponderAction::Ignore,
{
    if data.len() != token.len() {
        proof {
            assert(data@ != token@);
        }
        return ResponderAction::Ignore;
    }
    let n = data.len();
    let mut i: usize = 0;
    while i < n
        invariant
            n == data@.len() == token@.len(),
            i <= n,
            forall|j: int| 0 <= j < i ==> data@[j] == token@[j],
        decreases n - i,
    {
        if data[i] != token[i] {
            return ResponderAction::Ignore;
        }
        i = i + 1;
    }
    proof {
        assert(data@ =~= token@);
    }
    ResponderAction::Reply
}

} // verus!
