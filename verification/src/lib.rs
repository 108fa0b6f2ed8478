//! Verified core of a UDP port reachability checker.
//!
//! The library models the bounded-fanout probing engine: a port range to
//! sweep, a per-probe challenge/response state machine, an admission-controlled
//! scheduler that aggregates the set of ports that failed, and the echo
//! responder's reply decision. The surrounding process (sockets, timers,
//! command-line handling) drives these models from outside the library.

pub mod ports;
pub mod probe;
pub mod responder;
pub mod sched;

use vstd::prelude::*;

verus! {

} // verus!
