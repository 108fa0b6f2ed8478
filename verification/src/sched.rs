//! The bounded-fanout probe scheduler.
//!
//! A `Scheduler` owns one sweep over a port range. Ports pass one by one
//! through admission control that never lets more than `max_concurrency`
//! probes be in flight at once; each probe's outcome is reported back
//! exactly once, and the ports whose probes failed are aggregated into the
//! failure set. The surrounding process performs the actual network
//! exchanges; the scheduler decides who may start, records who finished,
//! and guarantees that no port is lost or double-counted.

use vstd::prelude::*;

use crate::ports::MAX_TOKEN_LEN;
use crate::ports::PortRange;
use crate::probe::ProbeOutcome;

verus! {

/// The parameters a run accepts: a non-empty token of at most
/// `MAX_TOKEN_LEN` bytes, a positive per-probe timeout, and room for at
/// least one probe past admission control.
pub open spec fn spec_valid_params(token: Seq<u8>, timeout_ms: u64, max_concurrency: usize) -> bool {
    &&& 0 < token.len() <= MAX_TOKEN_LEN
    &&& timeout_ms > 0
    &&& max_concurrency >= 1
}

/// Executable test of `spec_valid_params`.
pub fn valid_params(token: &[u8], timeout_ms: u64, max_concurrency: usize) -> (r: bool)
    ensures
        r == spec_valid_params(token@, timeout_ms, max_concurrency),
{
    0 < token.len() && token.len() <= MAX_TOKEN_LEN && timeout_ms > 0 && max_concurrency >= 1
}

/// The state of one sweep over a port range.
pub struct Scheduler {
    /// The range being swept.
    pub range: PortRange,
    /// Capacity of admission control: the concurrency cap.
    pub max_concurrency: usize,
    /// The next port not yet admitted; runs from `range.from` to
    /// `range.to + 1`.
    pub next: u32,
    /// Ports past admission control whose outcome has not been reported.
    pub in_flight: Vec<u16>,
    /// Ports recorded as failed, each at most once.
    pub failures: Vec<u16>,
    /// For every port whose probe finished, whether it failed.
    pub outcomes: Ghost<Map<int, bool>>,
}

impl Scheduler {
    /// Port `p` has been handed out by admission control.
    pub open spec fn admitted(self, p: int) -> bool {
        self.range.from <= p < self.next
    }

    /// The scheduler's invariant: admission control never exceeds its capacity, the
    /// admitted ports split exactly into in-flight and finished ones, and
    /// the failure set holds exactly the finished ports that failed, each
    /// once.
    pub open spec fn wf(self) -> bool {
        &&& self.range.wf()
        &&& self.max_concurrency >= 1
        &&& self.range.from <= self.next <= self.range.to + 1
        &&& self.in_flight@.len() <= self.max_concurrency
        &&& self.in_flight@.no_duplicates()
        &&& forall|j: int|
            0 <= j < self.in_flight@.len() ==> self.admitted(#[trigger] self.in_flight@[j] as int)
        &&& forall|p: int|
            #[trigger] self.outcomes@.contains_key(p) ==> self.admitted(p)
                && !self.in_flight@.contains(p as u16)
        &&& forall|p: int|
            self.admitted(p) && !(#[trigger] self.outcomes@.contains_key(p))
                ==> self.in_flight@.contains(p as u16)
        &&& self.failures@.no_duplicates()
        &&& forall|k: int|
            0 <= k < self.failures@.len() ==> self.outcomes@.contains_key(
                #[trigger] self.failures@[k] as int,
            ) && self.outcomes@[self.failures@[k] as int]
        &&& forall|p: int|
            #[trigger] self.outcomes@.contains_key(p) && self.outcomes@[p]
                ==> self.failures@.contains(p as u16)
        &&& self.failures@.len() + self.in_flight@.len() <= self.next - self.range.from
    }

    /// Every port of the range has a recorded outcome and none is still in
    /// flight.
    pub open spec fn spec_complete(self) -> bool {
        self.next == self.range.to + 1 && self.in_flight@.len() == 0
    }

    /// Admission control can hand out another port: ports remain and a slot is free.
    pub open spec fn can_admit(self) -> bool {
        self.next <= self.range.to && self.in_flight@.len() < self.max_concurrency
    }

    /// A fresh sweep: nothing admitted, nothing in flight, no failures.
    pub fn new(range: PortRange, max_concurrency: usize) -> (s: Scheduler)
        requires
            range.wf(),
            max_concurrency >= 1,
        ensures
            s.wf(),
            s.range == range,
            s.max_concurrency == max_concurrency,
            s.next == range.from,
            s.in_flight@.len() == 0,
            s.failures@.len() == 0,
            s.outcomes@ =~= Map::<int, bool>::empty(),
    {
        Scheduler {
            range,
            max_concurrency,
            next: range.from as u32,
            in_flight: Vec::new(),
            failures: Vec::new(),
            outcomes: Ghost(Map::empty()),
        }
    }

    /// Asks admission control for the next port. Hands out the lowest
    /// unadmitted port when ports remain and fewer than `max_concurrency`
    /// probes are in flight; otherwise changes nothing.
    pub fn try_admit(&mut self) -> (r: Option<u16>)
        requires
            old(self).wf(),
        ensures
            final(self).wf(),
            final(self).range == old(self).range,
            final(self).max_concurrency == old(self).max_concurrency,
            final(self).failures@ == old(self).failures@,
            final(self).outcomes@ == old(self).outcomes@,
            old(self).can_admit() ==> {
                &&& r == Some(old(self).next as u16)
                &&& final(self).next == old(self).next + 1
                &&& final(self).in_flight@ == old(self).in_flight@.push(old(self).next as u16)
            },
            !old(self).can_admit() ==> r is None && *final(self) == *old(self),
    {
        if self.next <= self.range.to as u32 && self.in_flight.len() < self.max_concurrency {
            let port = self.next as u16;
            proof {
                assert(!self.in_flight@.contains(port));
            }
            self.in_flight.push(port);
            self.next = self.next + 1;
            proof {
                let s = old(self).in_flight@;
                assert forall|p: u16| #[trigger] self.in_flight@.contains(p) implies s.contains(p)
                    || p == port by {
                    let i = choose|i: int| 0 <= i < self.in_flight@.len() && self.in_flight@[i] == p;
                    if i < s.len() {
                        assert(s[i] == p);
                    }
                }
                assert forall|p: u16| s.contains(p) implies self.in_flight@.contains(p) by {
                    let i = choose|i: int| 0 <= i < s.len() && s[i] == p;
                    assert(self.in_flight@[i] == p);
                }
                assert(self.in_flight@.contains(port)) by {
                    assert(self.in_flight@[s.len() as int] == port);
                }
            }
            Some(port)
        } else {
            None
        }
    }

    /// Records the finished probe of `port`. Returns whether `port` was in
    /// flight; when it was, the port leaves the in-flight set, its outcome
    /// is recorded, and a failed outcome appends the port to the failure
    /// set. A port that was not in flight changes nothing.
    pub fn record_completion(&mut self, port: u16, outcome: ProbeOutcome) -> (r: bool)
        requires
            old(self).wf(),
        ensures
            final(self).wf(),
            final(self).range == old(self).range,
            final(self).max_concurrency == old(self).max_concurrency,
            final(self).next == old(self).next,
            r == old(self).in_flight@.contains(port),
            r ==> {
                &&& final(self).outcomes@ == old(self).outcomes@.insert(
                    port as int,
                    outcome.spec_is_failure(),
                )
                &&& final(self).in_flight@.len() == old(self).in_flight@.len() - 1
                &&& !final(self).in_flight@.contains(port)
                &&& forall|p: u16|
                    p != port ==> (final(self).in_flight@.contains(p) == old(
                        self,
                    ).in_flight@.contains(p))
                &&& final(self).failures@ == if outcome.spec_is_failure() {
                    old(self).failures@.push(port)
                } else {
                    old(self).failures@
                }
            },
            !r ==> *final(self) == *old(self),
    {
        let n = self.in_flight.len();
        let mut i: usize = 0;
        while i < n
            invariant
                *self == *old(self),
                old(self).wf(),
                n == self.in_flight@.len(),
                i <= n,
                forall|j: int| 0 <= j < i ==> self.in_flight@[j] != port,
            decreases n - i,
        {
            if self.in_flight[i] == port {
                proof {
                    lemma_remove_at(self.in_flight@, i as int);
                    assert(self.in_flight@.contains(port)) by {
                        assert(self.in_flight@[i as int] == port);
                    }
                    assert(!self.failures@.contains(port)) by {
                        if self.failures@.contains(port) {
                            let k = choose|k: int|
                                0 <= k < self.failures@.len() && self.failures@[k] == port;
                            assert(old(self).outcomes@.contains_key(port as int));
                        }
                    }
                }
                self.in_flight.remove(i);
                let failed = outcome.is_failure();
                if failed {
                    proof {
                        lemma_push_keeps_distinct(self.failures@, port);
                        lemma_push_contains(self.failures@, port);
                    }
                    self.failures.push(port);
                }
                self.outcomes = Ghost(
                    self.outcomes@.insert(port as int, outcome.spec_is_failure()),
                );
                proof {
                    let prev = *old(self);
                    let cur = *self;
                    assert(prev.in_flight@[i as int] == port);
                    assert(prev.admitted(port as int));
                    assert forall|j: int|
                        0 <= j < cur.in_flight@.len() implies cur.admitted(
                        #[trigger] cur.in_flight@[j] as int,
                    ) by {
                        let p = cur.in_flight@[j];
                        assert(cur.in_flight@.contains(p));
                        assert(prev.in_flight@.contains(p));
                        let j2 = choose|j2: int|
                            0 <= j2 < prev.in_flight@.len() && prev.in_flight@[j2] == p;
                        assert(prev.admitted(prev.in_flight@[j2] as int));
                    }
                    assert forall|p: int| #[trigger]
                        cur.outcomes@.contains_key(p) implies cur.admitted(p)
                        && !cur.in_flight@.contains(p as u16) by {
                        if p == port as int {
                            assert(!cur.in_flight@.contains(port));
                        } else {
                            assert(prev.outcomes@.contains_key(p));
                            assert(p as u16 != port);
                        }
                    }
                    assert forall|p: int|
                        cur.admitted(p) && !(#[trigger] cur.outcomes@.contains_key(p))
                            implies cur.in_flight@.contains(p as u16) by {
                        assert(prev.in_flight@.contains(p as u16));
                        assert(p as u16 != port);
                    }
                    assert forall|k: int|
                        0 <= k < cur.failures@.len() implies cur.outcomes@.contains_key(
                        #[trigger] cur.failures@[k] as int,
                    ) && cur.outcomes@[cur.failures@[k] as int] by {
                        if k < prev.failures@.len() {
                            assert(cur.failures@[k] == prev.failures@[k]);
                            assert(prev.failures@[k] != port);
                        } else {
                            assert(cur.failures@[k] == port);
                        }
                    }
                    assert forall|p: int| #[trigger]
                        cur.outcomes@.contains_key(p) && cur.outcomes@[p]
                            implies cur.failures@.contains(p as u16) by {
                        if p != port as int {
                            assert(prev.failures@.contains(p as u16));
                            if prev.failures@.len() < cur.failures@.len() {
                                let k = choose|k: int|
                                    0 <= k < prev.failures@.len() && prev.failures@[k] == p as u16;
                                assert(cur.failures@[k] == p as u16);
                            }
                        }
                    }
                    assert(cur.wf());
                }
                return true;
            }
            i = i + 1;
        }
        false
    }

    /// Whether the sweep is finished: every port admitted and every
    /// outcome reported.
    pub fn is_complete(&self) -> (r: bool)
        requires
            self.wf(),
        ensures
            r == self.spec_complete(),
    {
        self.next == self.range.to as u32 + 1 && self.in_flight.len() == 0
    }

    /// How many probes are past admission control right now.
    pub fn active_count(&self) -> (r: usize)
        ensures
            r == self.in_flight@.len(),
    {
        self.in_flight.len()
    }

    /// Hands the finished sweep's failure set over.
    pub fn into_failures(self) -> (r: Vec<u16>)
        ensures
            r@ == self.failures@,
    {
        self.failures
    }
}

/// Runs one whole sweep with the probes' outcomes given up front, one per
/// port of the range in order: a port lands in the returned failure set
/// exactly when its probe's outcome was a failure.
pub fn run_schedule(range: PortRange, max_concurrency: usize, outcomes: &Vec<ProbeOutcome>) -> (r:
    Vec<u16>)
    requires
        range.wf(),
        max_concurrency >= 1,
        outcomes@.len() == range.size(),
    ensures
        r@.no_duplicates(),
        forall|p: u16|
            #[trigger] r@.contains(p) == (range.spec_contains(p as int) && outcomes@[p
                - range.from].spec_is_failure()),
{
    let mut s = Scheduler::new(range, max_concurrency);
    loop
        invariant
            s.wf(),
            s.range == range,
            s.max_concurrency == max_concurrency,
            outcomes@.len() == range.size(),
            s.in_flight@.len() == 0,
            forall|p: int| #[trigger] s.outcomes@.contains_key(p) == s.admitted(p),
            forall|p: int|
                s.admitted(p) ==> #[trigger] s.outcomes@[p] == outcomes@[p
                    - range.from].spec_is_failure(),
        ensures
            s.wf(),
            s.range == range,
            s.spec_complete(),
            forall|p: int| #[trigger] s.outcomes@.contains_key(p) == s.admitted(p),
            forall|p: int|
                s.admitted(p) ==> #[trigger] s.outcomes@[p] == outcomes@[p
                    - range.from].spec_is_failure(),
        decreases range.to + 1 - s.next,
    {
        if s.is_complete() {
            break;
        }
        match s.try_admit() {
            Some(port) => {
                proof {
                    assert(s.in_flight@[0] == port);
                    assert(s.in_flight@.contains(port));
                }
                let outcome = outcomes[(port - range.from) as usize];
                let was_in_flight = s.record_completion(port, outcome);
                proof {
                    assert(was_in_flight);
                }
            },
            None => {
                proof {
                    assert(false);
                }
            },
        }
    }
    proof {
        assert forall|p: u16| #[trigger]
            s.failures@.contains(p) implies range.spec_contains(p as int) && outcomes@[p
            - range.from].spec_is_failure() by {
            let k = choose|k: int| 0 <= k < s.failures@.len() && s.failures@[k] == p;
            assert(s.outcomes@.contains_key(p as int));
        }
        assert forall|p: u16|
            range.spec_contains(p as int) && outcomes@[p - range.from].spec_is_failure()
                implies s.failures@.contains(p) by {
            assert(s.admitted(p as int));
            assert(s.outcomes@.contains_key(p as int));
        }
    }
    s.into_failures()
}

/// However many ports of the range failed, the failure set never holds
/// fewer than none of them nor more than the whole range.
pub proof fn lemma_failure_set_bounded(s: Scheduler)
    requires
        s.wf(),
    ensures
        0 <= s.failures@.len() <= s.range.size(),
{
}

/// Admission control's guarantee: at no point are more probes past
/// it than the configured concurrency bound.
pub proof fn lemma_bounded_concurrency(s: Scheduler)
    requires
        s.wf(),
    ensures
        s.in_flight@.len() <= s.max_concurrency,
{
}

/// When every probe of a completed sweep failed — no responder was
/// reachable anywhere — the failure set holds exactly the whole range,
/// and as many ports as the range has.
pub proof fn lemma_all_failed_gives_full_range(s: Scheduler)
    requires
        s.wf(),
        s.spec_complete(),
        forall|p: int| s.range.spec_contains(p) ==> s.outcomes@[p],
    ensures
        forall|p: u16| #[trigger] s.failures@.contains(p) == s.range.spec_contains(p as int),
        s.failures@.len() == s.range.size(),
{
    assert forall|p: u16| #[trigger]
        s.failures@.contains(p) implies s.range.spec_contains(p as int) by {
        let k = choose|k: int| 0 <= k < s.failures@.len() && s.failures@[k] == p;
        assert(s.outcomes@.contains_key(p as int));
    }
    assert forall|p: u16| s.range.spec_contains(p as int) implies s.failures@.contains(p) by {
        assert(s.admitted(p as int));
        assert(!s.in_flight@.contains(p));
        assert(s.outcomes@.contains_key(p as int));
    }
    let widen = |p: u16| p as int;
    let mapped = s.failures@.map_values(widen);
    assert(vstd::relations::injective(widen)) by {
        assert forall|a: u16, b: u16| #[trigger] widen(a) == #[trigger] widen(b) implies a
            == b by {}
    }
    s.failures@.lemma_no_duplicates_injective(widen);
    mapped.unique_seq_to_set();
    assert(mapped.to_set() =~= vstd::set_lib::set_int_range(
        s.range.from as int,
        s.range.to + 1,
    )) by {
        assert forall|x: int| #[trigger]
            mapped.contains(x) implies s.range.from <= x < s.range.to + 1 by {
            let k = choose|k: int| 0 <= k < mapped.len() && mapped[k] == x;
            assert(s.failures@.contains(s.failures@[k]));
        }
        assert forall|x: int|
            s.range.from <= x < s.range.to + 1 implies #[trigger] mapped.contains(x) by {
            let p = x as u16;
            assert(p as int == x);
            assert(s.range.spec_contains(p as int));
            assert(s.failures@.contains(p));
            let k = choose|k: int| 0 <= k < s.failures@.len() && s.failures@[k] == p;
            assert(mapped[k] == x);
        }
    }
    vstd::set_lib::lemma_int_range(s.range.from as int, s.range.to + 1);
}

/// When every probe of a completed sweep succeeded — a well-configured
/// responder answered every port — the failure set is empty.
pub proof fn lemma_none_failed_gives_empty_set(s: Scheduler)
    requires
        s.wf(),
        s.spec_complete(),
        forall|p: int| s.range.spec_contains(p) ==> !s.outcomes@[p],
    ensures
        s.failures@.len() == 0,
{
    if s.failures@.len() > 0 {
        let p = s.failures@[0];
        assert(s.outcomes@.contains_key(p as int));
        assert(s.range.spec_contains(p as int));
    }
}

/// Two completed sweeps of the same range whose probes came out the same
/// way — for instance two runs against an unchanged, fully reachable
/// target — agree on the failure set.
pub proof fn lemma_same_outcomes_same_failures(s1: Scheduler, s2: Scheduler)
    requires
        s1.wf(),
        s2.wf(),
        s1.spec_complete(),
        s2.spec_complete(),
        s1.range == s2.range,
        forall|p: int| s1.range.spec_contains(p) ==> s1.outcomes@[p] == s2.outcomes@[p],
    ensures
        forall|p: u16| s1.failures@.contains(p) == s2.failures@.contains(p),
{
    assert forall|p: u16| #[trigger]
        s1.failures@.contains(p) implies s2.failures@.contains(p) by {
        let k = choose|k: int| 0 <= k < s1.failures@.len() && s1.failures@[k] == p;
        assert(s1.outcomes@.contains_key(p as int));
        assert(s1.range.spec_contains(p as int));
        assert(s2.outcomes@.contains_key(p as int));
    }
    assert forall|p: u16| #[trigger]
        s2.failures@.contains(p) implies s1.failures@.contains(p) by {
        let k = choose|k: int| 0 <= k < s2.failures@.len() && s2.failures@[k] == p;
        assert(s2.outcomes@.contains_key(p as int));
        assert(s2.range.spec_contains(p as int));
        assert(s1.outcomes@.contains_key(p as int));
    }
}

/// A completed single-port sweep behaves as any range's single element:
/// its failure set is at most that one port, present exactly when the
/// port's probe failed.
pub proof fn lemma_single_port_range(s: Scheduler)
    requires
        s.wf(),
        s.spec_complete(),
        s.range.from == s.range.to,
    ensures
        s.failures@.len() <= 1,
        s.failures@.contains(s.range.from) == s.outcomes@[s.range.from as int],
        forall|p: u16| #[trigger] s.failures@.contains(p) ==> p == s.range.from,
{
    assert forall|p: u16| #[trigger] s.failures@.contains(p) implies p == s.range.from by {
        let k = choose|k: int| 0 <= k < s.failures@.len() && s.failures@[k] == p;
        assert(s.outcomes@.contains_key(p as int));
    }
    assert(s.admitted(s.range.from as int));
    assert(!s.in_flight@.contains(s.range.from));
    assert(s.outcomes@.contains_key(s.range.from as int));
    if s.outcomes@[s.range.from as int] {
        assert(s.failures@.contains(s.range.from));
    } else {
        if s.failures@.contains(s.range.from) {
            let k = choose|k: int|
                0 <= k < s.failures@.len() && s.failures@[k] == s.range.from;
        }
    }
}

/// Removing one index from a duplicate-free sequence removes exactly that
/// element and keeps the rest.
proof fn lemma_remove_at(s: Seq<u16>, idx: int)
    requires
        0 <= idx < s.len(),
        s.no_duplicates(),
    ensures
        s.remove(idx).len() == s.len() - 1,
        s.remove(idx).no_duplicates(),
        !s.remove(idx).contains(s[idx]),
        forall|p: u16| p != s[idx] ==> (s.remove(idx).contains(p) == s.contains(p)),
{
    s.remove_ensures(idx);
    let r = s.remove(idx);
    assert forall|i: int, j: int|
        0 <= i < r.len() && 0 <= j < r.len() && i != j implies r[i] != r[j] by {
        let i2: int = if i < idx {
            i
        } else {
            i + 1
        };
        let j2: int = if j < idx {
            j
        } else {
            j + 1
        };
        assert(r[i] == s[i2]);
        assert(r[j] == s[j2]);
    }
    assert forall|p: u16| r.contains(p) implies s.contains(p) && p != s[idx] by {
        let i = choose|i: int| 0 <= i < r.len() && r[i] == p;
        if i < idx {
            assert(s[i] == p);
        } else {
            assert(s[i + 1] == p);
        }
    }
    assert forall|p: u16| p != s[idx] && s.contains(p) implies r.contains(p) by {
        let j = choose|j: int| 0 <= j < s.len() && s[j] == p;
        if j < idx {
            assert(r[j] == p);
        } else {
            assert(r[j - 1] == p);
        }
    }
}

/// Appending an element adds exactly it to the elements of a sequence.
proof fn lemma_push_contains(s: Seq<u16>, x: u16)
    ensures
        forall|p: u16| s.push(x).contains(p) == (s.contains(p) || p == x),
{
    assert forall|p: u16| #[trigger] s.push(x).contains(p) implies s.contains(p) || p == x by {
        let i = choose|i: int| 0 <= i < s.push(x).len() && s.push(x)[i] == p;
        if i < s.len() {
            assert(s[i] == p);
        }
    }
    assert forall|p: u16| s.contains(p) implies s.push(x).contains(p) by {
        let i = choose|i: int| 0 <= i < s.len() && s[i] == p;
        assert(s.push(x)[i] == p);
    }
    assert(s.push(x)[s.len() as int] == x);
    assert(s.push(x).contains(x));
}

/// Appending a fresh element keeps a sequence duplicate-free.
proof fn lemma_push_keeps_distinct(s: Seq<u16>, x: u16)
    requires
        s.no_duplicates(),
        !s.contains(x),
    ensures
        s.push(x).no_duplicates(),
{
    let r = s.push(x);
    assert forall|i: int, j: int|
        0 <= i < r.len() && 0 <= j < r.len() && i != j implies r[i] != r[j] by {
        if i < s.len() && j < s.len() {
            assert(r[i] == s[i]);
            assert(r[j] == s[j]);
        } else if i < s.len() {
            assert(r[i] == s[i]);
            assert(s.contains(s[i]));
            assert(r[j] == x);
        } else {
            assert(r[i] == x);
            assert(r[j] == s[j]);
            assert(s.contains(s[j]));
        }
    }
}

} // verus!
