//! Port numbers and inclusive port ranges.

use vstd::prelude::*;
use vstd::string::StrSliceExecFns;

verus! {

/// Largest number of bytes a challenge token may occupy.
pub const MAX_TOKEN_LEN: usize = 128;

/// `c` is a decimal digit.
pub open spec fn is_digit(c: char) -> bool {
    48 <= c as int <= 57
}

/// The value of a decimal digit.
pub open spec fn digit_val(c: char) -> int {
    c as int - 48
}

/// The digits of a port literal: an optional leading `+` sign dropped.
pub open spec fn spec_digits(s: Seq<char>) -> Seq<char> {
    if s.len() > 0 && s[0] == '+' {
        s.drop_first()
    } else {
        s
    }
}

/// `s` is a decimal numeral: one or more digits.
pub open spec fn is_numeral(s: Seq<char>) -> bool {
    s.len() > 0 && forall|i: int| 0 <= i < s.len() ==> is_digit(#[trigger] s[i])
}

/// The value a decimal numeral denotes.
pub open spec fn numeral_val(s: Seq<char>) -> int
    decreases s.len(),
{
    if s.len() == 0 {
        0
    } else {
        numeral_val(s.drop_last()) * 10 + digit_val(s.last())
    }
}

/// `s` spells a valid port: a numeral, after an optional `+` sign, whose
/// value lies in `[1, 65535]`. Leading zeros are allowed.
pub open spec fn spec_is_port(s: Seq<char>) -> bool {
    is_numeral(spec_digits(s)) && 1 <= numeral_val(spec_digits(s)) <= 65535
}

/// An inclusive range of UDP ports, `from <= to`, both in `[1, 65535]`.
#[derive(Clone, Copy, PartialEq, Eq, Structural, Debug)]
pub struct PortRange {
    pub from: u16,
    pub to: u16,
}

impl PortRange {
    /// The range is well formed: non-empty and within the valid port space.
    pub open spec fn wf(self) -> bool {
        1 <= self.from && self.from <= self.to
    }

    /// Number of ports in the range.
    pub open spec fn size(self) -> int {
        self.to - self.from + 1
    }

    /// Whether port `p` lies in the range.
    pub open spec fn spec_contains(self, p: int) -> bool {
        self.from <= p <= self.to
    }

    /// Builds a range when `1 <= from <= to`, and refuses anything else.
    pub fn new(from: u16, to: u16) -> (r: Option<PortRange>)
        ensures
            match r {
                Some(pr) => pr.from == from && pr.to == to && pr.wf(),
                None => !(1 <= from && from <= to),
            },
    {
        if 1 <= from && from <= to {
            Some(PortRange { from, to })
        } else {
            None
        }
    }

    /// Executable test of membership in the range.
    pub fn contains(&self, p: u16) -> (r: bool)
        ensures
            r == self.spec_contains(p as int),
    {
        self.from <= p && p <= self.to
    }
}

/// Extending a numeral by one digit multiplies its value by ten and adds
/// the digit.
proof fn lemma_numeral_push(s: Seq<char>, c: char)
    ensures
        numeral_val(s.push(c)) == numeral_val(s) * 10 + digit_val(c),
{
    assert(s.push(c).drop_last() =~= s);
    assert(s.push(c).last() == c);
}

/// Reads a port number out of its decimal spelling: `Ok` exactly on a
/// numeral whose value is in `[1, 65535]`, and otherwise an error that
/// tells a malformed number from an out-of-range one.
pub fn parse_port(s: &str) -> (r: Result<u16, String>)
    ensures
        match r {
            Ok(p) => spec_is_port(s@) && p as int == numeral_val(spec_digits(s@)) && 1 <= p
                <= 65535,
            Err(e) => !spec_is_port(s@) && e@ == (if is_numeral(spec_digits(s@)) {
                "port not in valid range 1-65535"@
            } else {
                "not a valid port number"@
            }),
        },
{
    let n = s.unicode_len();
    let ghost d = spec_digits(s@);
    let mut i: usize = 0;
    if n > 0 && s.get_char(0) == '+' {
        i = 1;
        proof {
            assert(d =~= s@.skip(1));
        }
    } else {
        proof {
            assert(d =~= s@.skip(0));
        }
    }
    let start = i;
    if i >= n {
        proof {
            assert(!is_numeral(d));
        }
        return Err("not a valid port number".to_owned());
    }
    let mut acc: u32 = 0;
    while i < n
        invariant
            n == s@.len(),
            d == spec_digits(s@),
            d == s@.skip(start as int),
            start <= i <= n,
            start < n,
            start <= 1,
            forall|j: int| start <= j < i ==> is_digit(#[trigger] s@[j]),
            numeral_val(s@.subrange(start as int, i as int)) <= 65535 ==> acc == numeral_val(
                s@.subrange(start as int, i as int),
            ),
            numeral_val(s@.subrange(start as int, i as int)) > 65535 ==> 65535 < acc <= 655359,
        decreases n - i,
    {
        let c = s.get_char(i);
        let code = c as u32;
        if !(48 <= code && code <= 57) {
            proof {
                assert(d[i - start] == s@[i as int]);
                assert(!is_numeral(d));
            }
            return Err("not a valid port number".to_owned());
        }
        let ghost prefix = s@.subrange(start as int, i as int);
        proof {
            lemma_numeral_push(prefix, s@[i as int]);
            assert(s@.subrange(start as int, i + 1 as int) =~= prefix.push(s@[i as int]));
        }
        if acc > 65535 {
            acc = 65536;
        } else {
            acc = acc * 10 + (code - 48);
        }
        i = i + 1;
    }
    proof {
        assert(s@.subrange(start as int, n as int) =~= d);
        assert(is_numeral(d)) by {
            assert(d.len() == n - start > 0);
            assert(forall|k: int| 0 <= k < d.len() ==> #[trigger] d[k] == s@[k + start]);
        }
    }
    if 1 <= acc && acc <= 65535 {
        Ok(acc as u16)
    } else {
        Err("port not in valid range 1-65535".to_owned())
    }
}

} // verus!
