//! Turning a raw line into a candidate pass event.
//!
//! The sensor speaks a one-token protocol: a line whose trimmed text is the
//! single letter `P` announces a crossing. Everything else — noise, partial
//! reads, unrelated telemetry, empty idle lines — produces nothing and raises
//! nothing. The candidate's timestamp is the moment of recognition, supplied
//! by the caller's clock.

use vstd::prelude::*;
use crate::event::{PassEvent, MAX_TS_MS};

verus! {

/// ASCII whitespace as the transport produces it: space, tab, CR, LF.
pub open spec fn is_ws(b: u8) -> bool {
    b == 32 || b == 9 || b == 10 || b == 13
}

pub open spec fn trim_front(s: Seq<u8>) -> Seq<u8>
    decreases s.len(),
{
    if s.len() > 0 && is_ws(s[0]) {
        trim_front(s.skip(1))
    } else {
        s
    }
}

pub open spec fn trim_back(s: Seq<u8>) -> Seq<u8>
    decreases s.len(),
{
    if s.len() > 0 && is_ws(s[s.len() - 1]) {
        trim_back(s.take(s.len() - 1))
    } else {
        s
    }
}

/// The line with leading and trailing ASCII whitespace removed.
pub open spec fn trimmed(s: Seq<u8>) -> Seq<u8> {
    trim_back(trim_front(s))
}

/// Whether a raw line announces a crossing: its trimmed text is exactly `P`.
pub open spec fn is_pass_token(line: Seq<u8>) -> bool {
    trimmed(line) == seq![80u8]
}

/// Recognize a raw line. Exactly the pass token yields a candidate event
/// carrying the caller's clock reading; any other line yields nothing.
pub fn normalize(line: &Vec<u8>, now_ms: u64) -> (r: Option<PassEvent>)
    requires
        now_ms <= MAX_TS_MS,
    ensures
        r is Some <==> is_pass_token(line@),
        r is Some ==> {
            &&& r.unwrap()@.ts_ms == now_ms
            &&& r.unwrap()@.device is None
            &&& r.unwrap().wf()
        },
{
    let s = line;
    let len = s.len();
    let mut lo: usize = 0;
    proof {
        assert(s@.skip(0) =~= s@);
    }
    while lo < len && (s[lo] == 32 || s[lo] == 9 || s[lo] == 10 || s[lo] == 13)
        invariant
            lo <= len,
            len == s@.len(),
            trim_front(s@) == trim_front(s@.skip(lo as int)),
        decreases len - lo,
    {
        proof {
            assert(s@.skip(lo as int)[0] == s@[lo as int]);
            assert(s@.skip(lo as int).skip(1) =~= s@.skip(lo + 1));
        }
        lo = lo + 1;
    }
    proof {
        assert(trim_front(s@.skip(lo as int)) == s@.skip(lo as int));
        assert(s@.skip(lo as int) =~= s@.subrange(lo as int, len as int));
    }
    let mut hi: usize = len;
    while hi > lo && (s[hi - 1] == 32 || s[hi - 1] == 9 || s[hi - 1] == 10 || s[hi - 1] == 13)
        invariant
            lo <= hi <= len,
            len == s@.len(),
            trim_back(s@.subrange(lo as int, len as int)) == trim_back(
                s@.subrange(lo as int, hi as int),
            ),
        decreases hi,
    {
        proof {
            let t = s@.subrange(lo as int, hi as int);
            assert(t[t.len() - 1] == s@[hi - 1]);
            assert(t.take(t.len() - 1) =~= s@.subrange(lo as int, hi - 1));
        }
        hi = hi - 1;
    }
    proof {
        let t = s@.subrange(lo as int, hi as int);
        if t.len() > 0 {
            assert(t[t.len() - 1] == s@[hi - 1]);
        }
        assert(trim_back(t) == t);
        assert(trimmed(s@) == s@.subrange(lo as int, hi as int));
    }
    if hi - lo == 1 && s[lo] == 80 {
        proof {
            assert(s@.subrange(lo as int, hi as int) =~= seq![80u8]);
        }
        Option::Some(PassEvent::new(now_ms, Option::None))
    } else {
        proof {
            let t = s@.subrange(lo as int, hi as int);
            if t == seq![80u8] {
                assert(t.len() == 1);
                assert(t[0] == 80);
                assert(s@[lo as int] == 80);
            }
        }
        Option::None
    }
}

} // verus!
