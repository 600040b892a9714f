//! Decisions of the remote broker sink.
//!
//! The broker client itself — connecting, reconnecting, the wire protocol —
//! is a black box that the caller runs; this module fixes everything that has
//! a right answer: the topic names under the configured prefix, the JSON
//! payload of a pass event, the retained `UP`/`DOWN` liveness messages, and
//! how to react to each connection event. Per-event publish failures are the
//! caller's to log and drop; they never reach the ingestion pipeline.

use vstd::prelude::*;
use crate::codec::{esc_bytes, escape_into};
use crate::event::{EventModel, PassEvent};
use crate::timefmt::{rfc3339_bytes_of, format_rfc3339};

verus! {

/// The decimal digits of `n`, most significant first, empty for zero.
pub open spec fn dec_digits(n: nat) -> Seq<u8>
    decreases n,
{
    if n == 0 {
        Seq::empty()
    } else {
        dec_digits(n / 10).push((48 + n % 10) as u8)
    }
}

/// The decimal rendering of `n`.
pub open spec fn dec_of(n: nat) -> Seq<u8> {
    if n == 0 {
        seq![48u8]
    } else {
        dec_digits(n)
    }
}

/// Render `n` in decimal.
pub fn u64_to_dec(n: u64) -> (r: Vec<u8>)
    ensures
        r@ == dec_of(n as nat),
{
    if n == 0 {
        let mut v: Vec<u8> = Vec::new();
        v.push(48);
        proof {
            assert(v@ =~= seq![48u8]);
        }
        return v;
    }
    let mut out: Vec<u8> = Vec::new();
    let mut m: u64 = n;
    proof {
        assert(dec_digits(n as nat) + Seq::<u8>::empty() =~= dec_digits(n as nat));
    }
    while m > 0
        invariant
            dec_digits(n as nat) == dec_digits(m as nat) + out@,
        decreases m,
    {
        let d: u8 = 48 + (m % 10) as u8;
        let ghost pre = out@;
        out.insert(0, d);
        proof {
            assert(out@ =~= seq![d] + pre);
            assert(dec_digits(m as nat) == dec_digits((m / 10) as nat).push(d));
            assert(dec_digits((m / 10) as nat) + (seq![d] + pre) =~= dec_digits(
                (m / 10) as nat,
            ).push(d) + pre);
        }
        m = m / 10;
    }
    proof {
        assert(dec_digits(0nat) + out@ =~= out@);
    }
    out
}

/// The prefix with its trailing slashes removed.
pub open spec fn trim_slashes(p: Seq<u8>) -> Seq<u8>
    decreases p.len(),
{
    if p.len() > 0 && p[p.len() - 1] == 47 {
        trim_slashes(p.take(p.len() - 1))
    } else {
        p
    }
}

/// `<prefix>/<device>/pass`, the topic pass events are published on.
pub open spec fn spec_pass_topic(prefix: Seq<u8>, device: Seq<u8>) -> Seq<u8> {
    trim_slashes(prefix) + seq![47u8] + device + seq![47u8, 112u8, 97u8, 115u8, 115u8]
}

/// `<prefix>/<device>/status`, the topic the liveness indicator is retained
/// on.
pub open spec fn spec_status_topic(prefix: Seq<u8>, device: Seq<u8>) -> Seq<u8> {
    trim_slashes(prefix) + seq![47u8] + device + seq![
        47u8,
        115u8,
        116u8,
        97u8,
        116u8,
        117u8,
        115u8,
    ]
}

/// The broker payload of a pass event: the RFC 3339 capture time, the same
/// instant as integer milliseconds, and the device identifier when present.
pub open spec fn spec_encode_payload(e: EventModel) -> Seq<u8> {
    let head = seq![123u8, 34u8, 116u8, 115u8, 95u8, 117u8, 116u8, 99u8, 34u8, 58u8, 34u8]
        + rfc3339_bytes_of(e.ts_ms) + seq![34u8, 44u8, 34u8, 116u8, 115u8, 95u8, 109u8, 115u8,
        34u8, 58u8] + dec_of(e.ts_ms as nat);
    match e.device {
        Option::None => head + seq![125u8],
        Option::Some(d) => head + seq![44u8, 34u8, 100u8, 101u8, 118u8, 105u8, 99u8, 101u8, 95u8,
            105u8, 100u8, 34u8, 58u8, 34u8] + esc_bytes(d) + seq![34u8, 125u8],
    }
}

fn push_trimmed_prefix(out: &mut Vec<u8>, prefix: &Vec<u8>)
    ensures
        final(out)@ == old(out)@ + trim_slashes(prefix@),
{
    let mut hi: usize = prefix.len();
    proof {
        assert(prefix@.take(prefix@.len() as int) =~= prefix@);
    }
    while hi > 0 && prefix[hi - 1] == 47
        invariant
            hi <= prefix@.len(),
            trim_slashes(prefix@) == trim_slashes(prefix@.take(hi as int)),
        decreases hi,
    {
        proof {
            let t = prefix@.take(hi as int);
            assert(t[t.len() - 1] == prefix@[hi - 1]);
            assert(t.take(t.len() - 1) =~= prefix@.take(hi - 1));
        }
        hi = hi - 1;
    }
    proof {
        let t = prefix@.take(hi as int);
        if t.len() > 0 {
            assert(t[t.len() - 1] == prefix@[hi - 1]);
        }
        assert(trim_slashes(prefix@.take(hi as int)) == prefix@.take(hi as int));
    }
    let mut i: usize = 0;
    while i < hi
        invariant
            i <= hi <= prefix@.len(),
            out@ == old(out)@ + prefix@.take(hi as int).take(i as int),
        decreases hi - i,
    {
        out.push(prefix[i]);
        proof {
            assert(prefix@.take(hi as int).take(i + 1) =~= prefix@.take(hi as int).take(
                i as int,
            ).push(prefix@[i as int]));
            assert(out@ =~= old(out)@ + prefix@.take(hi as int).take(i + 1));
        }
        i = i + 1;
    }
    proof {
        assert(prefix@.take(hi as int).take(hi as int) =~= prefix@.take(hi as int));
    }
}

fn push_all(out: &mut Vec<u8>, s: &Vec<u8>)
    ensures
        final(out)@ == old(out)@ + s@,
{
    let mut i: usize = 0;
    proof {
        assert(out@ + s@.take(0) =~= out@);
    }
    while i < s.len()
        invariant
            i <= s@.len(),
            out@ == old(out)@ + s@.take(i as int),
        decreases s@.len() - i,
    {
        out.push(s[i]);
        proof {
            assert(s@.take(i + 1) =~= s@.take(i as int).push(s@[i as int]));
            assert(out@ =~= old(out)@ + s@.take(i + 1));
        }
        i = i + 1;
    }
    proof {
        assert(s@.take(s@.len() as int) =~= s@);
    }
}

/// Build `<prefix>/<device>/pass`.
pub fn pass_topic(prefix: &Vec<u8>, device: &Vec<u8>) -> (r: Vec<u8>)
    ensures
        r@ == spec_pass_topic(prefix@, device@),
{
    let mut out: Vec<u8> = Vec::new();
    push_trimmed_prefix(&mut out, prefix);
    out.push(47);
    push_all(&mut out, device);
    out.push(47);
    out.push(112);
    out.push(97);
    out.push(115);
    out.push(115);
    proof {
        assert(out@ =~= spec_pass_topic(prefix@, device@));
    }
    out
}

/// Build `<prefix>/<device>/status`.
pub fn status_topic(prefix: &Vec<u8>, device: &Vec<u8>) -> (r: Vec<u8>)
    ensures
        r@ == spec_status_topic(prefix@, device@),
{
    let mut out: Vec<u8> = Vec::new();
    push_trimmed_prefix(&mut out, prefix);
    out.push(47);
    push_all(&mut out, device);
    out.push(47);
    out.push(115);
    out.push(116);
    out.push(97);
    out.push(116);
    out.push(117);
    out.push(115);
    proof {
        assert(out@ =~= spec_status_topic(prefix@, device@));
    }
    out
}

/// Build the broker payload for a pass event.
#[verifier::rlimit(60)]
pub fn encode_payload(e: &PassEvent) -> (r: Vec<u8>)
    requires
        e.wf(),
    ensures
        r@ == spec_encode_payload(e@),
{
    let mut out: Vec<u8> = Vec::new();
    out.push(123);
    out.push(34);
    out.push(116);
    out.push(115);
    out.push(95);
    out.push(117);
    out.push(116);
    out.push(99);
    out.push(34);
    out.push(58);
    out.push(34);
    let rfc = format_rfc3339(e.ts_ms);
    push_all(&mut out, &rfc);
    out.push(34);
    out.push(44);
    out.push(34);
    out.push(116);
    out.push(115);
    out.push(95);
    out.push(109);
    out.push(115);
    out.push(34);
    out.push(58);
    let dec = u64_to_dec(e.ts_ms);
    push_all(&mut out, &dec);
    match &e.device_id {
        Option::None => {
            out.push(125);
            proof {
                assert(out@ =~= spec_encode_payload(e@));
            }
        },
        Option::Some(d) => {
            out.push(44);
            out.push(34);
            out.push(100);
            out.push(101);
            out.push(118);
            out.push(105);
            out.push(99);
            out.push(101);
            out.push(95);
            out.push(105);
            out.push(100);
            out.push(34);
            out.push(58);
            out.push(34);
            escape_into(&mut out, d);
            out.push(34);
            out.push(125);
            proof {
                assert(out@ =~= spec_encode_payload(e@));
            }
        },
    }
    out
}

/// The liveness indicator: `UP` while connected, `DOWN` as the retained last
/// will.
pub fn status_message(up: bool) -> (r: Vec<u8>)
    ensures
        up ==> r@ == seq![85u8, 80u8],
        !up ==> r@ == seq![68u8, 79u8, 87u8, 78u8],
{
    let mut v: Vec<u8> = Vec::new();
    if up {
        v.push(85);
        v.push(80);
        proof {
            assert(v@ =~= seq![85u8, 80u8]);
        }
    } else {
        v.push(68);
        v.push(79);
        v.push(87);
        v.push(78);
        proof {
            assert(v@ =~= seq![68u8, 79u8, 87u8, 78u8]);
        }
    }
    v
}

/// One connection-lifecycle event, as the caller's broker client reports it.
pub enum SinkEvent {
    /// The broker acknowledged the connection.
    Connected,
    /// The broker disconnected us.
    RemoteDisconnect,
    /// The connection attempt or poll failed.
    Fault,
    /// Any other traffic.
    OtherTraffic,
}

/// What the sink loop must do next.
#[derive(Debug, PartialEq, Eq)]
pub enum SinkReaction {
    /// Publish the retained `UP` status on the status topic.
    AnnounceUp,
    /// Keep polling.
    Continue,
    /// Wait before polling again, so a dead broker is not hammered.
    Backoff,
}

/// The sink's reaction to each connection event: announce liveness on
/// connect, back off on a fault, otherwise keep going. Disconnection by the
/// broker is not a fault — the client's own reconnect handles it.
pub fn sink_reaction(ev: &SinkEvent) -> (r: SinkReaction)
    ensures
        r == match ev {
            SinkEvent::Connected => SinkReaction::AnnounceUp,
            SinkEvent::RemoteDisconnect => SinkReaction::Continue,
            SinkEvent::Fault => SinkReaction::Backoff,
            SinkEvent::OtherTraffic => SinkReaction::Continue,
        },
{
    match ev {
        SinkEvent::Connected => SinkReaction::AnnounceUp,
        SinkEvent::RemoteDisconnect => SinkReaction::Continue,
        SinkEvent::Fault => SinkReaction::Backoff,
        SinkEvent::OtherTraffic => SinkReaction::Continue,
    }
}

} // verus!
