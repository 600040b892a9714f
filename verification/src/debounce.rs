//! Temporal de-duplication of candidate pass events.
//!
//! The sensor hardware can re-trigger several times for one physical crossing.
//! The filter keeps a single watermark, the timestamp of the last accepted
//! event, and accepts a candidate at time `t` exactly when no event was
//! accepted yet or `t` lies at least the configured window past the watermark.
//! A candidate earlier than the watermark (out-of-order capture) is rejected
//! rather than wrapping the subtraction.

use vstd::prelude::*;

verus! {

/// Whether a candidate at `t` is accepted given the last-accepted watermark
/// `last` and the debounce window `window_ms`.
pub open spec fn debounce_accepts(last: Option<u64>, window_ms: u64, t: u64) -> bool {
    match last {
        Option::None => true,
        Option::Some(l) => t >= l && t - l >= window_ms,
    }
}

/// The subsequence of `ts` accepted by a debounce filter with window
/// `window_ms` whose watermark starts at `last`.
pub open spec fn accepted_from(ts: Seq<u64>, window_ms: u64, last: Option<u64>) -> Seq<u64>
    decreases ts.len(),
{
    if ts.len() == 0 {
        Seq::empty()
    } else if debounce_accepts(last, window_ms, ts[0]) {
        seq![ts[0]] + accepted_from(ts.skip(1), window_ms, Option::Some(ts[0]))
    } else {
        accepted_from(ts.skip(1), window_ms, last)
    }
}

/// Every element the filter accepts comes from the candidate sequence; the
/// first accepted element (if any) is itself admitted against the starting
/// watermark; and any two consecutive accepted timestamps lie at least the
/// window apart.
pub proof fn lemma_accepted_from_spacing(ts: Seq<u64>, window_ms: u64, last: Option<u64>)
    ensures
        ({
            let a = accepted_from(ts, window_ms, last);
            &&& a.len() > 0 ==> debounce_accepts(last, window_ms, a[0])
            &&& forall|i: int|
                0 <= i < a.len() - 1 ==> #[trigger] a[i] <= a[i + 1] && a[i + 1] - a[i] >= window_ms
            &&& forall|i: int| 0 <= i < a.len() ==> ts.contains(#[trigger] a[i])
        }),
    decreases ts.len(),
{
    if ts.len() > 0 {
        let a = accepted_from(ts, window_ms, last);
        if debounce_accepts(last, window_ms, ts[0]) {
            lemma_accepted_from_spacing(ts.skip(1), window_ms, Option::Some(ts[0]));
            let tail = accepted_from(ts.skip(1), window_ms, Option::Some(ts[0]));
            assert(a == seq![ts[0]] + tail);
            assert forall|i: int|
                0 <= i < a.len() - 1 implies #[trigger] a[i] <= a[i + 1] && a[i + 1] - a[i] >= window_ms by {
                if i == 0 {
                    assert(a[1] == tail[0]);
                    assert(debounce_accepts(Option::Some(ts[0]), window_ms, tail[0]));
                } else {
                    assert(a[i] == tail[i - 1]);
                    assert(a[i + 1] == tail[i]);
                }
            }
            assert forall|i: int| 0 <= i < a.len() implies ts.contains(#[trigger] a[i]) by {
                if i == 0 {
                    assert(ts[0] == a[0]);
                } else {
                    assert(ts.skip(1).contains(tail[i - 1]));
                    let k = choose|k: int|
                        0 <= k < ts.skip(1).len() && ts.skip(1)[k] == tail[i - 1];
                    assert(ts[k + 1] == a[i]);
                }
            }
        } else {
            lemma_accepted_from_spacing(ts.skip(1), window_ms, last);
            let tail = accepted_from(ts.skip(1), window_ms, last);
            assert(a == tail);
            assert forall|i: int| 0 <= i < a.len() implies ts.contains(#[trigger] a[i]) by {
                assert(ts.skip(1).contains(tail[i]));
                let k = choose|k: int| 0 <= k < ts.skip(1).len() && ts.skip(1)[k] == tail[i];
                assert(ts[k + 1] == a[i]);
            }
        }
    }
}

/// Law: over strictly increasing candidate timestamps, the accepted
/// subsequence starts with the very first candidate and keeps consecutive
/// accepted timestamps at least the debounce window apart.
pub proof fn lemma_debounce_law(ts: Seq<u64>, window_ms: u64)
    requires
        forall|i: int, j: int| 0 <= i < j < ts.len() ==> ts[i] < ts[j],
    ensures
        ({
            let a = accepted_from(ts, window_ms, Option::<u64>::None);
            &&& ts.len() > 0 ==> a.len() > 0 && a[0] == ts[0]
            &&& forall|i: int|
                0 <= i < a.len() - 1 ==> #[trigger] a[i] <= a[i + 1] && a[i + 1] - a[i] >= window_ms
            &&& forall|i: int| 0 <= i < a.len() ==> ts.contains(#[trigger] a[i])
        }),
{
    lemma_accepted_from_spacing(ts, window_ms, Option::<u64>::None);
    if ts.len() > 0 {
        let a = accepted_from(ts, window_ms, Option::<u64>::None);
        assert(debounce_accepts(Option::<u64>::None, window_ms, ts[0]));
        assert(a[0] == ts[0]);
    }
}

/// Stateful filter that suppresses candidates arriving within `window_ms`
/// of the last accepted candidate.
pub struct DebounceFilter {
    /// Minimum spacing, in milliseconds, between two accepted events.
    pub window_ms: u64,
    /// Timestamp of the last accepted event; `None` until the first
    /// acceptance, so the first candidate is never suppressed.
    pub last_accepted: Option<u64>,
}

impl DebounceFilter {
    /// A fresh filter: the first candidate is always accepted.
    pub fn new(window_ms: u64) -> (r: DebounceFilter)
        ensures
            r.window_ms == window_ms,
            r.last_accepted is None,
    {
        DebounceFilter { window_ms, last_accepted: Option::None }
    }

    /// Offer a candidate at time `t_ms`; returns whether it is accepted.
    /// On acceptance the watermark moves to `t_ms`; a rejection leaves the
    /// filter unchanged.
    pub fn offer(&mut self, t_ms: u64) -> (accepted: bool)
        ensures
            accepted == debounce_accepts(old(self).last_accepted, old(self).window_ms, t_ms),
            final(self).window_ms == old(self).window_ms,
            final(self).last_accepted == if accepted {
                Option::Some(t_ms)
            } else {
                old(self).last_accepted
            },
    {
        let accept = match self.last_accepted {
            Option::None => true,
            Option::Some(l) => t_ms >= l && t_ms - l >= self.window_ms,
        };
        if accept {
            self.last_accepted = Option::Some(t_ms);
        }
        accept
    }
}

/// Run a debounce filter over a whole sequence of candidate timestamps,
/// returning the accepted ones in order.
pub fn debounce_all(window_ms: u64, ts: &Vec<u64>) -> (r: Vec<u64>)
    ensures
        r@ == accepted_from(ts@, window_ms, Option::<u64>::None),
{
    let mut filter = DebounceFilter::new(window_ms);
    let mut out: Vec<u64> = Vec::new();
    let mut i: usize = 0;
    proof {
        assert(ts@.skip(0) =~= ts@);
        assert(Seq::<u64>::empty() + accepted_from(ts@, window_ms, Option::<u64>::None)
            =~= accepted_from(ts@, window_ms, Option::<u64>::None));
    }
    while i < ts.len()
        invariant
            i <= ts.len(),
            filter.window_ms == window_ms,
            accepted_from(ts@, window_ms, Option::<u64>::None)
                == out@ + accepted_from(ts@.skip(i as int), window_ms, filter.last_accepted),
        decreases ts.len() - i,
    {
        let ghost pre = filter.last_accepted;
        let t = ts[i];
        let accepted = filter.offer(t);
        if accepted {
            out.push(t);
        }
        proof {
            assert(ts@.skip(i as int)[0] == ts@[i as int]);
            assert(ts@.skip(i as int).skip(1) =~= ts@.skip(i + 1));
            if accepted {
                assert(out@ + accepted_from(ts@.skip(i + 1), window_ms, filter.last_accepted)
                    =~= (out@.drop_last() + seq![t]) + accepted_from(
                    ts@.skip(i + 1),
                    window_ms,
                    Option::Some(t),
                ));
                assert(out@.drop_last() + (seq![t] + accepted_from(
                    ts@.skip(i + 1),
                    window_ms,
                    Option::Some(t),
                )) =~= (out@.drop_last() + seq![t]) + accepted_from(
                    ts@.skip(i + 1),
                    window_ms,
                    Option::Some(t),
                ));
            }
        }
        i = i + 1;
    }
    proof {
        assert(ts@.skip(ts@.len() as int) =~= Seq::<u64>::empty());
        assert(out@ + Seq::<u64>::empty() =~= out@);
    }
    out
}

} // verus!
