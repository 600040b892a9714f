//! The ingestion pipeline's decision core.
//!
//! One owner drives it: hand each raw line with its capture time to
//! `offer_line`; on acceptance durably append the returned record (the flush
//! must have completed), and only then call `confirm_appended`, which fans
//! the event out. The well-formedness invariant pins the order down:
//! the broadcast history always equals the sequence of confirmed appends, so
//! no subscriber is ever shown an event that was not already safely logged.

use vstd::prelude::*;
use crate::codec::{encode_event, spec_encode_event, spec_parse_event};
use crate::debounce::{DebounceFilter, debounce_accepts};
use crate::event::{EventModel, PassEvent, MAX_TS_MS};
use crate::fanout::{Broadcaster, publish_one, sub_wf};
use crate::normalize::{normalize, is_pass_token};

verus! {

/// The single-owner ingestion state: debounce watermark, sensor identity, the
/// fan-out registry, and (in the model) the confirmed durable log.
pub struct Pipeline {
    pub debounce: DebounceFilter,
    /// Identifier stamped on every accepted event, if the sensor has one.
    pub device_id: Option<Vec<u8>>,
    pub bcast: Broadcaster,
    /// The events whose durable append the driver has confirmed, in order.
    pub logged: Ghost<Seq<EventModel>>,
}

impl Pipeline {
    /// The model of the configured device identifier.
    pub open spec fn device_model(self) -> Option<Seq<u8>> {
        match self.device_id {
            Option::Some(d) => Option::Some(d@),
            Option::None => Option::None,
        }
    }

    /// Durability precedes visibility: what has been broadcast is exactly
    /// what has been confirmed as durably appended.
    pub open spec fn wf(self) -> bool {
        &&& self.bcast.wf()
        &&& self.bcast.history@ == self.logged@
    }

    /// A fresh pipeline: nothing accepted, nothing logged, no subscribers.
    pub fn new(window_ms: u64, device_id: Option<Vec<u8>>, queue_cap: usize) -> (r: Pipeline)
        ensures
            r.wf(),
            r.debounce.window_ms == window_ms,
            r.debounce.last_accepted is None,
            r.device_id == device_id,
            r.logged@ == Seq::<EventModel>::empty(),
            r.bcast.cap == queue_cap,
            r.bcast.subs@.len() == 0,
    {
        Pipeline {
            debounce: DebounceFilter::new(window_ms),
            device_id,
            bcast: Broadcaster::new(queue_cap),
            logged: Ghost(Seq::empty()),
        }
    }

    /// Decide on one raw line captured at `now_ms`. Exactly when the line is
    /// the pass token and the debounce filter accepts the capture time, the
    /// candidate becomes an event, returned together with its one-line log
    /// record; the record decodes back to the event. Nothing is broadcast
    /// here: the caller must durably append the record first and then hand
    /// the event to `confirm_appended`.
    pub fn offer_line(&mut self, line: &Vec<u8>, now_ms: u64) -> (r: Option<(PassEvent, Vec<u8>)>)
        requires
            old(self).wf(),
            now_ms <= MAX_TS_MS,
        ensures
            final(self).wf(),
            final(self).bcast == old(self).bcast,
            final(self).logged == old(self).logged,
            final(self).device_id == old(self).device_id,
            final(self).debounce.window_ms == old(self).debounce.window_ms,
            ({
                let accepted = is_pass_token(line@) && debounce_accepts(
                    old(self).debounce.last_accepted,
                    old(self).debounce.window_ms,
                    now_ms,
                );
                match r {
                    Option::Some(p) => {
                        &&& accepted
                        &&& p.0.wf()
                        &&& p.0@.ts_ms == now_ms
                        &&& p.0@.device == old(self).device_model()
                        &&& p.1@ == spec_encode_event(p.0@)
                        &&& spec_parse_event(p.1@) == Option::Some(p.0@)
                        &&& final(self).debounce.last_accepted == Option::Some(now_ms)
                    },
                    Option::None => {
                        &&& !accepted
                        &&& final(self).debounce == old(self).debounce
                    },
                }
            }),
    {
        match normalize(line, now_ms) {
            Option::None => Option::None,
            Option::Some(_candidate) => {
                if self.debounce.offer(now_ms) {
                    let dev = match &self.device_id {
                        Option::Some(d) => {
                            let c = d.clone();
                            proof {
                                assert(c@ =~= d@);
                            }
                            Option::Some(c)
                        },
                        Option::None => Option::None,
                    };
                    let ev = PassEvent::new(now_ms, dev);
                    let rec = encode_event(&ev);
                    Option::Some((ev, rec))
                } else {
                    Option::None
                }
            },
        }
    }

    /// To be called only once the event's record has been durably appended
    /// (written and flushed). Records the append and fans the event out to
    /// the subscribers; each queue changes by `publish_one` alone, so a slow
    /// subscriber never blocks or delays ingestion or the others.
    pub fn confirm_appended(&mut self, e: &PassEvent)
        requires
            old(self).wf(),
        ensures
            final(self).wf(),
            final(self).logged@ == old(self).logged@.push(e@),
            final(self).bcast.history@ == old(self).bcast.history@.push(e@),
            final(self).bcast.cap == old(self).bcast.cap,
            final(self).bcast.subs@.len() == old(self).bcast.subs@.len(),
            forall|k: int|
                0 <= k < old(self).bcast.subs@.len() ==> (#[trigger] final(self).bcast.subs@[k])@
                    == publish_one(old(self).bcast.subs@[k]@, e@, old(self).bcast.cap as int),
            final(self).debounce == old(self).debounce,
            final(self).device_id == old(self).device_id,
    {
        proof {
            self.logged@ = self.logged@.push(e@);
        }
        self.bcast.publish(e);
    }
}

/// Law: no event reaches a subscriber before its append was confirmed.
/// Everything any live subscriber has pending is already in the durable log,
/// at the position the subscriber will consume it.
pub proof fn lemma_durability_before_visibility(p: Pipeline, k: int, j: int)
    requires
        p.wf(),
        0 <= k < p.bcast.subs@.len(),
        p.bcast.subs@[k]@.live,
        0 <= j < p.bcast.subs@[k]@.buf.len(),
    ensures
        0 <= p.bcast.subs@[k]@.taken + j < p.logged@.len(),
        p.bcast.subs@[k]@.buf[j] == p.logged@[p.bcast.subs@[k]@.taken + j],
{
    let s = p.bcast.subs@[k]@;
    assert(sub_wf(s, p.bcast.history@, p.bcast.cap as int));
    assert(p.bcast.history@.subrange(s.taken, s.taken + s.buf.len())[j] == p.bcast.history@[s.taken
        + j]);
}

} // verus!
