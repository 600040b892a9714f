//! The pass event: the sole domain entity.
//!
//! A pass event carries the capture timestamp as milliseconds since the Unix
//! epoch and, for multi-sensor deployments, an optional device identifier held
//! as raw bytes. Timestamps are bounded so that every event has an RFC 3339
//! rendering with a four-digit year.

use vstd::prelude::*;

verus! {

/// Largest representable capture time: the last millisecond of year 9999,
/// the top of the four-digit-year range that RFC 3339 timestamps cover.
pub const MAX_TS_MS: u64 = 253402300799999;

/// Mathematical model of a pass event.
pub struct EventModel {
    pub ts_ms: u64,
    pub device: Option<Seq<u8>>,
}

/// One detected crossing of the finish line.
#[derive(Debug, PartialEq, Eq)]
pub struct PassEvent {
    /// Capture time, in milliseconds since the Unix epoch (UTC).
    pub ts_ms: u64,
    /// Identifier of the sensor that produced the event, if configured.
    pub device_id: Option<Vec<u8>>,
}

impl View for PassEvent {
    type V = EventModel;

    open spec fn view(&self) -> EventModel {
        EventModel {
            ts_ms: self.ts_ms,
            device: match self.device_id {
                Option::Some(d) => Option::Some(d@),
                Option::None => Option::None,
            },
        }
    }
}

impl PassEvent {
    /// An event is well formed when its timestamp has an RFC 3339 rendering.
    pub open spec fn wf(self) -> bool {
        self.ts_ms <= MAX_TS_MS
    }

    /// Build an event from a capture time and an optional device identifier.
    pub fn new(ts_ms: u64, device_id: Option<Vec<u8>>) -> (r: PassEvent)
        requires
            ts_ms <= MAX_TS_MS,
        ensures
            r.wf(),
            r@.ts_ms == ts_ms,
            r@.device == match device_id {
                Option::Some(d) => Option::Some(d@),
                Option::None => Option::<Seq<u8>>::None,
            },
    {
        PassEvent { ts_ms, device_id }
    }

    /// A copy of the event with the same model; events are never mutated
    /// after creation, so consumers each take their own copy.
    pub fn duplicate(&self) -> (r: PassEvent)
        ensures
            r@ == self@,
            r.wf() == self.wf(),
    {
        let device_id = match &self.device_id {
            Option::Some(d) => {
                let c = d.clone();
                proof {
                    assert(c@ =~= d@);
                }
                Option::Some(c)
            },
            Option::None => Option::None,
        };
        PassEvent { ts_ms: self.ts_ms, device_id }
    }
}

} // verus!
