//! RFC 3339 rendering and reading of capture timestamps.
//!
//! The calendar arithmetic lives in the `chrono` crate; this module gives its
//! two directions names that the codec contracts can speak about. The one
//! fact tying the directions together is that parsing a rendering recovers the
//! millisecond value it was made from.

use vstd::prelude::*;
use crate::event::MAX_TS_MS;

verus! {

/// The RFC 3339 rendering (with exactly three fractional digits and a `Z`
/// suffix) of a millisecond-precision UTC instant, as bytes.
pub uninterp spec fn rfc3339_bytes_of(ms: u64) -> Seq<u8>;

/// The millisecond value that a byte string denotes when read as an RFC 3339
/// timestamp; `None` when it is not one, or lies before the Unix epoch.
pub uninterp spec fn rfc3339_ms_of(s: Seq<u8>) -> Option<u64>;

/// Whether a byte can appear verbatim inside a JSON string: printable ASCII
/// other than the quote and the backslash.
pub open spec fn is_plain_byte(b: u8) -> bool {
    0x20 <= b && b <= 0x7e && b != 34 && b != 92
}

/// Relies on chrono's `DateTime::from_timestamp_millis` and
/// `to_rfc3339_opts(SecondsFormat::Millis, true)`: the rendering depends on
/// the millisecond value alone; it is printable ASCII with no quote or
/// backslash (RFC 3339 text is digits, `-`, `:`, `.`, `T` and `Z`); and
/// chrono's own `parse_from_rfc3339` reads it back to the same instant at
/// millisecond precision.
#[verifier::external_body]
pub fn format_rfc3339(ms: u64) -> (r: Vec<u8>)
    requires
        ms <= MAX_TS_MS,
    ensures
        r@ == rfc3339_bytes_of(ms),
        r@.len() > 0,
        forall|i: int| 0 <= i < r@.len() ==> is_plain_byte(#[trigger] r@[i]),
        rfc3339_ms_of(r@) == Some(ms),
{
    let dt = chrono::DateTime::<chrono::Utc>::from_timestamp_millis(ms as i64).unwrap();
    dt.to_rfc3339_opts(chrono::SecondsFormat::Millis, true).into_bytes()
}

/// Relies on chrono's `DateTime::parse_from_rfc3339` and `timestamp_millis`:
/// the value read depends on the bytes alone. Bytes that are not UTF-8, not
/// an RFC 3339 timestamp, or denote an instant before the Unix epoch yield
/// `None`.
#[verifier::external_body]
pub fn parse_rfc3339(s: &Vec<u8>) -> (r: Option<u64>)
    ensures
        r == rfc3339_ms_of(s@),
{
    let text = match std::str::from_utf8(s) {
        Ok(t) => t,
        Err(_) => return None,
    };
    match chrono::DateTime::parse_from_rfc3339(text) {
        Ok(dt) => {
            let ms = dt.timestamp_millis();
            if ms >= 0 {
                Some(ms as u64)
            } else {
                None
            }
        },
        Err(_) => None,
    }
}

} // verus!
