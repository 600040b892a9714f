//! Core of a finish-line timing bridge.
//!
//! A finish-line sensor emits one text line per crossing over a serial link. This
//! library holds everything about that stream that has a right answer: turning
//! a raw line into a timestamped pass event, suppressing re-triggers inside a
//! debounce window, encoding and decoding the durable NDJSON log records, and
//! fanning accepted events out to bounded per-subscriber queues that mark lag
//! instead of growing without bound. The transport, the HTTP server and the
//! broker client live outside the library and hand it plain values.

pub mod debounce;
pub mod event;
pub mod timefmt;
pub mod codec;
pub mod log;
pub mod fanout;
pub mod normalize;
pub mod pipeline;
pub mod remote;
