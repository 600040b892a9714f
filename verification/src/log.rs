//! Reading the durable log back.
//!
//! The log is append-only NDJSON: the caller hands this module the file's
//! lines (an absent file is simply no lines) and gets back every event whose
//! line parses, in file order. A line that does not parse — a truncated or
//! corrupted trailing write from a crash, or a foreign record — is skipped,
//! never an error.

use vstd::prelude::*;
use crate::codec::{parse_event, spec_parse_event};
use crate::event::{EventModel, PassEvent};

verus! {

/// The events a sequence of log lines denotes, in order, unparseable lines
/// skipped.
pub open spec fn spec_read_all(lines: Seq<Seq<u8>>) -> Seq<EventModel>
    decreases lines.len(),
{
    if lines.len() == 0 {
        Seq::empty()
    } else {
        match spec_parse_event(lines[0]) {
            Option::Some(m) => seq![m] + spec_read_all(lines.skip(1)),
            Option::None => spec_read_all(lines.skip(1)),
        }
    }
}

/// Decode the log's lines into the recorded events, in original order,
/// skipping any line that is not a well-formed record. No lines — including
/// the case of a log file that does not exist yet — yield no events, not an
/// error.
pub fn read_all(lines: &Vec<Vec<u8>>) -> (r: Vec<PassEvent>)
    ensures
        r@.map_values(|e: PassEvent| e@) == spec_read_all(lines@.map_values(|l: Vec<u8>| l@)),
        forall|k: int| 0 <= k < r@.len() ==> (#[trigger] r@[k]).wf(),
{
    let ghost lview = lines@.map_values(|l: Vec<u8>| l@);
    let mut out: Vec<PassEvent> = Vec::new();
    let mut i: usize = 0;
    proof {
        assert(lview.skip(0) =~= lview);
        assert(out@.map_values(|e: PassEvent| e@) =~= Seq::<EventModel>::empty());
        assert(Seq::<EventModel>::empty() + spec_read_all(lview) =~= spec_read_all(lview));
    }
    while i < lines.len()
        invariant
            i <= lines.len(),
            lview == lines@.map_values(|l: Vec<u8>| l@),
            spec_read_all(lview) == out@.map_values(|e: PassEvent| e@) + spec_read_all(
                lview.skip(i as int),
            ),
            forall|k: int| 0 <= k < out@.len() ==> (#[trigger] out@[k]).wf(),
        decreases lines.len() - i,
    {
        let ghost pre = out@.map_values(|e: PassEvent| e@);
        proof {
            assert(lview.skip(i as int)[0] == lview[i as int]);
            assert(lview.skip(i as int).skip(1) =~= lview.skip(i + 1));
            assert(lview[i as int] == lines@[i as int]@);
        }
        match parse_event(&lines[i]) {
            Option::Some(ev) => {
                out.push(ev);
                proof {
                    assert(out@.map_values(|e: PassEvent| e@) =~= pre.push(ev@));
                    assert(pre + (seq![ev@] + spec_read_all(lview.skip(i + 1))) =~= pre.push(ev@)
                        + spec_read_all(lview.skip(i + 1)));
                }
            },
            Option::None => {},
        }
        i = i + 1;
    }
    proof {
        assert(lview.skip(lines@.len() as int) =~= Seq::<Seq<u8>>::empty());
        assert(out@.map_values(|e: PassEvent| e@) + Seq::<EventModel>::empty() =~= out@.map_values(
            |e: PassEvent| e@,
        ));
    }
    out
}

/// Law: appending a line that decodes to an event extends what `read_all`
/// yields by exactly that event; everything earlier is kept, in order.
pub proof fn lemma_append_then_read(lines: Seq<Seq<u8>>, enc: Seq<u8>, e: EventModel)
    requires
        spec_parse_event(enc) == Option::Some(e),
    ensures
        spec_read_all(lines.push(enc)) == spec_read_all(lines).push(e),
    decreases lines.len(),
{
    if lines.len() == 0 {
        assert(lines.push(enc)[0] == enc);
        assert(lines.push(enc).skip(1) =~= Seq::<Seq<u8>>::empty());
        assert(spec_read_all(Seq::<Seq<u8>>::empty()) == Seq::<EventModel>::empty());
        assert(spec_read_all(lines.push(enc)) == seq![e] + Seq::<EventModel>::empty());
        assert(spec_read_all(lines) == Seq::<EventModel>::empty());
        assert(seq![e] + Seq::<EventModel>::empty() =~= Seq::<EventModel>::empty().push(e));
    } else {
        assert(lines.push(enc)[0] == lines[0]);
        assert(lines.push(enc).skip(1) =~= lines.skip(1).push(enc));
        lemma_append_then_read(lines.skip(1), enc, e);
        match spec_parse_event(lines[0]) {
            Option::Some(m) => {
                assert(seq![m] + spec_read_all(lines.skip(1)).push(e) =~= (seq![m] + spec_read_all(
                    lines.skip(1),
                )).push(e));
            },
            Option::None => {},
        }
    }
}

/// Law: a trailing line that does not decode — a truncated or corrupted
/// write — changes nothing: `read_all` yields all prior well-formed records,
/// in original order.
pub proof fn lemma_corrupt_tail_skipped(lines: Seq<Seq<u8>>, bad: Seq<u8>)
    requires
        spec_parse_event(bad) is None,
    ensures
        spec_read_all(lines.push(bad)) == spec_read_all(lines),
    decreases lines.len(),
{
    if lines.len() == 0 {
        assert(lines.push(bad)[0] == bad);
        assert(lines.push(bad).skip(1) =~= Seq::<Seq<u8>>::empty());
        assert(spec_read_all(Seq::<Seq<u8>>::empty()) == Seq::<EventModel>::empty());
        assert(spec_read_all(lines) == Seq::<EventModel>::empty());
    } else {
        assert(lines.push(bad)[0] == lines[0]);
        assert(lines.push(bad).skip(1) =~= lines.skip(1).push(bad));
        lemma_corrupt_tail_skipped(lines.skip(1), bad);
    }
}

} // verus!
