//! The durable log's record format.
//!
//! One record is one line holding a flat JSON object: string keys mapped to
//! string or integer values, no whitespace. A pass event is written as
//! `{"ts_utc":"<RFC 3339>"}`, extended with a `"device_id"` member when the
//! sensor has an identifier. Readers ignore members they do not know and reject
//! (skip) lines that do not parse or lack a readable `ts_utc`, so a truncated
//! trailing write never poisons the log.

use vstd::prelude::*;
use crate::event::{EventModel, PassEvent, MAX_TS_MS};
use crate::timefmt::{is_plain_byte, rfc3339_bytes_of, rfc3339_ms_of, format_rfc3339,
    parse_rfc3339};

verus! {

// --- byte classes -----------------------------------------------------------

/// Bytes the string parser takes verbatim: anything but a quote, a backslash
/// or a control byte. (Broader than `is_plain_byte`: foreign writers may put
/// non-ASCII UTF-8 fragments in string values; they are carried through.)
pub open spec fn is_literal_byte(b: u8) -> bool {
    b != 34 && b != 92 && b >= 0x20
}

pub open spec fn is_digit_byte(b: u8) -> bool {
    48 <= b && b <= 57
}

/// The lower-case hexadecimal digit for a nibble.
pub open spec fn hex_digit(n: u8) -> u8
    recommends
        n < 16,
{
    if n < 10 {
        (48 + n) as u8
    } else {
        (87 + n) as u8
    }
}

/// The nibble a hexadecimal digit byte denotes, upper or lower case.
pub open spec fn hex_val(b: u8) -> Option<u8> {
    if 48 <= b && b <= 57 {
        Option::Some((b - 48) as u8)
    } else if 97 <= b && b <= 102 {
        Option::Some((b - 87) as u8)
    } else if 65 <= b && b <= 70 {
        Option::Some((b - 55) as u8)
    } else {
        Option::None
    }
}

/// The byte a two-character escape denotes: `\"`, `\\`, `\/`, `\b`, `\f`,
/// `\n`, `\r`, `\t`.
pub open spec fn esc_code(e: u8) -> Option<u8> {
    if e == 34 {
        Option::Some(34u8)
    } else if e == 92 {
        Option::Some(92u8)
    } else if e == 47 {
        Option::Some(47u8)
    } else if e == 98 {
        Option::Some(8u8)
    } else if e == 102 {
        Option::Some(12u8)
    } else if e == 110 {
        Option::Some(10u8)
    } else if e == 114 {
        Option::Some(13u8)
    } else if e == 116 {
        Option::Some(9u8)
    } else {
        Option::None
    }
}

// --- escaping ---------------------------------------------------------------

/// How the writer renders one byte inside a JSON string: plain bytes stand as
/// themselves, the quote and the backslash get a backslash, everything else
/// becomes `\u00XX`.
pub open spec fn esc_byte(b: u8) -> Seq<u8> {
    if is_plain_byte(b) {
        seq![b]
    } else if b == 34 {
        seq![92u8, 34u8]
    } else if b == 92 {
        seq![92u8, 92u8]
    } else {
        seq![92u8, 117u8, 48u8, 48u8, hex_digit(b / 16), hex_digit(b % 16)]
    }
}

/// The writer's rendering of a whole byte string.
pub open spec fn esc_bytes(s: Seq<u8>) -> Seq<u8>
    decreases s.len(),
{
    if s.len() == 0 {
        Seq::empty()
    } else {
        esc_byte(s[0]) + esc_bytes(s.skip(1))
    }
}

pub proof fn lemma_esc_bytes_push(s: Seq<u8>, b: u8)
    ensures
        esc_bytes(s.push(b)) == esc_bytes(s) + esc_byte(b),
    decreases s.len(),
{
    if s.len() == 0 {
        assert(s.push(b)[0] == b);
        assert(s.push(b).skip(1) =~= Seq::<u8>::empty());
        assert(esc_bytes(Seq::<u8>::empty()) == Seq::<u8>::empty());
        assert(esc_bytes(s.push(b)) == esc_byte(b) + Seq::<u8>::empty());
        assert(esc_byte(b) + Seq::<u8>::empty() =~= Seq::<u8>::empty() + esc_byte(b));
    } else {
        assert(s.push(b).skip(1) =~= s.skip(1).push(b));
        lemma_esc_bytes_push(s.skip(1), b);
        assert(esc_bytes(s.push(b)) == esc_byte(s[0]) + (esc_bytes(s.skip(1)) + esc_byte(b)));
        assert(esc_byte(s[0]) + (esc_bytes(s.skip(1)) + esc_byte(b)) =~= (esc_byte(s[0])
            + esc_bytes(s.skip(1))) + esc_byte(b));
    }
}

/// A string of plain bytes is its own rendering.
pub proof fn lemma_esc_bytes_plain(s: Seq<u8>)
    requires
        forall|i: int| 0 <= i < s.len() ==> is_plain_byte(#[trigger] s[i]),
    ensures
        esc_bytes(s) == s,
    decreases s.len(),
{
    if s.len() > 0 {
        lemma_esc_bytes_plain(s.skip(1));
        assert(esc_bytes(s) == seq![s[0]] + s.skip(1));
        assert(seq![s[0]] + s.skip(1) =~= s);
    }
}

fn hex_digit_x(n: u8) -> (r: u8)
    requires
        n < 16,
    ensures
        r == hex_digit(n),
{
    if n < 10 {
        48 + n
    } else {
        87 + n
    }
}

/// Append the writer's rendering of `s` to `out`.
pub fn escape_into(out: &mut Vec<u8>, s: &Vec<u8>)
    ensures
        final(out)@ == old(out)@ + esc_bytes(s@),
{
    let mut i: usize = 0;
    proof {
        assert(s@.take(0) =~= Seq::<u8>::empty());
        assert(old(out)@ + Seq::<u8>::empty() =~= old(out)@);
        assert(esc_bytes(Seq::<u8>::empty()) =~= Seq::<u8>::empty());
    }
    while i < s.len()
        invariant
            i <= s.len(),
            out@ == old(out)@ + esc_bytes(s@.take(i as int)),
        decreases s.len() - i,
    {
        let b = s[i];
        let ghost pre = out@;
        if 0x20 <= b && b <= 0x7e && b != 34 && b != 92 {
            out.push(b);
            proof {
                assert(out@ =~= pre + esc_byte(b));
            }
        } else if b == 34 {
            out.push(92);
            out.push(34);
            proof {
                assert(out@ =~= pre + esc_byte(b));
            }
        } else if b == 92 {
            out.push(92);
            out.push(92);
            proof {
                assert(out@ =~= pre + esc_byte(b));
            }
        } else {
            out.push(92);
            out.push(117);
            out.push(48);
            out.push(48);
            out.push(hex_digit_x(b / 16));
            out.push(hex_digit_x(b % 16));
            proof {
                assert(out@ =~= pre + esc_byte(b));
            }
        }
        proof {
            lemma_esc_bytes_push(s@.take(i as int), s@[i as int]);
            assert(s@.take(i + 1) =~= s@.take(i as int).push(s@[i as int]));
            assert(pre + esc_byte(b) =~= old(out)@ + esc_bytes(s@.take(i + 1)));
        }
        i = i + 1;
    }
    proof {
        assert(s@.take(s@.len() as int) =~= s@);
    }
}

// --- the reader's grammar ----------------------------------------------------
//
// Each `ps_*` function reads from position `i` of the line and returns what it
// decoded together with the position just past it, or `None` when the line is
// not a record. A member's value is `Some(bytes)` for a string value and
// `None` for an integer value (accepted and skipped, for forward
// compatibility with writers that add numeric fields).

/// String body after the opening quote; `acc` holds the bytes decoded so far.
/// Ends at the closing quote.
pub open spec fn ps_body(s: Seq<u8>, i: int, acc: Seq<u8>) -> Option<(Seq<u8>, int)>
    decreases s.len() - i,
{
    if i < 0 || i >= s.len() {
        Option::None
    } else if s[i] == 34 {
        Option::Some((acc, i + 1))
    } else if s[i] == 92 {
        if i + 1 < s.len() && esc_code(s[i + 1]) is Some {
            ps_body(s, i + 2, acc.push(esc_code(s[i + 1]).unwrap()))
        } else if i + 5 < s.len() && s[i + 1] == 117 && s[i + 2] == 48 && s[i + 3] == 48
            && hex_val(s[i + 4]) is Some && hex_val(s[i + 5]) is Some {
            ps_body(
                s,
                i + 6,
                acc.push((hex_val(s[i + 4]).unwrap() * 16 + hex_val(s[i + 5]).unwrap()) as u8),
            )
        } else {
            Option::None
        }
    } else if is_literal_byte(s[i]) {
        ps_body(s, i + 1, acc.push(s[i]))
    } else {
        Option::None
    }
}

/// A quoted string starting at `i`.
pub open spec fn ps_string(s: Seq<u8>, i: int) -> Option<(Seq<u8>, int)> {
    if 0 <= i && i < s.len() && s[i] == 34 {
        ps_body(s, i + 1, Seq::empty())
    } else {
        Option::None
    }
}

/// Position just past the run of decimal digits starting at `i`.
pub open spec fn ps_digits_end(s: Seq<u8>, i: int) -> int
    decreases s.len() - i,
{
    if 0 <= i && i < s.len() && is_digit_byte(s[i]) {
        ps_digits_end(s, i + 1)
    } else {
        i
    }
}

/// An integer value starting at `i`: an optional minus sign, then at least
/// one digit. Only its extent matters.
pub open spec fn ps_number(s: Seq<u8>, i: int) -> Option<int> {
    let j = if 0 <= i && i < s.len() && s[i] == 45 {
        i + 1
    } else {
        i
    };
    if 0 <= j && j < s.len() && is_digit_byte(s[j]) {
        Option::Some(ps_digits_end(s, j))
    } else {
        Option::None
    }
}

/// A member value: a string (decoded) or an integer (skipped).
pub open spec fn ps_value(s: Seq<u8>, i: int) -> Option<(Option<Seq<u8>>, int)> {
    if 0 <= i && i < s.len() && s[i] == 34 {
        match ps_string(s, i) {
            Option::Some((d, j)) => Option::Some((Option::Some(d), j)),
            Option::None => Option::None,
        }
    } else {
        match ps_number(s, i) {
            Option::Some(j) => Option::Some((Option::None, j)),
            Option::None => Option::None,
        }
    }
}

/// One `"key":value` member.
pub open spec fn ps_member(s: Seq<u8>, i: int) -> Option<((Seq<u8>, Option<Seq<u8>>), int)> {
    match ps_string(s, i) {
        Option::None => Option::None,
        Option::Some((k, j)) => {
            if 0 <= j && j < s.len() && s[j] == 58 {
                match ps_value(s, j + 1) {
                    Option::None => Option::None,
                    Option::Some((v, m)) => Option::Some(((k, v), m)),
                }
            } else {
                Option::None
            }
        },
    }
}

/// A comma-separated run of members starting at `i`. A member always moves
/// the position forward; the clamp below only carries that fact into the
/// termination measure.
pub open spec fn ps_members(s: Seq<u8>, i: int, acc: Seq<(Seq<u8>, Option<Seq<u8>>)>) -> Option<
    (Seq<(Seq<u8>, Option<Seq<u8>>)>, int),
>
    decreases s.len() - i,
{
    match ps_member(s, i) {
        Option::None => Option::None,
        Option::Some((m, j)) => {
            let j2 = if j > i {
                j
            } else {
                i + 1
            };
            if 0 <= j2 && j2 < s.len() && s[j2] == 44 {
                ps_members(s, j2 + 1, acc.push(m))
            } else {
                Option::Some((acc.push(m), j2))
            }
        },
    }
}

/// The member list of a whole record line: `{}`, or `{` members `}`, with
/// nothing after the closing brace.
pub open spec fn ps_line_members(s: Seq<u8>) -> Option<Seq<(Seq<u8>, Option<Seq<u8>>)>> {
    if s.len() >= 2 && s[0] == 123 {
        if s.len() == 2 && s[1] == 125 {
            Option::Some(Seq::empty())
        } else {
            match ps_members(s, 1, Seq::empty()) {
                Option::Some((ms, j)) => {
                    if j == s.len() - 1 && s[j] == 125 {
                        Option::Some(ms)
                    } else {
                        Option::None
                    }
                },
                Option::None => Option::None,
            }
        }
    } else {
        Option::None
    }
}

/// The value of the first member with the given key, if any.
pub open spec fn find_member(ms: Seq<(Seq<u8>, Option<Seq<u8>>)>, key: Seq<u8>) -> Option<
    Option<Seq<u8>>,
>
    decreases ms.len(),
{
    if ms.len() == 0 {
        Option::None
    } else if ms[0].0 == key {
        Option::Some(ms[0].1)
    } else {
        find_member(ms.skip(1), key)
    }
}

pub proof fn lemma_find_member_push(
    ms: Seq<(Seq<u8>, Option<Seq<u8>>)>,
    m: (Seq<u8>, Option<Seq<u8>>),
    key: Seq<u8>,
)
    ensures
        find_member(ms.push(m), key) == if find_member(ms, key) is Some {
            find_member(ms, key)
        } else if m.0 == key {
            Option::Some(m.1)
        } else {
            Option::<Option<Seq<u8>>>::None
        },
    decreases ms.len(),
{
    if ms.len() == 0 {
        assert(ms.push(m)[0] == m);
        assert(ms.push(m).skip(1) =~= Seq::<(Seq<u8>, Option<Seq<u8>>)>::empty());
        assert(find_member(Seq::<(Seq<u8>, Option<Seq<u8>>)>::empty(), key) is None);
        assert(find_member(ms.push(m), key) == if m.0 == key {
            Option::Some(m.1)
        } else {
            find_member(ms.push(m).skip(1), key)
        });
    } else {
        assert(ms.push(m)[0] == ms[0]);
        assert(ms.push(m).skip(1) =~= ms.skip(1).push(m));
        lemma_find_member_push(ms.skip(1), m, key);
        assert(find_member(ms.push(m), key) == if ms[0].0 == key {
            Option::Some(ms[0].1)
        } else {
            find_member(ms.skip(1).push(m), key)
        });
    }
}

/// The key of the member holding the event timestamp: `ts_utc`.
pub open spec fn ts_key() -> Seq<u8> {
    seq![116u8, 115u8, 95u8, 117u8, 116u8, 99u8]
}

/// The key of the member holding the sensor identifier: `device_id`.
pub open spec fn device_key() -> Seq<u8> {
    seq![100u8, 101u8, 118u8, 105u8, 99u8, 101u8, 95u8, 105u8, 100u8]
}

/// What one log line denotes: the record must be a flat object whose
/// `ts_utc` member is a string reading as an RFC 3339 instant in range;
/// a `device_id` member, when present, must be a string and becomes the
/// event's device. Anything else makes the line denote nothing.
pub open spec fn spec_parse_event(line: Seq<u8>) -> Option<EventModel> {
    match ps_line_members(line) {
        Option::None => Option::None,
        Option::Some(ms) => match find_member(ms, ts_key()) {
            Option::Some(Option::Some(tsv)) => match rfc3339_ms_of(tsv) {
                Option::Some(t) => {
                    if t <= MAX_TS_MS {
                        match find_member(ms, device_key()) {
                            Option::None => Option::Some(
                                EventModel { ts_ms: t, device: Option::None },
                            ),
                            Option::Some(Option::Some(d)) => Option::Some(
                                EventModel { ts_ms: t, device: Option::Some(d) },
                            ),
                            Option::Some(Option::None) => Option::None,
                        }
                    } else {
                        Option::None
                    }
                },
                Option::None => Option::None,
            },
            _ => Option::None,
        },
    }
}

// --- executable reader --------------------------------------------------------

fn esc_code_x(e: u8) -> (r: Option<u8>)
    ensures
        r == esc_code(e),
{
    if e == 34 {
        Option::Some(34)
    } else if e == 92 {
        Option::Some(92)
    } else if e == 47 {
        Option::Some(47)
    } else if e == 98 {
        Option::Some(8)
    } else if e == 102 {
        Option::Some(12)
    } else if e == 110 {
        Option::Some(10)
    } else if e == 114 {
        Option::Some(13)
    } else if e == 116 {
        Option::Some(9)
    } else {
        Option::None
    }
}

fn hex_val_x(b: u8) -> (r: Option<u8>)
    ensures
        r == hex_val(b),
{
    if 48 <= b && b <= 57 {
        Option::Some(b - 48)
    } else if 97 <= b && b <= 102 {
        Option::Some(b - 87)
    } else if 65 <= b && b <= 70 {
        Option::Some(b - 55)
    } else {
        Option::None
    }
}

/// Decode a string body starting just past the opening quote, appending the
/// decoded bytes to `out`; returns the position past the closing quote.
fn parse_str_body(line: &Vec<u8>, start: usize, out: &mut Vec<u8>) -> (r: Option<usize>)
    ensures
        match ps_body(line@, start as int, old(out)@) {
            Option::Some((d, j)) => r is Some && r.unwrap() as int == j && final(out)@ == d,
            Option::None => r is None,
        },
{
    let mut i: usize = start;
    loop
        invariant
            i <= line@.len() || i == start,
            ps_body(line@, start as int, old(out)@) == ps_body(line@, i as int, out@),
        decreases line@.len() - i,
    {
        if i >= line.len() {
            return Option::None;
        }
        let ghost pre_i = i as int;
        let ghost pre_acc = out@;
        let b = line[i];
        if b == 34 {
            return Option::Some(i + 1);
        } else if b == 92 {
            if i + 1 < line.len() {
                match esc_code_x(line[i + 1]) {
                    Option::Some(cb) => {
                        out.push(cb);
                        i = i + 2;
                    },
                    Option::None => {
                        if line.len() - i > 5 && line[i + 1] == 117 && line[i + 2] == 48 && line[i
                            + 3] == 48 {
                            let h1 = hex_val_x(line[i + 4]);
                            let h2 = hex_val_x(line[i + 5]);
                            match (h1, h2) {
                                (Option::Some(a), Option::Some(c)) => {
                                    assert(a < 16 && c < 16);
                                    out.push(a * 16 + c);
                                    i = i + 6;
                                },
                                _ => {
                                    return Option::None;
                                },
                            }
                        } else {
                            return Option::None;
                        }
                    },
                }
            } else {
                return Option::None;
            }
        } else if b >= 0x20 {
            out.push(b);
            i = i + 1;
        } else {
            return Option::None;
        }
        proof {
            assert(ps_body(line@, pre_i, pre_acc) == ps_body(line@, i as int, out@));
        }
    }
}

/// A quoted string starting at `i`; returns the decoded bytes and the
/// position past the closing quote.
fn parse_string(line: &Vec<u8>, i: usize) -> (r: Option<(Vec<u8>, usize)>)
    ensures
        match ps_string(line@, i as int) {
            Option::Some((d, j)) => r is Some && r.unwrap().0@ == d && r.unwrap().1 as int == j,
            Option::None => r is None,
        },
{
    if i < line.len() && line[i] == 34 {
        let mut buf: Vec<u8> = Vec::new();
        match parse_str_body(line, i + 1, &mut buf) {
            Option::Some(j) => Option::Some((buf, j)),
            Option::None => Option::None,
        }
    } else {
        Option::None
    }
}

/// Skip an integer value starting at `i`; returns the position past it.
fn skip_number(line: &Vec<u8>, i: usize) -> (r: Option<usize>)
    ensures
        match ps_number(line@, i as int) {
            Option::Some(j) => r is Some && r.unwrap() as int == j,
            Option::None => r is None,
        },
{
    let mut j: usize = i;
    if j < line.len() && line[j] == 45 {
        j = j + 1;
    }
    if j < line.len() && 48 <= line[j] && line[j] <= 57 {
        let mut k: usize = j;
        loop
            invariant
                j <= k && k <= line@.len(),
                j as int == if 0 <= i && (i as int) < line@.len() && line@[i as int] == 45 {
                    i as int + 1
                } else {
                    i as int
                },
                (j as int) < line@.len() && is_digit_byte(line@[j as int]),
                ps_digits_end(line@, j as int) == ps_digits_end(line@, k as int),
            decreases line@.len() - k,
        {
            if k < line.len() && 48 <= line[k] && line[k] <= 57 {
                k = k + 1;
            } else {
                proof {
                    assert(ps_digits_end(line@, k as int) == k as int);
                }
                return Option::Some(k);
            }
        }
    } else {
        Option::None
    }
}

/// A member value: `Some(bytes)` for a string, `None` for a skipped integer.
fn parse_value(line: &Vec<u8>, i: usize) -> (r: Option<(Option<Vec<u8>>, usize)>)
    ensures
        match ps_value(line@, i as int) {
            Option::Some((v, j)) => {
                &&& r is Some
                &&& r.unwrap().1 as int == j
                &&& match v {
                    Option::Some(d) => r.unwrap().0 is Some && r.unwrap().0.unwrap()@ == d,
                    Option::None => r.unwrap().0 is None,
                }
            },
            Option::None => r is None,
        },
{
    if i < line.len() && line[i] == 34 {
        match parse_string(line, i) {
            Option::Some((d, j)) => Option::Some((Option::Some(d), j)),
            Option::None => Option::None,
        }
    } else {
        match skip_number(line, i) {
            Option::Some(j) => Option::Some((Option::None, j)),
            Option::None => Option::None,
        }
    }
}

/// The model of an executable member: its key and value as sequences.
pub open spec fn member_view(m: (Vec<u8>, Option<Vec<u8>>)) -> (Seq<u8>, Option<Seq<u8>>) {
    (
        m.0@,
        match m.1 {
            Option::Some(v) => Option::Some(v@),
            Option::None => Option::None,
        },
    )
}

/// One `"key":value` member starting at `i`.
fn parse_member(line: &Vec<u8>, i: usize) -> (r: Option<((Vec<u8>, Option<Vec<u8>>), usize)>)
    ensures
        match ps_member(line@, i as int) {
            Option::Some((m, j)) => {
                &&& r is Some
                &&& member_view(r.unwrap().0) == m
                &&& r.unwrap().1 as int == j
            },
            Option::None => r is None,
        },
{
    match parse_string(line, i) {
        Option::None => Option::None,
        Option::Some((k, j)) => {
            if j < line.len() && line[j] == 58 {
                match parse_value(line, j + 1) {
                    Option::None => Option::None,
                    Option::Some((v, m)) => Option::Some(((k, v), m)),
                }
            } else {
                Option::None
            }
        },
    }
}

/// Whether two byte strings are equal.
fn eq_bytes(a: &Vec<u8>, b: &Vec<u8>) -> (r: bool)
    ensures
        r == (a@ == b@),
{
    if a.len() != b.len() {
        return false;
    }
    let mut i: usize = 0;
    while i < a.len()
        invariant
            i <= a@.len(),
            a@.len() == b@.len(),
            forall|k: int| 0 <= k < i ==> a@[k] == b@[k],
        decreases a@.len() - i,
    {
        if a[i] != b[i] {
            return false;
        }
        i = i + 1;
    }
    proof {
        assert(a@ =~= b@);
    }
    true
}

/// The bytes of the `ts_utc` key.
fn ts_key_vec() -> (r: Vec<u8>)
    ensures
        r@ == ts_key(),
{
    let mut v: Vec<u8> = Vec::new();
    v.push(116);
    v.push(115);
    v.push(95);
    v.push(117);
    v.push(116);
    v.push(99);
    proof {
        assert(v@ =~= ts_key());
    }
    v
}

/// The bytes of the `device_id` key.
fn device_key_vec() -> (r: Vec<u8>)
    ensures
        r@ == device_key(),
{
    let mut v: Vec<u8> = Vec::new();
    v.push(100);
    v.push(101);
    v.push(118);
    v.push(105);
    v.push(99);
    v.push(101);
    v.push(95);
    v.push(105);
    v.push(100);
    proof {
        assert(v@ =~= device_key());
    }
    v
}

/// Read one log line. Returns the event it denotes, or `None` for a line
/// that is not a well-formed record with a readable `ts_utc` member — such a
/// line is skipped by `read_all`, never an error.
pub fn parse_event(line: &Vec<u8>) -> (r: Option<PassEvent>)
    ensures
        match spec_parse_event(line@) {
            Option::Some(m) => r is Some && r.unwrap()@ == m && r.unwrap().wf(),
            Option::None => r is None,
        },
{
    if line.len() < 2 {
        return Option::None;
    }
    if line[0] != 123 {
        return Option::None;
    }
    if line.len() == 2 {
        proof {
            if line@[1] == 125 {
                assert(ps_line_members(line@) == Option::Some(
                    Seq::<(Seq<u8>, Option<Seq<u8>>)>::empty(),
                ));
                assert(find_member(Seq::<(Seq<u8>, Option<Seq<u8>>)>::empty(), ts_key()) is None);
            }
        }
        return Option::None;
    }
    let mut i: usize = 1;
    let ghost mut acc: Seq<(Seq<u8>, Option<Seq<u8>>)> = Seq::empty();
    let mut ts_val: Option<Option<Vec<u8>>> = Option::None;
    let mut dev_val: Option<Option<Vec<u8>>> = Option::None;
    loop
        invariant
            1 <= i,
            line@.len() > 2,
            line@[0] == 123,
            ps_members(line@, 1, Seq::<(Seq<u8>, Option<Seq<u8>>)>::empty()) == ps_members(
                line@,
                i as int,
                acc,
            ),
            match ts_val {
                Option::None => find_member(acc, ts_key()) is None,
                Option::Some(Option::Some(v)) => find_member(acc, ts_key()) == Option::Some(
                    Option::Some(v@),
                ),
                Option::Some(Option::None) => find_member(acc, ts_key()) == Option::Some(
                    Option::<Seq<u8>>::None,
                ),
            },
            match dev_val {
                Option::None => find_member(acc, device_key()) is None,
                Option::Some(Option::Some(v)) => find_member(acc, device_key()) == Option::Some(
                    Option::Some(v@),
                ),
                Option::Some(Option::None) => find_member(acc, device_key()) == Option::Some(
                    Option::<Seq<u8>>::None,
                ),
            },
        decreases line@.len() + 1 - i,
    {
        if i > line.len() {
            // A member never parses past the end of the line, so this point
            // is never reached; it only bounds the loop measure.
            proof {
                assert(ps_member(line@, i as int) is None);
            }
            return Option::None;
        }
        match parse_member(line, i) {
            Option::None => {
                return Option::None;
            },
            Option::Some((m, j)) => {
                let j2 = if j > i {
                    j
                } else {
                    i + 1
                };
                let ghost mview = member_view(m);
                let tk = ts_key_vec();
                let dk = device_key_vec();
                let is_ts = eq_bytes(&m.0, &tk);
                let is_dev = eq_bytes(&m.0, &dk);
                proof {
                    lemma_find_member_push(acc, mview, ts_key());
                    lemma_find_member_push(acc, mview, device_key());
                }
                if is_ts {
                    if ts_val.is_none() {
                        ts_val = Option::Some(m.1);
                    }
                } else if is_dev {
                    if dev_val.is_none() {
                        dev_val = Option::Some(m.1);
                    }
                }
                proof {
                    acc = acc.push(mview);
                }
                if j2 < line.len() && line[j2] == 44 {
                    i = j2 + 1;
                } else {
                    // end of the member run
                    if j2 == line.len() - 1 && line[j2] == 125 {
                        proof {
                            assert(ps_members(
                                line@,
                                1,
                                Seq::<(Seq<u8>, Option<Seq<u8>>)>::empty(),
                            ) == Option::Some((acc, j2 as int)));
                            assert(ps_line_members(line@) == Option::Some(acc));
                        }
                        match ts_val {
                            Option::Some(Option::Some(tsv)) => {
                                match parse_rfc3339(&tsv) {
                                    Option::Some(t) => {
                                        if t <= MAX_TS_MS {
                                            match dev_val {
                                                Option::None => {
                                                    return Option::Some(
                                                        PassEvent::new(t, Option::None),
                                                    );
                                                },
                                                Option::Some(Option::Some(d)) => {
                                                    return Option::Some(
                                                        PassEvent::new(t, Option::Some(d)),
                                                    );
                                                },
                                                Option::Some(Option::None) => {
                                                    return Option::None;
                                                },
                                            }
                                        } else {
                                            return Option::None;
                                        }
                                    },
                                    Option::None => {
                                        return Option::None;
                                    },
                                }
                            },
                            _ => {
                                return Option::None;
                            },
                        }
                    } else {
                        return Option::None;
                    }
                }
            },
        }
    }
}

// --- the writer's output always reads back ------------------------------------

proof fn lemma_hex_digit_val(n: u8)
    requires
        n < 16,
    ensures
        hex_val(hex_digit(n)) == Option::Some(n),
{
}

/// A byte of a subrange known to equal `t` is the corresponding byte of `s`.
proof fn lemma_seq_eq_index(s: Seq<u8>, i: int, t: Seq<u8>, k: int)
    requires
        0 <= i,
        0 <= k < t.len(),
        i + t.len() <= s.len(),
        s.subrange(i, i + t.len()) == t,
    ensures
        s[i + k] == t[k],
{
    assert(s.subrange(i, i + t.len())[k] == s[i + k]);
}

/// Decoding undoes the writer's escaping: a string body laid out as the
/// rendering of `d` followed by a closing quote decodes to exactly `d`.
proof fn lemma_body_roundtrip(s: Seq<u8>, i: int, acc: Seq<u8>, d: Seq<u8>)
    requires
        0 <= i,
        i + esc_bytes(d).len() + 1 <= s.len(),
        s.subrange(i, i + esc_bytes(d).len()) == esc_bytes(d),
        s[i + esc_bytes(d).len()] == 34,
    ensures
        ps_body(s, i, acc) == Option::Some((acc + d, i + esc_bytes(d).len() + 1)),
    decreases d.len(),
{
    if d.len() == 0 {
        assert(esc_bytes(d).len() == 0);
        assert(s[i] == 34);
        assert(acc + d =~= acc);
    } else {
        let e0 = esc_byte(d[0]);
        let rest = esc_bytes(d.skip(1));
        assert(esc_bytes(d) == e0 + rest);
        let el = esc_bytes(d).len() as int;
        let l0 = e0.len() as int;
        assert(el == l0 + rest.len());
        assert(s.subrange(i + l0, i + l0 + rest.len()) =~= rest) by {
            assert forall|k: int| 0 <= k < rest.len() implies s.subrange(
                i + l0,
                i + l0 + rest.len(),
            )[k] == rest[k] by {
                lemma_seq_eq_index(s, i, esc_bytes(d), l0 + k);
                assert(s.subrange(i + l0, i + l0 + rest.len())[k] == s[i + (l0 + k)]);
                assert((e0 + rest)[l0 + k] == rest[k]);
            }
        }
        assert(s[i + el] == 34);
        if is_plain_byte(d[0]) {
            assert(l0 == 1);
            lemma_seq_eq_index(s, i, esc_bytes(d), 0);
            assert(s[i + 0] == esc_bytes(d)[0]);
            assert(s[i] == d[0]);
            lemma_body_roundtrip(s, i + 1, acc.push(d[0]), d.skip(1));
            assert(ps_body(s, i, acc) == ps_body(s, i + 1, acc.push(d[0])));
            assert(acc.push(d[0]) + d.skip(1) =~= acc + d);
        } else if d[0] == 34 {
            assert(l0 == 2);
            lemma_seq_eq_index(s, i, esc_bytes(d), 0);
            lemma_seq_eq_index(s, i, esc_bytes(d), 1);
            assert(s[i + 0] == esc_bytes(d)[0] && s[i + 1] == esc_bytes(d)[1]);
            assert(s[i] == 92 && s[i + 1] == 34);
            assert(esc_code(34u8) == Option::Some(34u8));
            lemma_body_roundtrip(s, i + 2, acc.push(34u8), d.skip(1));
            assert(ps_body(s, i, acc) == ps_body(s, i + 2, acc.push(34u8)));
            assert(acc.push(34u8) + d.skip(1) =~= acc + d);
        } else if d[0] == 92 {
            assert(l0 == 2);
            lemma_seq_eq_index(s, i, esc_bytes(d), 0);
            lemma_seq_eq_index(s, i, esc_bytes(d), 1);
            assert(s[i + 0] == esc_bytes(d)[0] && s[i + 1] == esc_bytes(d)[1]);
            assert(s[i] == 92 && s[i + 1] == 92);
            assert(esc_code(92u8) == Option::Some(92u8));
            lemma_body_roundtrip(s, i + 2, acc.push(92u8), d.skip(1));
            assert(ps_body(s, i, acc) == ps_body(s, i + 2, acc.push(92u8)));
            assert(acc.push(92u8) + d.skip(1) =~= acc + d);
        } else {
            assert(l0 == 6);
            lemma_seq_eq_index(s, i, esc_bytes(d), 0);
            lemma_seq_eq_index(s, i, esc_bytes(d), 1);
            lemma_seq_eq_index(s, i, esc_bytes(d), 2);
            lemma_seq_eq_index(s, i, esc_bytes(d), 3);
            lemma_seq_eq_index(s, i, esc_bytes(d), 4);
            lemma_seq_eq_index(s, i, esc_bytes(d), 5);
            assert(s[i + 0] == esc_bytes(d)[0] && s[i + 1] == esc_bytes(d)[1] && s[i + 2]
                == esc_bytes(d)[2] && s[i + 3] == esc_bytes(d)[3] && s[i + 4] == esc_bytes(d)[4]
                && s[i + 5] == esc_bytes(d)[5]);
            assert(s[i] == 92 && s[i + 1] == 117 && s[i + 2] == 48 && s[i + 3] == 48);
            assert(s[i + 4] == hex_digit(d[0] / 16) && s[i + 5] == hex_digit(d[0] % 16));
            assert(esc_code(117u8) is None);
            lemma_hex_digit_val(d[0] / 16);
            lemma_hex_digit_val(d[0] % 16);
            assert((d[0] / 16) * 16 + (d[0] % 16) == d[0]);
            lemma_body_roundtrip(s, i + 6, acc.push(d[0]), d.skip(1));
            assert(ps_body(s, i, acc) == ps_body(s, i + 6, acc.push(d[0])));
            assert(acc.push(d[0]) + d.skip(1) =~= acc + d);
        }
    }
}

/// A quoted, escaped rendering of `d` reads back as exactly `d`.
proof fn lemma_string_roundtrip(s: Seq<u8>, i: int, d: Seq<u8>)
    requires
        0 <= i,
        i + 1 + esc_bytes(d).len() + 1 <= s.len(),
        s[i] == 34,
        s.subrange(i + 1, i + 1 + esc_bytes(d).len()) == esc_bytes(d),
        s[i + 1 + esc_bytes(d).len()] == 34,
    ensures
        ps_string(s, i) == Option::Some((d, i + esc_bytes(d).len() + 2)),
{
    lemma_body_roundtrip(s, i + 1, Seq::empty(), d);
    assert(Seq::<u8>::empty() + d =~= d);
}

proof fn lemma_keys_plain()
    ensures
        esc_bytes(ts_key()) == ts_key(),
        esc_bytes(device_key()) == device_key(),
        ts_key() != device_key(),
{
    assert(ts_key()[0] == 116 && ts_key()[1] == 115 && ts_key()[2] == 95 && ts_key()[3] == 117
        && ts_key()[4] == 116 && ts_key()[5] == 99);
    assert(device_key()[0] == 100 && device_key()[1] == 101 && device_key()[2] == 118
        && device_key()[3] == 105 && device_key()[4] == 99 && device_key()[5] == 101
        && device_key()[6] == 95 && device_key()[7] == 105 && device_key()[8] == 100);
    assert forall|k: int| 0 <= k < ts_key().len() implies is_plain_byte(#[trigger] ts_key()[k]) by {
        assert(0 <= k < 6);
    }
    assert forall|k: int|
        0 <= k < device_key().len() implies is_plain_byte(#[trigger] device_key()[k]) by {
        assert(0 <= k < 9);
    }
    lemma_esc_bytes_plain(ts_key());
    lemma_esc_bytes_plain(device_key());
    assert(ts_key().len() != device_key().len());
}

/// The writer's line reads back as exactly the event it was written from.
/// The facts about `rfc`, the rendering of the timestamp, are the ones the
/// time formatter guarantees about its result.
#[verifier::rlimit(100)]
pub proof fn lemma_encode_parse_roundtrip(e: EventModel, rfc: Seq<u8>)
    requires
        e.ts_ms <= MAX_TS_MS,
        rfc == rfc3339_bytes_of(e.ts_ms),
        rfc.len() > 0,
        forall|i: int| 0 <= i < rfc.len() ==> is_plain_byte(#[trigger] rfc[i]),
        rfc3339_ms_of(rfc) == Option::Some(e.ts_ms),
    ensures
        spec_parse_event(spec_encode_event(e)) == Option::Some(e),
{
    let s = spec_encode_event(e);
    let tk = ts_key();
    let dk = device_key();
    let rr = rfc.len() as int;
    lemma_keys_plain();
    lemma_esc_bytes_plain(rfc);
    let a = seq![123u8, 34u8] + tk;
    let b = a + seq![34u8, 58u8, 34u8];
    let c = b + rfc;
    let h = c + seq![34u8];
    assert(h.len() == 12 + rr);
    match e.device {
        Option::None => {
            assert(s == h + seq![125u8]);
            assert(s.len() == 13 + rr);
            assert(s[0] == 123 && s[1] == 34);
            assert(s.subrange(2, 8) =~= tk) by {
                assert forall|k: int| 0 <= k < 6 implies s.subrange(2, 8)[k] == tk[k] by {
                    assert(s.subrange(2, 8)[k] == s[2 + k]);
                    assert(a[2 + k] == tk[k]);
                }
            }
            assert(s[8] == 34 && s[9] == 58 && s[10] == 34);
            assert(s.subrange(11, 11 + rr) =~= rfc) by {
                assert forall|k: int| 0 <= k < rr implies s.subrange(11, 11 + rr)[k] == rfc[k] by {
                    assert(s.subrange(11, 11 + rr)[k] == s[11 + k]);
                    assert(c[11 + k] == rfc[k]);
                }
            }
            assert(s[11 + rr] == 34);
            assert(s[12 + rr] == 125);
            lemma_string_roundtrip(s, 1, tk);
            assert(ps_string(s, 1) == Option::Some((tk, 9int)));
            lemma_string_roundtrip(s, 10, rfc);
            assert(ps_string(s, 10) == Option::Some((rfc, 12 + rr)));
            assert(ps_value(s, 10) == Option::Some((Option::Some(rfc), 12 + rr)));
            let m1 = (tk, Option::Some(rfc));
            assert(ps_member(s, 1) == Option::Some((m1, 12 + rr)));
            let ms = Seq::<(Seq<u8>, Option<Seq<u8>>)>::empty().push(m1);
            assert(ps_members(s, 1, Seq::<(Seq<u8>, Option<Seq<u8>>)>::empty()) == Option::Some(
                (ms, 12 + rr),
            ));
            assert(ps_line_members(s) == Option::Some(ms));
            assert(find_member(ms, tk) == Option::Some(Option::Some(rfc)));
            assert(ms.skip(1) =~= Seq::<(Seq<u8>, Option<Seq<u8>>)>::empty());
            assert(ms[0] == m1 && m1.0 == tk && tk != dk);
            assert(find_member(Seq::<(Seq<u8>, Option<Seq<u8>>)>::empty(), dk) is None);
            assert(find_member(ms, dk) is None);
            assert(spec_parse_event(s) == Option::Some(EventModel { ts_ms: e.ts_ms, device: Option::None }));
        },
        Option::Some(dd) => {
            let ee = esc_bytes(dd).len() as int;
            let p = h + seq![44u8, 34u8];
            let q = p + dk;
            let u = q + seq![34u8, 58u8, 34u8];
            let w = u + esc_bytes(dd);
            assert(s == w + seq![34u8, 125u8]);
            assert(s.len() == 28 + rr + ee);
            assert(s[0] == 123 && s[1] == 34);
            assert(s.subrange(2, 8) =~= tk) by {
                assert forall|k: int| 0 <= k < 6 implies s.subrange(2, 8)[k] == tk[k] by {
                    assert(s.subrange(2, 8)[k] == s[2 + k]);
                    assert(a[2 + k] == tk[k]);
                }
            }
            assert(s[8] == 34 && s[9] == 58 && s[10] == 34);
            assert(s.subrange(11, 11 + rr) =~= rfc) by {
                assert forall|k: int| 0 <= k < rr implies s.subrange(11, 11 + rr)[k] == rfc[k] by {
                    assert(s.subrange(11, 11 + rr)[k] == s[11 + k]);
                    assert(c[11 + k] == rfc[k]);
                }
            }
            assert(s[11 + rr] == 34);
            assert(s[12 + rr] == 44 && s[13 + rr] == 34);
            assert(s.subrange(14 + rr, 23 + rr) =~= dk) by {
                assert forall|k: int| 0 <= k < 9 implies s.subrange(14 + rr, 23 + rr)[k] == dk[k] by {
                    assert(s.subrange(14 + rr, 23 + rr)[k] == s[14 + rr + k]);
                    assert(q[14 + rr + k] == dk[k]);
                }
            }
            assert(s[23 + rr] == 34 && s[24 + rr] == 58 && s[25 + rr] == 34);
            assert(s.subrange(26 + rr, 26 + rr + ee) =~= esc_bytes(dd)) by {
                assert forall|k: int|
                    0 <= k < ee implies s.subrange(26 + rr, 26 + rr + ee)[k] == esc_bytes(dd)[k] by {
                    assert(s.subrange(26 + rr, 26 + rr + ee)[k] == s[26 + rr + k]);
                    assert(w[26 + rr + k] == esc_bytes(dd)[k]);
                }
            }
            assert(s[26 + rr + ee] == 34);
            assert(s[27 + rr + ee] == 125);
            lemma_string_roundtrip(s, 1, tk);
            assert(ps_string(s, 1) == Option::Some((tk, 9int)));
            lemma_string_roundtrip(s, 10, rfc);
            assert(ps_value(s, 10) == Option::Some((Option::Some(rfc), 12 + rr)));
            let m1 = (tk, Option::Some(rfc));
            assert(ps_member(s, 1) == Option::Some((m1, 12 + rr)));
            lemma_string_roundtrip(s, 13 + rr, dk);
            assert(ps_string(s, 13 + rr) == Option::Some((dk, 24 + rr)));
            lemma_string_roundtrip(s, 25 + rr, dd);
            assert(ps_string(s, 25 + rr) == Option::Some((dd, 27 + rr + ee)));
            assert(ps_value(s, 25 + rr) == Option::Some((Option::Some(dd), 27 + rr + ee)));
            let m2 = (dk, Option::Some(dd));
            assert(ps_member(s, 13 + rr) == Option::Some((m2, 27 + rr + ee)));
            let ms0 = Seq::<(Seq<u8>, Option<Seq<u8>>)>::empty().push(m1);
            let ms = ms0.push(m2);
            assert(ps_members(s, 1, Seq::<(Seq<u8>, Option<Seq<u8>>)>::empty()) == ps_members(
                s,
                13 + rr,
                ms0,
            ));
            assert(ps_members(s, 13 + rr, ms0) == Option::Some((ms, 27 + rr + ee)));
            assert(ps_line_members(s) == Option::Some(ms));
            assert(ms[0] == m1 && ms[1] == m2);
            assert(find_member(ms, tk) == Option::Some(Option::Some(rfc)));
            assert(ms.skip(1) =~= Seq::<(Seq<u8>, Option<Seq<u8>>)>::empty().push(m2));
            assert(find_member(ms.skip(1), dk) == Option::Some(Option::Some(dd)));
            assert(ms.skip(1).skip(1) =~= Seq::<(Seq<u8>, Option<Seq<u8>>)>::empty());
            assert(find_member(ms, dk) == Option::Some(Option::Some(dd)));
            assert(spec_parse_event(s) == Option::Some(
                EventModel { ts_ms: e.ts_ms, device: Option::Some(dd) },
            ));
        },
    }
}

/// The record line written for an event: `ts_utc` always, `device_id` when
/// the sensor has one.
pub open spec fn spec_encode_event(e: EventModel) -> Seq<u8> {
    let head = seq![123u8, 34u8] + ts_key() + seq![34u8, 58u8, 34u8] + rfc3339_bytes_of(e.ts_ms)
        + seq![34u8];
    match e.device {
        Option::None => head + seq![125u8],
        Option::Some(d) => head + seq![44u8, 34u8] + device_key() + seq![34u8, 58u8, 34u8]
            + esc_bytes(d) + seq![34u8, 125u8],
    }
}

/// Write the one-line record for an event. The second ensures clause is the
/// round trip: reading the written bytes back yields the same event.
pub fn encode_event(e: &PassEvent) -> (r: Vec<u8>)
    requires
        e.wf(),
    ensures
        r@ == spec_encode_event(e@),
        spec_parse_event(r@) == Option::Some(e@),
{
    let mut out: Vec<u8> = Vec::new();
    out.push(123);
    out.push(34);
    let tk = ts_key_vec();
    out.extend_from_slice(tk.as_slice());
    out.push(34);
    out.push(58);
    out.push(34);
    let rfc = format_rfc3339(e.ts_ms);
    out.extend_from_slice(rfc.as_slice());
    out.push(34);
    match &e.device_id {
        Option::None => {
            out.push(125);
            proof {
                assert(out@ =~= spec_encode_event(e@));
                lemma_encode_parse_roundtrip(e@, rfc@);
            }
        },
        Option::Some(d) => {
            out.push(44);
            out.push(34);
            let dk = device_key_vec();
            out.extend_from_slice(dk.as_slice());
            out.push(34);
            out.push(58);
            out.push(34);
            escape_into(&mut out, d);
            out.push(34);
            out.push(125);
            proof {
                assert(out@ =~= spec_encode_event(e@));
                lemma_encode_parse_roundtrip(e@, rfc@);
            }
        },
    }
    out
}

} // verus!
