use rally_timer::codec::{encode_event, parse_event};
use rally_timer::event::PassEvent;

fn ev(ts_ms: u64, device: Option<&str>) -> PassEvent {
    PassEvent::new(ts_ms, device.map(|d| d.as_bytes().to_vec()))
}

#[test]
fn encode_without_device_exact_bytes() {
    let rec = encode_event(&ev(0, None));
    assert_eq!(rec, b"{\"ts_utc\":\"1970-01-01T00:00:00.000Z\"}".to_vec());
}

#[test]
fn encode_with_device_exact_bytes() {
    let rec = encode_event(&ev(1_700_000_000_000, Some("gate01")));
    assert_eq!(
        rec,
        b"{\"ts_utc\":\"2023-11-14T22:13:20.000Z\",\"device_id\":\"gate01\"}".to_vec()
    );
}

#[test]
fn roundtrip_keeps_millisecond_timestamp() {
    let e = ev(1_700_000_000_123, None);
    let back = parse_event(&encode_event(&e)).expect("own record must parse");
    assert_eq!(back.ts_ms, 1_700_000_000_123);
    assert_eq!(back, e);
}

#[test]
fn roundtrip_with_device_identifier() {
    let e = ev(42, Some("gate01"));
    assert_eq!(parse_event(&encode_event(&e)), Some(e));
}

#[test]
fn roundtrip_escapes_quotes_backslashes_and_control_bytes() {
    let mut id = b"a\"b\\c".to_vec();
    id.push(0x01);
    id.push(0xff);
    let e = PassEvent::new(7, Some(id));
    assert_eq!(parse_event(&encode_event(&e)), Some(e));
}

#[test]
fn unknown_string_and_number_members_are_ignored() {
    let line =
        b"{\"ts_utc\":\"2023-11-14T22:13:20.000Z\",\"ts_ms\":1700000000000,\"note\":\"x\"}".to_vec();
    let got = parse_event(&line).expect("forward-compatible record must parse");
    assert_eq!(got.ts_ms, 1_700_000_000_000);
    assert_eq!(got.device_id, None);
}

#[test]
fn negative_number_member_is_skipped() {
    let line = b"{\"ts_utc\":\"1970-01-01T00:00:01.000Z\",\"offset\":-5}".to_vec();
    assert_eq!(parse_event(&line).map(|e| e.ts_ms), Some(1000));
}

#[test]
fn unicode_escape_decodes_to_byte() {
    let line = b"{\"ts_utc\":\"1970-01-01T00:00:00.000Z\",\"device_id\":\"\\u0041\\u00ff\"}".to_vec();
    let got = parse_event(&line).expect("escaped record must parse");
    assert_eq!(got.device_id, Some(vec![0x41, 0xff]));
}

#[test]
fn missing_ts_utc_makes_line_unparseable() {
    assert_eq!(parse_event(&b"{\"device_id\":\"gate01\"}".to_vec()), None);
    assert_eq!(parse_event(&b"{}".to_vec()), None);
}

#[test]
fn malformed_lines_are_rejected() {
    assert_eq!(parse_event(&b"".to_vec()), None);
    assert_eq!(parse_event(&b"not json".to_vec()), None);
    assert_eq!(parse_event(&b"{\"ts_utc\":12345}".to_vec()), None);
    assert_eq!(parse_event(&b"{\"ts_utc\":\"not a time\"}".to_vec()), None);
    // truncated trailing write
    assert_eq!(parse_event(&b"{\"ts_utc\":\"2023-11-1".to_vec()), None);
    // junk after the closing brace
    assert_eq!(
        parse_event(&b"{\"ts_utc\":\"1970-01-01T00:00:00.000Z\"}x".to_vec()),
        None
    );
    // bad escape and out-of-range unicode escape
    assert_eq!(
        parse_event(&b"{\"ts_utc\":\"1970-01-01T00:00:00.000Z\",\"device_id\":\"\\q\"}".to_vec()),
        None
    );
    assert_eq!(
        parse_event(&b"{\"ts_utc\":\"1970-01-01T00:00:00.000Z\",\"device_id\":\"\\u0100\"}".to_vec()),
        None
    );
}

#[test]
fn pre_epoch_timestamp_is_rejected() {
    assert_eq!(parse_event(&b"{\"ts_utc\":\"1969-12-31T23:59:59.000Z\"}".to_vec()), None);
}

#[test]
fn rfc3339_offset_form_is_read_back() {
    // a foreign writer may use a numeric offset instead of `Z`
    let line = b"{\"ts_utc\":\"2023-11-14T23:13:20.000+01:00\"}".to_vec();
    assert_eq!(parse_event(&line).map(|e| e.ts_ms), Some(1_700_000_000_000));
}
