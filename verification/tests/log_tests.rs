use rally_timer::codec::encode_event;
use rally_timer::event::PassEvent;
use rally_timer::log::read_all;

fn ev(ts_ms: u64, device: Option<&str>) -> PassEvent {
    PassEvent::new(ts_ms, device.map(|d| d.as_bytes().to_vec()))
}

#[test]
fn no_lines_yield_no_events() {
    // a log file that does not exist yet is simply no lines — not an error
    let lines: Vec<Vec<u8>> = Vec::new();
    assert_eq!(read_all(&lines), Vec::<PassEvent>::new());
}

#[test]
fn append_then_read_contains_the_event() {
    let e1 = ev(1_700_000_000_000, Some("gate01"));
    let e2 = ev(1_700_000_001_500, Some("gate01"));
    let lines = vec![encode_event(&e1), encode_event(&e2)];
    assert_eq!(read_all(&lines), vec![e1, e2]);
}

#[test]
fn truncated_trailing_line_is_skipped() {
    let e1 = ev(1_000, None);
    let e2 = ev(2_000, None);
    let full = encode_event(&e2);
    let truncated = full[..full.len() - 7].to_vec();
    let lines = vec![encode_event(&e1), truncated];
    assert_eq!(read_all(&lines), vec![e1]);
}

#[test]
fn corrupted_middle_line_is_skipped_and_order_kept() {
    let e1 = ev(1_000, None);
    let e3 = ev(3_000, None);
    let lines = vec![
        encode_event(&e1),
        b"\x00garbage\x7f".to_vec(),
        encode_event(&e3),
    ];
    assert_eq!(read_all(&lines), vec![e1, e3]);
}

#[test]
fn empty_lines_are_skipped() {
    let e = ev(5_000, None);
    let lines = vec![Vec::new(), encode_event(&e), Vec::new()];
    assert_eq!(read_all(&lines), vec![e]);
}
