use rally_timer::event::PassEvent;
use rally_timer::fanout::StreamItem;
use rally_timer::log::read_all;
use rally_timer::pipeline::Pipeline;

#[test]
fn noise_then_two_passes_within_window_yield_one_record() {
    // lines arriving 10 ms apart with a 1000 ms window
    let mut p = Pipeline::new(1000, None, 16);
    let s = p.bcast.subscribe();
    let mut logged: Vec<Vec<u8>> = Vec::new();
    let inputs: [(&[u8], u64); 3] = [(b"X\n", 0), (b"P\n", 10), (b"P\n", 20)];
    for (line, t) in inputs {
        if let Some((e, rec)) = p.offer_line(&line.to_vec(), t) {
            logged.push(rec);
            p.confirm_appended(&e);
        }
    }
    // one accepted event (the first P), the second P rejected, X ignored
    assert_eq!(logged.len(), 1);
    let events = read_all(&logged);
    assert_eq!(events, vec![PassEvent::new(10, None)]);
    assert_eq!(p.bcast.poll(s), Some(StreamItem::Event(PassEvent::new(10, None))));
    assert_eq!(p.bcast.poll(s), None);
}

#[test]
fn zero_window_accepts_consecutive_passes() {
    let mut p = Pipeline::new(0, None, 16);
    let mut logged: Vec<Vec<u8>> = Vec::new();
    for t in [100u64, 110] {
        if let Some((e, rec)) = p.offer_line(&b"P\n".to_vec(), t) {
            logged.push(rec);
            p.confirm_appended(&e);
        }
    }
    assert_eq!(logged.len(), 2);
    assert_eq!(
        read_all(&logged),
        vec![PassEvent::new(100, None), PassEvent::new(110, None)]
    );
}

#[test]
fn nothing_reaches_a_subscriber_before_the_append_is_confirmed() {
    let mut p = Pipeline::new(0, None, 16);
    let s = p.bcast.subscribe();
    let accepted = p.offer_line(&b"P\n".to_vec(), 50).expect("pass accepted");
    // accepted but not yet durably appended: the subscriber sees nothing
    assert_eq!(p.bcast.poll(s), None);
    p.confirm_appended(&accepted.0);
    assert_eq!(p.bcast.poll(s), Some(StreamItem::Event(PassEvent::new(50, None))));
}

#[test]
fn device_identifier_is_stamped_on_accepted_events() {
    let mut p = Pipeline::new(1000, Some(b"gate01".to_vec()), 4);
    let (e, rec) = p.offer_line(&b"  P \r\n".to_vec(), 77).expect("pass accepted");
    assert_eq!(e, PassEvent::new(77, Some(b"gate01".to_vec())));
    let events = read_all(&vec![rec]);
    assert_eq!(events, vec![e]);
}

#[test]
fn unrecognized_tokens_produce_no_event_and_no_error() {
    let mut p = Pipeline::new(0, None, 4);
    for line in [&b""[..], b"\n", b"PP\n", b"p\n", b" pass \n", b"Q\n"] {
        assert!(p.offer_line(&line.to_vec(), 5).is_none());
    }
    // the filter was not touched by any of them: a real pass still passes
    assert!(p.offer_line(&b"P\n".to_vec(), 6).is_some());
}
