use rally_timer::event::PassEvent;
use rally_timer::fanout::{Broadcaster, StreamItem};

fn ev(ts_ms: u64) -> PassEvent {
    PassEvent::new(ts_ms, None)
}

#[test]
fn fast_subscriber_receives_every_event_in_order() {
    let mut b = Broadcaster::new(16);
    let s = b.subscribe();
    for t in [10u64, 20, 30] {
        b.publish(&ev(t));
    }
    assert_eq!(b.poll(s), Some(StreamItem::Event(ev(10))));
    assert_eq!(b.poll(s), Some(StreamItem::Event(ev(20))));
    assert_eq!(b.poll(s), Some(StreamItem::Event(ev(30))));
    assert_eq!(b.poll(s), None);
}

#[test]
fn late_subscriber_sees_no_backlog() {
    let mut b = Broadcaster::new(16);
    b.publish(&ev(1));
    let s = b.subscribe();
    assert_eq!(b.poll(s), None);
    b.publish(&ev(2));
    assert_eq!(b.poll(s), Some(StreamItem::Event(ev(2))));
}

#[test]
fn slow_subscriber_gets_lag_marker_not_unbounded_queue() {
    let mut b = Broadcaster::new(2);
    let s = b.subscribe();
    for t in [1u64, 2, 3, 4] {
        b.publish(&ev(t));
    }
    // the queue held the first two; the rest were dropped and lag was marked
    assert_eq!(b.poll(s), Some(StreamItem::Event(ev(1))));
    assert_eq!(b.poll(s), Some(StreamItem::Event(ev(2))));
    assert_eq!(b.poll(s), Some(StreamItem::Lagged));
    assert_eq!(b.poll(s), None);
    // the handle keeps operating after the marker
    b.publish(&ev(5));
    assert_eq!(b.poll(s), Some(StreamItem::Event(ev(5))));
}

#[test]
fn one_lagged_subscriber_does_not_disturb_another() {
    let mut b = Broadcaster::new(1);
    let slow = b.subscribe();
    let fast = b.subscribe();
    b.publish(&ev(1));
    assert_eq!(b.poll(fast), Some(StreamItem::Event(ev(1))));
    b.publish(&ev(2));
    assert_eq!(b.poll(fast), Some(StreamItem::Event(ev(2))));
    b.publish(&ev(3));
    assert_eq!(b.poll(fast), Some(StreamItem::Event(ev(3))));
    // the slow one kept only the first and was told about the loss
    assert_eq!(b.poll(slow), Some(StreamItem::Event(ev(1))));
    assert_eq!(b.poll(slow), Some(StreamItem::Lagged));
}

#[test]
fn publish_with_no_subscribers_is_a_deliberate_no_op() {
    let mut b = Broadcaster::new(4);
    b.publish(&ev(1));
    assert_eq!(b.subscriber_count(), 0);
}

#[test]
fn unsubscribed_handle_receives_nothing() {
    let mut b = Broadcaster::new(4);
    let s1 = b.subscribe();
    let s2 = b.subscribe();
    b.unsubscribe(s1);
    b.publish(&ev(9));
    assert_eq!(b.poll(s1), None);
    assert_eq!(b.poll(s2), Some(StreamItem::Event(ev(9))));
}
