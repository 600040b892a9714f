use rally_timer::event::PassEvent;
use rally_timer::remote::{
    encode_payload, pass_topic, sink_reaction, status_message, status_topic, u64_to_dec,
    SinkEvent, SinkReaction,
};

#[test]
fn topics_follow_the_prefix_device_convention() {
    let prefix = b"rally/v1/gates/".to_vec();
    let device = b"gate01".to_vec();
    assert_eq!(pass_topic(&prefix, &device), b"rally/v1/gates/gate01/pass".to_vec());
    assert_eq!(status_topic(&prefix, &device), b"rally/v1/gates/gate01/status".to_vec());
}

#[test]
fn prefix_without_trailing_slash_works_too() {
    assert_eq!(
        pass_topic(&b"rally/v1/gates".to_vec(), &b"g2".to_vec()),
        b"rally/v1/gates/g2/pass".to_vec()
    );
}

#[test]
fn payload_carries_timestamp_twice_and_the_device() {
    let e = PassEvent::new(1_700_000_000_000, Some(b"gate01".to_vec()));
    assert_eq!(
        encode_payload(&e),
        b"{\"ts_utc\":\"2023-11-14T22:13:20.000Z\",\"ts_ms\":1700000000000,\"device_id\":\"gate01\"}"
            .to_vec()
    );
}

#[test]
fn payload_without_device() {
    let e = PassEvent::new(0, None);
    assert_eq!(
        encode_payload(&e),
        b"{\"ts_utc\":\"1970-01-01T00:00:00.000Z\",\"ts_ms\":0}".to_vec()
    );
}

#[test]
fn decimal_rendering_is_exact() {
    assert_eq!(u64_to_dec(0), b"0".to_vec());
    assert_eq!(u64_to_dec(7), b"7".to_vec());
    assert_eq!(u64_to_dec(1_700_000_000_000), b"1700000000000".to_vec());
    assert_eq!(u64_to_dec(u64::MAX), b"18446744073709551615".to_vec());
}

#[test]
fn liveness_messages() {
    assert_eq!(status_message(true), b"UP".to_vec());
    assert_eq!(status_message(false), b"DOWN".to_vec());
}

#[test]
fn sink_reactions_to_connection_events() {
    assert_eq!(sink_reaction(&SinkEvent::Connected), SinkReaction::AnnounceUp);
    assert_eq!(sink_reaction(&SinkEvent::RemoteDisconnect), SinkReaction::Continue);
    assert_eq!(sink_reaction(&SinkEvent::Fault), SinkReaction::Backoff);
    assert_eq!(sink_reaction(&SinkEvent::OtherTraffic), SinkReaction::Continue);
}
