use bridgething::gateway_msgs::{keepalive_reply, BrightnessMode, KeepalivePing};
use bridgething::peers::{
    auto_nack_for_failed_decode, nack_with_id, next_retry_delay_ms, Address, EnvelopeProbe, GatewayLinks,
    GatewayType, PendingRequests, UnsupportedReply, RETRY_DELAY_CAP_MS, RETRY_DELAY_START_MS,
};

fn addr(last: u8) -> Address {
    Address::new([0xFE, 0xFE, 0x00, 0x00, 0x00, last])
}

#[test]
fn a_refused_request_is_answered_rather_than_dropped() {
    let request_id: u128 = 0x0197_5a1e_0000_7000_8000_0000_0000_00aa;
    let probe = EnvelopeProbe { is_request: true, id: Some(request_id) };
    let reply = auto_nack_for_failed_decode(&probe).expect("a reply");
    assert_eq!(reply.request_id, request_id);
    assert_ne!(reply.id, 0);
    assert_eq!((reply.id >> 76) & 0xf, 7, "a fresh time-ordered id");
}

#[test]
fn only_a_request_with_an_id_is_refused() {
    assert_eq!(
        nack_with_id(&EnvelopeProbe { is_request: true, id: Some(5) }, 9),
        Some(UnsupportedReply { id: 9, request_id: 5 })
    );
    assert_eq!(nack_with_id(&EnvelopeProbe { is_request: false, id: Some(5) }, 9), None);
    assert_eq!(nack_with_id(&EnvelopeProbe { is_request: true, id: None }, 9), None);
    assert!(auto_nack_for_failed_decode(&EnvelopeProbe { is_request: false, id: Some(5) }).is_none());
}

#[test]
fn the_radio_retry_delay_doubles_up_to_the_cap() {
    assert_eq!(next_retry_delay_ms(RETRY_DELAY_START_MS), 500);
    assert_eq!(next_retry_delay_ms(16_000), RETRY_DELAY_CAP_MS);
    assert_eq!(next_retry_delay_ms(RETRY_DELAY_CAP_MS), RETRY_DELAY_CAP_MS);
    assert_eq!(next_retry_delay_ms(u64::MAX), RETRY_DELAY_CAP_MS);
}

#[test]
fn a_completed_request_no_longer_waits() {
    let mut pending: PendingRequests<&str> = PendingRequests::new();
    assert_eq!(pending.insert(1, None, "a"), None);
    assert_eq!(pending.insert(1, None, "b"), Some("a"));
    assert_eq!(pending.complete(1), Some("b"));
    assert_eq!(pending.complete(1), None);
}

#[test]
fn a_peer_going_away_fails_exactly_the_requests_it_strands() {
    let mut links: GatewayLinks<&str> = GatewayLinks::new();
    links.owners.register(addr(1), GatewayType::Network);
    links.owners.register(addr(2), GatewayType::Rfcomm);
    let _ = links.pending.insert(10, Some(addr(1)), "to one");
    let _ = links.pending.insert(11, Some(addr(2)), "to two");
    let _ = links.pending.insert(12, None, "broadcast");

    assert!(links.disconnect(addr(1), GatewayType::Rfcomm).is_empty(), "not the owner: nothing changes");
    assert_eq!(links.disconnect(addr(1), GatewayType::Network), vec!["to one"]);
    assert_eq!(links.pending.complete(11), Some("to two"));
    let _ = links.pending.insert(11, Some(addr(2)), "to two");
    let mut failed = links.disconnect(addr(2), GatewayType::Rfcomm);
    failed.sort();
    assert_eq!(failed, vec!["broadcast", "to two"]);
    assert_eq!(links.pending.complete(12), None);
}

#[test]
fn a_keepalive_is_answered_with_its_own_number() {
    assert_eq!(keepalive_reply(KeepalivePing { seq: 41 }).seq, 41);
    assert_eq!(BrightnessMode::default_mode(), BrightnessMode::Auto);
}
