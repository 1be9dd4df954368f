use kdeconnect::device::{CandidateDecision, DeviceManager};
use kdeconnect::engine::{
    broadcaster_tick, classify_inbound, handle_udp_datagram, new_pair, prepare_send, tls_role,
    InboundAction, NetworkPacketWithPayload, Role, TlsRole, UdpDecision,
};
use kdeconnect::event::{EventDebouncer, SystemEvent};
use kdeconnect::identity::{parse_identity, parse_identity_prefix, IdentityPacket};
use kdeconnect::packet::{decode_packet, encode_packet, PacketError};
use kdeconnect::ports::{choose_main_port, choose_payload_port, main_port_candidates};

fn b(s: &str) -> Vec<u8> {
    s.as_bytes().to_vec()
}

fn identity(device_id: &str, name: &str, port: Option<u16>) -> IdentityPacket {
    IdentityPacket {
        device_id: b(device_id),
        device_name: b(name),
        device_type: b("phone"),
        protocol_version: 7,
        incoming_capabilities: vec![],
        outgoing_capabilities: vec![],
        tcp_port: port,
    }
}

// --- port selection ---

#[test]
fn main_port_skips_occupied_and_takes_last() {
    // Ports 1716..=1763 occupied: the core binds 1764.
    let taken: Vec<u16> = (1716..=1763).collect();
    assert_eq!(choose_main_port(&taken), Some(1764));
}

#[test]
fn main_port_fails_when_all_occupied() {
    let taken: Vec<u16> = (1716..=1764).collect();
    assert_eq!(choose_main_port(&taken), None);
}

#[test]
fn main_port_prefers_first_free() {
    assert_eq!(choose_main_port(&vec![]), Some(1716));
    assert_eq!(choose_main_port(&vec![1716, 1717]), Some(1718));
}

#[test]
fn payload_port_starts_above_main_range() {
    assert_eq!(choose_payload_port(&vec![]), Some(1765));
    assert_eq!(choose_payload_port(&vec![1765]), Some(1766));
}

#[test]
fn main_port_candidates_cover_range_in_order() {
    let c = main_port_candidates();
    assert_eq!(c.first(), Some(&1716));
    assert_eq!(c.last(), Some(&1764));
    assert_eq!(c.len(), 49);
}

// --- registry ---

#[test]
fn registry_add_query_count() {
    let mut m = DeviceManager::new(b("AAAA"));
    assert_eq!(m.active_device_count(), 0);
    assert!(!m.query_device(&b("B1")));
    let (cid, evicted) = m.add_device(&b("B1"), &b("B"));
    assert_eq!(evicted, None);
    assert!(m.query_device(&b("B1")));
    assert_eq!(m.active_device_count(), 1);
    let (_cid2, _) = m.add_device(&b("C2"), &b("C"));
    assert_eq!(m.active_device_count(), 2);
    assert!(m.remove_device(&b("B1"), cid));
    assert_eq!(m.active_device_count(), 1);
    assert!(!m.query_device(&b("B1")));
}

#[test]
fn registry_replacement_supersedes_old_session() {
    let mut m = DeviceManager::new(b("AAAA"));
    let (cid1, _) = m.add_device(&b("B1"), &b("B"));
    // The same device registers again (the race's later winner).
    let (cid2, evicted) = m.add_device(&b("B1"), &b("B"));
    assert_ne!(cid1, cid2);
    assert_eq!(evicted, Some(cid1));
    assert_eq!(m.active_device_count(), 1);
    // The superseded session's teardown misses the guard: no-op.
    assert!(!m.remove_device(&b("B1"), cid1));
    assert_eq!(m.active_device_count(), 1);
    // Exactly the live session's teardown evicts.
    assert!(m.remove_device(&b("B1"), cid2));
    assert_eq!(m.active_device_count(), 0);
    // A second identical teardown is a no-op too.
    assert!(!m.remove_device(&b("B1"), cid2));
}

#[test]
fn candidate_self_suppression() {
    // Local deviceId "AAAA"; a datagram advertising "AAAA" leads to no dial.
    let mut m = DeviceManager::new(b("AAAA"));
    assert_eq!(m.consider_candidate(&b("AAAA"), Some(1716)), CandidateDecision::DropSelf);
    let datagram = b(
        r#"{"id":1,"type":"kdeconnect.identity","body":{"deviceId":"AAAA","deviceName":"me","deviceType":"pc","protocolVersion":7,"incomingCapabilities":[],"outgoingCapabilities":[],"tcpPort":1716}}"#,
    );
    match handle_udp_datagram(&m, &datagram) {
        UdpDecision::DropCandidate(CandidateDecision::DropSelf) => {}
        other => panic!("expected self suppression, got {:?}", other),
    }
    assert_eq!(m.active_device_count(), 0);
    // Registry unchanged: a later add still issues the first conn id.
    let (cid, _) = m.add_device(&b("X"), &b("x"));
    assert_eq!(cid, 1);
}

#[test]
fn candidate_happy_path_dial() {
    // Peer B1 broadcasts identity with tcpPort 1716: the core dials it.
    let m = DeviceManager::new(b("AAAA"));
    let datagram = b(
        r#"{"id":1,"type":"kdeconnect.identity","body":{"deviceId":"B1","deviceName":"B","deviceType":"phone","protocolVersion":7,"incomingCapabilities":[],"outgoingCapabilities":[],"tcpPort":1716}}"#,
    );
    match handle_udp_datagram(&m, &datagram) {
        UdpDecision::Dial { port, remote_identity } => {
            assert_eq!(port, 1716);
            assert_eq!(remote_identity.device_id, b("B1"));
            assert_eq!(remote_identity.device_name, b("B"));
        }
        other => panic!("expected dial, got {:?}", other),
    }
}

#[test]
fn candidate_duplicate_suppression() {
    // After B1 is registered, a second datagram from it is dropped.
    let mut m = DeviceManager::new(b("AAAA"));
    m.add_device(&b("B1"), &b("B"));
    let datagram = b(
        r#"{"id":2,"type":"kdeconnect.identity","body":{"deviceId":"B1","deviceName":"B","deviceType":"phone","protocolVersion":7,"incomingCapabilities":[],"outgoingCapabilities":[],"tcpPort":1716}}"#,
    );
    match handle_udp_datagram(&m, &datagram) {
        UdpDecision::DropCandidate(CandidateDecision::DropDuplicate) => {}
        other => panic!("expected duplicate suppression, got {:?}", other),
    }
}

#[test]
fn candidate_without_port_is_dropped() {
    let m = DeviceManager::new(b("AAAA"));
    assert_eq!(m.consider_candidate(&b("B1"), None), CandidateDecision::DropNoPort);
}

#[test]
fn udp_datagram_malformed_and_wrong_type() {
    let m = DeviceManager::new(b("AAAA"));
    assert!(matches!(handle_udp_datagram(&m, &b("junk")), UdpDecision::DropMalformed));
    let ping = b(r#"{"id":1,"type":"kdeconnect.ping","body":{}}"#);
    assert!(matches!(handle_udp_datagram(&m, &ping), UdpDecision::DropWrongType));
    let bad = b(r#"{"id":1,"type":"kdeconnect.identity","body":{"deviceId":7}}"#);
    assert!(matches!(handle_udp_datagram(&m, &bad), UdpDecision::DropBadIdentity));
}

// --- identity ---

#[test]
fn identity_packet_round_trip() {
    let ident = identity("B1", "B", Some(1716));
    let packet = ident.to_packet(5);
    let wire = encode_packet(&packet);
    assert_eq!(
        String::from_utf8(wire.clone()).unwrap(),
        r#"{"id":5,"type":"kdeconnect.identity","body":{"deviceId":"B1","deviceName":"B","deviceType":"phone","protocolVersion":7,"incomingCapabilities":[],"outgoingCapabilities":[],"tcpPort":1716}}"#
    );
    let back = parse_identity(&decode_packet(&wire).unwrap()).unwrap();
    assert_eq!(back.device_id, b("B1"));
    assert_eq!(back.device_name, b("B"));
    assert_eq!(back.device_type, b("phone"));
    assert_eq!(back.protocol_version, 7);
    assert_eq!(back.tcp_port, Some(1716));
}

#[test]
fn identity_without_port_omits_field() {
    let ident = identity("B1", "B", None);
    let wire = encode_packet(&ident.to_packet(1));
    let text = String::from_utf8(wire.clone()).unwrap();
    assert!(!text.contains("tcpPort"));
    let back = parse_identity(&decode_packet(&wire).unwrap()).unwrap();
    assert_eq!(back.tcp_port, None);
}

#[test]
fn identity_errors() {
    let ping = decode_packet(&b(r#"{"id":1,"type":"kdeconnect.ping","body":{}}"#)).unwrap();
    assert_eq!(parse_identity(&ping).unwrap_err(), PacketError::WrongPacketType);
    let missing =
        decode_packet(&b(r#"{"id":1,"type":"kdeconnect.identity","body":{"deviceId":"B1"}}"#))
            .unwrap();
    assert_eq!(parse_identity(&missing).unwrap_err(), PacketError::MalformedBody);
    let bad_port = decode_packet(&b(
        r#"{"id":1,"type":"kdeconnect.identity","body":{"deviceId":"B1","deviceName":"B","deviceType":"phone","protocolVersion":7,"incomingCapabilities":[],"outgoingCapabilities":[],"tcpPort":70000}}"#,
    ))
    .unwrap();
    assert_eq!(parse_identity(&bad_port).unwrap_err(), PacketError::MalformedBody);
}

// --- connection engine ---

#[test]
fn tls_roles_are_reversed() {
    assert_eq!(tls_role(&Role::Server), TlsRole::TlsClient);
    let client = Role::Client { remote_identity: identity("B1", "B", Some(1716)) };
    assert_eq!(tls_role(&client), TlsRole::TlsServer);
    assert_eq!(Role::Server.as_str(), "server");
    assert_eq!(client.as_str(), "client");
}

#[test]
fn pair_request_is_acknowledged() {
    // Inbound {"type":"kdeconnect.pair","body":{"pair":true}}: the session
    // answers with the same acknowledgement under a fresh id.
    let line = b(r#"{"id":123,"type":"kdeconnect.pair","body":{"pair":true}}"#);
    match classify_inbound(&line, 999) {
        InboundAction::PairAck(ack) => {
            assert_eq!(
                String::from_utf8(encode_packet(&ack)).unwrap(),
                r#"{"id":999,"type":"kdeconnect.pair","body":{"pair":true}}"#
            );
        }
        other => panic!("expected pair ack, got {:?}", other),
    }
}

#[test]
fn non_pair_packets_are_dispatched() {
    let line = b(r#"{"id":1,"type":"kdeconnect.clipboard","body":{}}"#);
    match classify_inbound(&line, 0) {
        InboundAction::Dispatch(p) => assert_eq!(p.typ, b("kdeconnect.clipboard")),
        other => panic!("expected dispatch, got {:?}", other),
    }
    assert!(matches!(classify_inbound(&b("garbage"), 0), InboundAction::DropMalformed));
}

#[test]
fn new_pair_builds_request_and_ack() {
    assert_eq!(
        String::from_utf8(encode_packet(&new_pair(false, 4))).unwrap(),
        r#"{"id":4,"type":"kdeconnect.pair","body":{"pair":false}}"#
    );
}

#[test]
fn payload_send_annotates_packet() {
    // Outbound share.request with 5 payload bytes on port 1765.
    let packet = kdeconnect::packet::NetworkPacket {
        id: 0,
        typ: b("kdeconnect.share.request"),
        body: vec![kdeconnect::codec::BodyField {
            key: b("filename"),
            value: kdeconnect::codec::BodyValue::Leaf(kdeconnect::codec::LeafValue::Text(b(
                "a.txt",
            ))),
        }],
        payload_size: None,
        payload_port: None,
    };
    let out = NetworkPacketWithPayload { packet, payload: Some(b("hello")) };
    let (annotated, frame) = prepare_send(&out, Some(1765));
    assert_eq!(annotated.payload_size, Some(5));
    assert_eq!(annotated.payload_port, Some(1765));
    assert_eq!(
        String::from_utf8(frame).unwrap(),
        "{\"id\":0,\"type\":\"kdeconnect.share.request\",\"body\":{\"filename\":\"a.txt\"},\"payloadSize\":5,\"payloadTransferInfo\":{\"port\":1765}}\n"
    );
}

#[test]
fn empty_payload_is_still_annotated() {
    // A zero-length payload gets payloadSize 0 and a port all the same.
    let packet = new_pair(true, 1);
    let out = NetworkPacketWithPayload { packet, payload: Some(vec![]) };
    let (annotated, _) = prepare_send(&out, Some(1765));
    assert_eq!(annotated.payload_size, Some(0));
    assert_eq!(annotated.payload_port, Some(1765));
}

#[test]
fn failed_payload_bind_sends_packet_unannotated() {
    let packet = new_pair(true, 1);
    let out = NetworkPacketWithPayload { packet, payload: Some(b("hello")) };
    let (annotated, frame) = prepare_send(&out, None);
    assert_eq!(annotated.payload_size, None);
    assert_eq!(annotated.payload_port, None);
    assert!(!String::from_utf8(frame).unwrap().contains("payloadSize"));
}

#[test]
fn broadcaster_emits_only_with_zero_active_devices() {
    let ident = identity("AAAA", "me", Some(1716));
    let mut packet = ident.to_packet(0);
    // No active devices: the identity datagram goes out, id refreshed.
    let datagram = broadcaster_tick(0, &mut packet, 42).unwrap();
    assert_eq!(packet.id, 42);
    assert_eq!(datagram, encode_packet(&packet));
    assert_eq!(*datagram.last().unwrap(), b'}');
    // Any active device pauses the broadcast.
    assert!(broadcaster_tick(1, &mut packet, 43).is_none());
    assert_eq!(packet.id, 42);
    // All peers gone: discovery resumes.
    assert!(broadcaster_tick(0, &mut packet, 44).is_some());
}

// --- event fan-out ---

#[test]
fn debounce_identical_burst_single_broadcast() {
    // Three identical events, then silence: one broadcast on the idle flush.
    let mut d = EventDebouncer::new();
    assert_eq!(d.on_event(SystemEvent::ClipboardUpdated), None);
    assert_eq!(d.on_event(SystemEvent::ClipboardUpdated), None);
    assert_eq!(d.on_event(SystemEvent::ClipboardUpdated), None);
    assert!(d.has_pending());
    assert_eq!(d.on_timeout(), Some(SystemEvent::ClipboardUpdated));
    assert!(!d.has_pending());
    assert_eq!(d.on_timeout(), None);
}

#[test]
fn debounce_different_event_flushes_immediately() {
    // Clipboard events at t=0/20/40 ms, then PowerStatus at t=60 ms: the
    // clipboard event is broadcast at once, the power event on its own
    // idle flush.
    let mut d = EventDebouncer::new();
    assert_eq!(d.on_event(SystemEvent::ClipboardUpdated), None);
    assert_eq!(d.on_event(SystemEvent::ClipboardUpdated), None);
    assert_eq!(d.on_event(SystemEvent::ClipboardUpdated), None);
    assert_eq!(d.on_event(SystemEvent::PowerStatusUpdated), Some(SystemEvent::ClipboardUpdated));
    assert_eq!(d.on_timeout(), Some(SystemEvent::PowerStatusUpdated));
    assert_eq!(d.on_timeout(), None);
}

#[test]
fn debounce_distinguishes_menu_ids() {
    let mut d = EventDebouncer::new();
    assert_eq!(d.on_event(SystemEvent::TrayMenuClicked(1)), None);
    assert_eq!(d.on_event(SystemEvent::TrayMenuClicked(1)), None);
    assert_eq!(
        d.on_event(SystemEvent::TrayMenuClicked(2)),
        Some(SystemEvent::TrayMenuClicked(1))
    );
}

#[test]
fn broadcast_targets_lists_every_session() {
    let mut m = DeviceManager::new(b("AAAA"));
    let (c1, _) = m.add_device(&b("B1"), &b("B"));
    let (c2, _) = m.add_device(&b("C2"), &b("C"));
    assert_eq!(m.broadcast_targets(), vec![c1, c2]);
}

#[test]
fn identity_prefix_errors_and_success() {
    assert_eq!(parse_identity_prefix(&b("nonsense")).unwrap_err(), PacketError::MalformedPacket);
    let ping = b(r#"{"id":1,"type":"kdeconnect.ping","body":{}}"#);
    assert_eq!(parse_identity_prefix(&ping).unwrap_err(), PacketError::WrongPacketType);
    let bad = b(r#"{"id":1,"type":"kdeconnect.identity","body":{"deviceId":true}}"#);
    assert_eq!(parse_identity_prefix(&bad).unwrap_err(), PacketError::MalformedBody);
    let good = encode_packet(&identity("B1", "B", None).to_packet(2));
    assert_eq!(parse_identity_prefix(&good).unwrap().device_id, b("B1"));
}
