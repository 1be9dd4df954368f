use kdeconnect::codec::{BodyField, BodyValue, Field, LeafValue, TableRow};
use kdeconnect::packet::{decode_packet, encode_packet, frame_packet, NetworkPacket};

fn b(s: &str) -> Vec<u8> {
    s.as_bytes().to_vec()
}

fn pair_packet(id: u64, pair: bool) -> NetworkPacket {
    NetworkPacket {
        id,
        typ: b("kdeconnect.pair"),
        body: vec![BodyField { key: b("pair"), value: BodyValue::Leaf(LeafValue::Bool(pair)) }],
        payload_size: None,
        payload_port: None,
    }
}

#[test]
fn encode_pair_packet_exact_text() {
    let p = pair_packet(1, true);
    let bytes = encode_packet(&p);
    assert_eq!(
        String::from_utf8(bytes).unwrap(),
        r#"{"id":1,"type":"kdeconnect.pair","body":{"pair":true}}"#
    );
}

#[test]
fn frame_appends_newline() {
    let p = pair_packet(1, true);
    let framed = frame_packet(&p);
    assert_eq!(*framed.last().unwrap(), 0x0a);
    assert_eq!(&framed[..framed.len() - 1], &encode_packet(&p)[..]);
}

#[test]
fn decode_encode_round_trip_simple() {
    let p = pair_packet(77, true);
    let q = decode_packet(&encode_packet(&p)).unwrap();
    assert_eq!(q.id, 77);
    assert_eq!(q.typ, b("kdeconnect.pair"));
    assert_eq!(q.body.len(), 1);
    assert_eq!(q.body[0].key, b("pair"));
    assert!(matches!(q.body[0].value, BodyValue::Leaf(LeafValue::Bool(true))));
    assert_eq!(q.payload_size, None);
    assert_eq!(q.payload_port, None);
}

#[test]
fn decode_encode_round_trip_all_value_kinds() {
    let p = NetworkPacket {
        id: 18446744073709551615,
        typ: b("kdeconnect.test"),
        body: vec![
            BodyField { key: b("flag"), value: BodyValue::Leaf(LeafValue::Bool(false)) },
            BodyField { key: b("count"), value: BodyValue::Leaf(LeafValue::Int(-42)) },
            BodyField { key: b("name"), value: BodyValue::Leaf(LeafValue::Text(b("x y"))) },
            BodyField {
                key: b("items"),
                value: BodyValue::Leaf(LeafValue::TextList(vec![b("a"), b("bc")])),
            },
            BodyField {
                key: b("table"),
                value: BodyValue::Table(vec![TableRow {
                    key: b("row1"),
                    fields: vec![
                        Field { key: b("k"), value: LeafValue::Int(3) },
                        Field { key: b("s"), value: LeafValue::Text(b("v")) },
                    ],
                }]),
            },
        ],
        payload_size: Some(12),
        payload_port: Some(1765),
    };
    let wire = encode_packet(&p);
    let q = decode_packet(&wire).unwrap();
    assert_eq!(q.id, p.id);
    assert_eq!(q.typ, p.typ);
    assert_eq!(q.payload_size, Some(12));
    assert_eq!(q.payload_port, Some(1765));
    assert_eq!(q.body.len(), 5);
    match &q.body[1].value {
        BodyValue::Leaf(LeafValue::Int(v)) => assert_eq!(*v, -42),
        other => panic!("wrong shape: {:?}", other),
    }
    match &q.body[4].value {
        BodyValue::Table(rows) => {
            assert_eq!(rows.len(), 1);
            assert_eq!(rows[0].key, b("row1"));
            assert_eq!(rows[0].fields.len(), 2);
        }
        other => panic!("wrong shape: {:?}", other),
    }
    // Re-encoding the decoded packet gives the same bytes.
    assert_eq!(encode_packet(&q), wire);
}

#[test]
fn decode_rejects_garbage_and_trailing_bytes() {
    assert!(decode_packet(&b("not json")).is_none());
    assert!(decode_packet(&b("")).is_none());
    let mut wire = encode_packet(&pair_packet(1, true));
    wire.push(b'x');
    assert!(decode_packet(&wire).is_none());
}

#[test]
fn decode_rejects_missing_type_or_empty_type() {
    assert!(decode_packet(&b(r#"{"id":1,"body":{}}"#)).is_none());
    assert!(decode_packet(&b(r#"{"id":1,"type":"","body":{}}"#)).is_none());
}

#[test]
fn decode_accepts_empty_body() {
    let q = decode_packet(&b(r#"{"id":3,"type":"kdeconnect.ping","body":{}}"#)).unwrap();
    assert_eq!(q.id, 3);
    assert_eq!(q.typ, b("kdeconnect.ping"));
    assert!(q.body.is_empty());
}

#[test]
fn decode_rejects_leading_zero_ids() {
    assert!(decode_packet(&b(r#"{"id":01,"type":"t","body":{}}"#)).is_none());
}

#[test]
fn encoded_packets_are_valid_json() {
    let p = NetworkPacket {
        id: 9,
        typ: b("kdeconnect.share.request"),
        body: vec![BodyField { key: b("filename"), value: BodyValue::Leaf(LeafValue::Text(b("a.txt"))) }],
        payload_size: Some(5),
        payload_port: Some(1765),
    };
    let wire = encode_packet(&p);
    let v: serde_json::Value = serde_json::from_slice(&wire).unwrap();
    assert_eq!(v["id"], 9);
    assert_eq!(v["type"], "kdeconnect.share.request");
    assert_eq!(v["body"]["filename"], "a.txt");
    assert_eq!(v["payloadSize"], 5);
    assert_eq!(v["payloadTransferInfo"]["port"], 1765);
}
