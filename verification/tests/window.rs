use traffic_director::types::{Publish, QoS};
use traffic_director::v5::PublishAck;
use traffic_director::window::{InflightWindows, WindowEntry, WindowState, DUP_FLAG};
use traffic_director::{v3, v5, MqttPacket};

fn v3_publish(id: u16, qos: QoS) -> MqttPacket {
    MqttPacket::V3(v3::Packet::Publish(Publish {
        dup: false,
        retain: false,
        qos,
        topic: "t/x".to_owned(),
        packet_id: if id == 0 { None } else { Some(id) },
        payload: b"payload".to_vec(),
        properties: None,
    }))
}

fn ack(id: u16) -> MqttPacket {
    MqttPacket::V3(v3::Packet::PublishAck { packet_id: id })
}

fn received(id: u16) -> MqttPacket {
    MqttPacket::V3(v3::Packet::PublishReceived { packet_id: id })
}

fn release(id: u16) -> MqttPacket {
    MqttPacket::V3(v3::Packet::PublishRelease { packet_id: id })
}

fn complete(id: u16) -> MqttPacket {
    MqttPacket::V3(v3::Packet::PublishComplete { packet_id: id })
}

#[test]
fn qos1_c2b_insert_then_remove_on_puback() {
    let mut w = InflightWindows::new();
    w.track_c2b(&v3_publish(1, QoS::AtLeastOnce));
    assert_eq!(w.c2b().len(), 1);

    // QoS0 is never tracked.
    w.track_c2b(&v3_publish(2, QoS::AtMostOnce));
    assert_eq!(w.c2b().len(), 1);

    // Retransmit before ack: PUBLISH with DUP set.
    let re = w.broker_retransmits();
    assert_eq!(re.len(), 1);
    assert_eq!(re[0][0] & DUP_FLAG, DUP_FLAG);
    assert_eq!(re[0][0] >> 4, 3, "expected a PUBLISH packet");

    w.track_b2c(&ack(1));
    assert!(w.c2b().is_empty());
    assert!(w.broker_retransmits().is_empty());
}

#[test]
fn qos2_c2b_full_handshake() {
    let mut w = InflightWindows::new();
    w.track_c2b(&v3_publish(7, QoS::ExactlyOnce));
    w.track_b2c(&received(7));
    // Still PublishSent after PUBREC: thaw retransmits the PUBLISH.
    assert_eq!(w.broker_retransmits()[0][0] >> 4, 3);

    w.track_c2b(&release(7));
    // After PUBREL: thaw retransmits the PUBREL (type 6, no DUP bit).
    let re = w.broker_retransmits();
    assert_eq!(re.len(), 1);
    assert_eq!(re[0][0], 0x62);

    w.track_b2c(&complete(7));
    assert!(w.c2b().is_empty());
}

#[test]
fn qos1_b2c_insert_then_remove_on_client_puback() {
    let mut w = InflightWindows::new();
    w.track_b2c(&v3_publish(9, QoS::AtLeastOnce));
    assert_eq!(w.b2c().len(), 1);

    let re = w.client_retransmits();
    assert_eq!(re.len(), 1);
    assert_eq!(re[0][0] & DUP_FLAG, DUP_FLAG);

    w.track_c2b(&ack(9));
    assert!(w.b2c().is_empty());
}

#[test]
fn qos2_b2c_stops_retransmitting_after_pubrec() {
    let mut w = InflightWindows::new();
    w.track_b2c(&v3_publish(11, QoS::ExactlyOnce));
    assert_eq!(w.client_retransmits().len(), 1);

    w.track_c2b(&received(11));
    assert!(w.client_retransmits().is_empty(), "nothing to replay once PUBREC forwarded");
    assert!(!w.b2c().is_empty(), "entry kept to track the handshake");

    w.track_c2b(&complete(11));
    assert!(w.b2c().is_empty());
}

#[test]
fn snapshot_roundtrip_preserves_state() {
    let mut w = InflightWindows::new();
    w.track_c2b(&v3_publish(1, QoS::AtLeastOnce));
    w.track_c2b(&v3_publish(2, QoS::ExactlyOnce));
    w.track_c2b(&release(2));
    w.track_b2c(&v3_publish(3, QoS::AtLeastOnce));

    let restored = InflightWindows::from_snapshot(w.snapshot());
    assert_eq!(restored.c2b().len(), 2);
    assert_eq!(restored.b2c().len(), 1);
    assert_eq!(
        restored.c2b().iter().find(|e| e.packet_id == 2).map(|e| e.state),
        Some(WindowState::C2BPubrelSent),
        "QoS2 mid-handshake state must survive the roundtrip"
    );
    assert_eq!(restored.broker_retransmits().len(), 2);
    assert_eq!(restored.client_retransmits().len(), 1);
}

#[test]
fn v5_qos1_both_directions() {
    let mut w = InflightWindows::new();
    let publish = MqttPacket::V5(v5::Packet::Publish(Publish {
        dup: false,
        retain: false,
        qos: QoS::AtLeastOnce,
        topic: "t/v5".to_owned(),
        packet_id: Some(5),
        payload: b"v5".to_vec(),
        properties: None,
    }));
    w.track_c2b(&publish);
    w.track_b2c(&publish);
    assert_eq!(w.c2b().len(), 1);
    assert_eq!(w.b2c().len(), 1);

    let ack = MqttPacket::V5(v5::Packet::PublishAck(PublishAck {
        packet_id: 5,
        reason_code: v5::SUCCESS,
        properties: Vec::new(),
        reason_string: None,
    }));
    w.track_b2c(&ack);
    assert!(w.c2b().is_empty());
    w.track_c2b(&ack);
    assert!(w.b2c().is_empty());
}

#[test]
fn new_windows_are_empty() {
    let mut w = InflightWindows::new();
    assert!(w.is_empty());
    assert!(w.snapshot().is_empty());
    w.track_b2c(&v3_publish(1, QoS::AtLeastOnce));
    assert!(!w.is_empty());
    w.track_c2b(&ack(1));
    assert!(w.is_empty());
    w.track_c2b(&v3_publish(1, QoS::AtLeastOnce));
    assert!(!w.is_empty());
}

#[test]
fn v3_frame_is_exact() {
    let mut w = InflightWindows::new();
    w.track_c2b(&v3_publish(0x0102, QoS::AtLeastOnce));
    let mut expected = vec![0x32, 14, 0, 3];
    expected.extend_from_slice(b"t/x");
    expected.extend_from_slice(&[1, 2]);
    expected.extend_from_slice(b"payload");
    assert_eq!(w.c2b()[0].raw, expected);

    expected[0] = 0x3A;
    assert_eq!(w.broker_retransmits(), vec![expected]);
}

#[test]
fn v3_frame_with_long_payload_has_two_length_bytes() {
    let mut w = InflightWindows::new();
    w.track_c2b(&MqttPacket::V3(v3::Packet::Publish(Publish {
        dup: true,
        retain: true,
        qos: QoS::ExactlyOnce,
        topic: "a".to_owned(),
        packet_id: Some(1),
        payload: vec![7; 200],
        properties: None,
    })));
    let raw = &w.c2b()[0].raw;
    // 2 + 1 + 2 + 200 = 205 = 0x4D + 128 * 1
    assert_eq!(&raw[..8], &[0x3D, 0xCD, 0x01, 0, 1, b'a', 0, 1]);
    assert_eq!(raw.len(), 3 + 205);
}

#[test]
fn v5_frame_carries_properties() {
    let mut w = InflightWindows::new();
    w.track_c2b(&MqttPacket::V5(v5::Packet::Publish(Publish {
        dup: false,
        retain: false,
        qos: QoS::AtLeastOnce,
        topic: "t".to_owned(),
        packet_id: Some(3),
        payload: b"p".to_vec(),
        properties: Some(v5::PublishProperties {
            topic_alias: None,
            correlation_data: None,
            message_expiry_interval: Some(60),
            content_type: None,
            user_properties: vec![("k".to_owned(), "v".to_owned())],
            is_utf8_payload: false,
            response_topic: None,
            subscription_ids: Vec::new(),
        }),
    })));
    let mut expected = vec![0x32, 19, 0, 1, b't', 0, 3, 12];
    expected.extend_from_slice(&[0x02, 0, 0, 0, 60]);
    expected.extend_from_slice(&[0x26, 0, 1, b'k', 0, 1, b'v']);
    expected.push(b'p');
    assert_eq!(w.c2b()[0].raw, expected);
    expected[0] = 0x3A;
    assert_eq!(w.broker_retransmits(), vec![expected]);
}

#[test]
fn v5_frame_with_every_property() {
    let mut w = InflightWindows::new();
    w.track_b2c(&MqttPacket::V5(v5::Packet::Publish(Publish {
        dup: false,
        retain: true,
        qos: QoS::ExactlyOnce,
        topic: "t".to_owned(),
        packet_id: Some(3),
        payload: Vec::new(),
        properties: Some(v5::PublishProperties {
            topic_alias: Some(0x0102),
            correlation_data: Some(vec![9, 8]),
            message_expiry_interval: Some(0x0102_0304),
            content_type: Some("c".to_owned()),
            user_properties: vec![
                ("a".to_owned(), String::new()),
                (String::new(), "b".to_owned()),
            ],
            is_utf8_payload: true,
            response_topic: Some("r".to_owned()),
            subscription_ids: vec![5, 300],
        }),
    })));
    let mut properties = vec![0x23, 1, 2];
    properties.extend_from_slice(&[0x09, 0, 2, 9, 8]);
    properties.extend_from_slice(&[0x02, 1, 2, 3, 4]);
    properties.extend_from_slice(&[0x03, 0, 1, b'c']);
    properties.extend_from_slice(&[0x01, 1]);
    properties.extend_from_slice(&[0x08, 0, 1, b'r']);
    properties.extend_from_slice(&[0x0B, 5, 0x0B, 0xAC, 0x02]);
    properties.extend_from_slice(&[0x26, 0, 1, b'a', 0, 0, 0x26, 0, 0, 0, 1, b'b']);
    let mut expected = vec![0x35, 6 + properties.len() as u8, 0, 1, b't', 0, 3];
    expected.push(properties.len() as u8);
    expected.extend_from_slice(&properties);
    assert_eq!(w.b2c()[0].raw, expected);
}

#[test]
fn v5_frame_without_properties_has_an_empty_section() {
    let mut w = InflightWindows::new();
    w.track_c2b(&MqttPacket::V5(v5::Packet::Publish(Publish {
        dup: false,
        retain: false,
        qos: QoS::AtLeastOnce,
        topic: "t".to_owned(),
        packet_id: Some(3),
        payload: b"pp".to_vec(),
        properties: None,
    })));
    assert_eq!(w.c2b()[0].raw, vec![0x32, 8, 0, 1, b't', 0, 3, 0, b'p', b'p']);
}

#[test]
fn v5_property_section_at_the_edges_of_its_length() {
    for n in [119usize, 120, 121, 122, 123, 124, 125, 126, 127, 128, 16_370, 16_380, 16_381, 16_390] {
        let mut w = InflightWindows::new();
        w.track_c2b(&MqttPacket::V5(v5::Packet::Publish(Publish {
            dup: false,
            retain: false,
            qos: QoS::AtLeastOnce,
            topic: "t".to_owned(),
            packet_id: Some(3),
            payload: b"p".to_vec(),
            properties: Some(v5::PublishProperties {
                topic_alias: None,
                correlation_data: Some(vec![7; n]),
                message_expiry_interval: None,
                content_type: None,
                user_properties: Vec::new(),
                is_utf8_payload: false,
                response_topic: None,
                subscription_ids: Vec::new(),
            }),
        })));
        let length = |n: usize| {
            if n < 128 {
                vec![n as u8]
            } else if n < 16_384 {
                vec![(n % 128 + 128) as u8, (n / 128) as u8]
            } else {
                vec![(n % 128 + 128) as u8, (n / 128 % 128 + 128) as u8, (n / 16_384) as u8]
            }
        };
        let section = n + 3;
        let mut expected = vec![0x32];
        expected.extend(length(5 + length(section).len() + section + 1));
        expected.extend_from_slice(&[0, 1, b't', 0, 3]);
        expected.extend(length(section));
        expected.extend_from_slice(&[0x09, (n / 256) as u8, (n % 256) as u8]);
        expected.extend(vec![7u8; n]);
        expected.push(b'p');
        assert_eq!(w.c2b()[0].raw, expected, "{n}");
    }
}

#[test]
fn v5_release_is_retransmitted_as_it_is() {
    let mut w = InflightWindows::new();
    w.track_c2b(&MqttPacket::V5(v5::Packet::Publish(Publish {
        dup: false,
        retain: false,
        qos: QoS::ExactlyOnce,
        topic: "t".to_owned(),
        packet_id: Some(0x0304),
        payload: Vec::new(),
        properties: None,
    })));
    w.track_c2b(&MqttPacket::V5(v5::Packet::PublishRelease(PublishAck::success(0x0304))));
    let re = w.broker_retransmits();
    assert_eq!(re, vec![vec![0x62, 4, 3, 4, 0, 0]]);
    assert_eq!(w.c2b()[0].state, WindowState::C2BPubrelSent);

    w.track_c2b(&MqttPacket::V5(v5::Packet::PublishRelease(PublishAck {
        packet_id: 0x0304,
        reason_code: v5::PACKET_ID_NOT_FOUND,
        properties: vec![("k".to_owned(), "v".to_owned())],
        reason_string: Some("why".to_owned()),
    })));
    let mut expected = vec![0x62, 17, 3, 4, 0x92, 13];
    expected.extend_from_slice(&[0x26, 0, 1, b'k', 0, 1, b'v']);
    expected.extend_from_slice(&[0x1F, 0, 3, b'w', b'h', b'y']);
    assert_eq!(w.broker_retransmits(), vec![expected]);
}

#[test]
fn release_of_an_unknown_id_is_not_tracked() {
    let mut w = InflightWindows::new();
    w.track_c2b(&release(4));
    w.track_c2b(&received(4));
    assert!(w.is_empty());
}

#[test]
fn broker_packets_of_a_handshake_leave_the_windows_alone() {
    let mut w = InflightWindows::new();
    w.track_c2b(&v3_publish(1, QoS::ExactlyOnce));
    w.track_b2c(&v3_publish(1, QoS::ExactlyOnce));
    let before = format!("{:?}", w);
    w.track_b2c(&received(1));
    w.track_b2c(&release(1));
    w.track_b2c(&MqttPacket::V3(v3::Packet::PingResponse));
    w.track_c2b(&MqttPacket::V3(v3::Packet::PingRequest));
    assert_eq!(format!("{:?}", w), before);
}

#[test]
fn retransmission_keeps_order_and_replaced_entries_keep_their_place() {
    let mut w = InflightWindows::new();
    for id in [5, 3, 9] {
        w.track_c2b(&v3_publish(id, QoS::ExactlyOnce));
        w.track_b2c(&v3_publish(id, QoS::AtLeastOnce));
    }
    w.track_c2b(&release(3));
    w.track_c2b(&v3_publish(5, QoS::AtLeastOnce));
    let ids: Vec<u16> = w.c2b().iter().map(|e| e.packet_id).collect();
    assert_eq!(ids, vec![5, 3, 9]);
    let first_bytes: Vec<u8> = w.broker_retransmits().iter().map(|f| f[0]).collect();
    assert_eq!(first_bytes, vec![0x3A, 0x62, 0x3C]);

    w.track_c2b(&ack(3));
    let ids: Vec<u16> = w.b2c().iter().map(|e| e.packet_id).collect();
    assert_eq!(ids, vec![5, 9]);
    assert_eq!(w.client_retransmits().len(), 2);
}

#[test]
fn snapshot_with_a_repeated_id_keeps_the_last_entry() {
    let entry = |state, raw: &[u8]| WindowEntry { packet_id: 1, state, raw: raw.to_vec() };
    let w = InflightWindows::from_snapshot(vec![
        entry(WindowState::C2BPublishSent, &[0x32]),
        entry(WindowState::B2CPubrecForwarded, &[0x34]),
        entry(WindowState::C2BPubrelSent, &[0x62]),
    ]);
    assert_eq!(w.c2b().len(), 1);
    assert_eq!(w.c2b()[0].state, WindowState::C2BPubrelSent);
    assert_eq!(w.c2b()[0].raw, vec![0x62]);
    assert_eq!(w.b2c().len(), 1);
    assert!(w.client_retransmits().is_empty());
}

#[test]
fn an_entry_lacks_a_frame_only_if_it_is_to_be_sent_again() {
    let entry = |state| WindowEntry { packet_id: 1, state, raw: Vec::new() };
    assert!(entry(WindowState::C2BPublishSent).lacks_frame());
    assert!(entry(WindowState::B2CPublishSent).lacks_frame());
    assert!(!entry(WindowState::C2BPubrelSent).lacks_frame());
    assert!(!entry(WindowState::B2CPubrecForwarded).lacks_frame());
    let full = WindowEntry { packet_id: 1, state: WindowState::C2BPublishSent, raw: vec![0x32] };
    assert!(!full.lacks_frame());
}

#[test]
fn packets_without_an_encoding_are_told_apart() {
    assert!(v3_publish(1, QoS::AtLeastOnce).is_encodable());
    assert!(v3_publish(0, QoS::AtMostOnce).is_encodable());
    assert!(!v3_publish(1, QoS::AtMostOnce).is_encodable());
    assert!(!v3_publish(0, QoS::AtLeastOnce).is_encodable());
    assert!(release(1).is_encodable());
    assert!(!release(0).is_encodable());
    let unknown = PublishAck { reason_code: v5::PACKET_ID_NOT_FOUND, ..PublishAck::success(1) };
    assert!(MqttPacket::V5(v5::Packet::PublishRelease(unknown)).is_encodable());
    let odd = PublishAck { reason_code: 0x80, ..PublishAck::success(1) };
    assert!(!MqttPacket::V5(v5::Packet::PublishRelease(odd)).is_encodable());
    let long = |qos, packet_id| Publish {
        dup: false,
        retain: false,
        qos,
        topic: "x".repeat(65_536),
        packet_id,
        payload: Vec::new(),
        properties: None,
    };
    let unsent = long(QoS::AtMostOnce, None);
    assert!(!MqttPacket::V3(v3::Packet::Publish(unsent.clone())).is_encodable());
    assert!(!MqttPacket::V5(v5::Packet::Publish(unsent.clone())).is_encodable());

    // Only a message that may have to be sent again needs an encoding.
    assert!(MqttPacket::V3(v3::Packet::Publish(unsent.clone())).is_valid());
    assert!(MqttPacket::V5(v5::Packet::Publish(unsent)).is_valid());
    assert!(v3_publish(1, QoS::AtMostOnce).is_valid());
    assert!(release(0).is_valid());
    let kept = long(QoS::AtLeastOnce, Some(1));
    assert!(!MqttPacket::V3(v3::Packet::Publish(kept.clone())).is_valid());
    assert!(!MqttPacket::V5(v5::Packet::Publish(kept)).is_valid());
}

#[test]
fn what_is_not_kept_needs_no_encoding() {
    let mut w = InflightWindows::new();
    let unsent = MqttPacket::V3(v3::Packet::Publish(Publish {
        dup: false,
        retain: false,
        qos: QoS::AtMostOnce,
        topic: "x".repeat(65_536),
        packet_id: Some(1),
        payload: Vec::new(),
        properties: None,
    }));
    let odd = || {
        let ack = PublishAck { reason_code: 0x80, ..PublishAck::success(5) };
        MqttPacket::V5(v5::Packet::PublishRelease(ack))
    };
    assert!(w.admits_c2b(&unsent) && w.admits_c2b(&odd()));
    w.track_c2b(&unsent);
    w.track_b2c(&unsent);
    w.track_c2b(&odd());
    w.track_b2c(&odd());
    assert!(w.is_empty());
    w.track_c2b(&v3_publish(5, QoS::ExactlyOnce));
    assert!(!w.admits_c2b(&odd()));
    assert!(w.admits_c2b(&release(5)));
    assert!(!w.admits_c2b(&v3_publish(0, QoS::AtLeastOnce)));
}

#[test]
fn an_oversized_v5_release_is_cut() {
    let frame = |lengths: &[usize], reason: Option<usize>| {
        let mut w = InflightWindows::new();
        w.track_c2b(&v3_publish(5, QoS::ExactlyOnce));
        let properties =
            lengths.iter().map(|n| ("k".repeat(*n - 65_535), "v".repeat(65_535))).collect();
        let ack = PublishAck {
            packet_id: 5,
            reason_code: v5::SUCCESS,
            properties,
            reason_string: reason.map(|n| "r".repeat(n)),
        };
        w.track_c2b(&MqttPacket::V5(v5::Packet::PublishRelease(ack)));
        w.broker_retransmits().remove(0)
    };
    // Each property takes five bytes more than its texts; the last one of nine
    // would not fit, and the reason string behind it is left out with it.
    let eight = [131_000; 8];
    let whole = frame(&eight, None);
    assert_eq!(whole.len(), 4 + 3 + 3 + 8 * 131_005);
    let nine = [131_000; 9];
    assert_eq!(frame(&nine, Some(3)), whole);
    // A reason string that fits is kept, one that does not is left out.
    let room = 1_048_565 - 8 * 131_005;
    assert_eq!(frame(&eight, Some(room - 3)).len(), whole.len() + room);
    assert_eq!(frame(&eight, Some(room - 2)), whole);
}
