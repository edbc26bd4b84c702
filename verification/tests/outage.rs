use traffic_director::error::ErrorKind;
use traffic_director::registry::BufferedPublish;
use traffic_director::session::outage::{
    service_outage_packet, LocalAcks, OutageBuffer, OUTAGE_BUFFER_MAX_BYTES,
};
use traffic_director::session::subscriptions::Subscriptions;
use traffic_director::types::{Publish, QoS};
use traffic_director::v3::SubscribeReturnCode;
use traffic_director::v5::{PublishAck, RetainHandling, SubscribeAckReason, SubscriptionOptions};
use traffic_director::{v3, v5, MqttPacket};

fn publish(id: u16, qos: QoS, payload: usize) -> Publish {
    Publish {
        dup: false,
        retain: false,
        qos,
        topic: "o/x".to_owned(),
        packet_id: if qos == QoS::AtMostOnce { None } else { Some(id) },
        payload: vec![1; payload],
        properties: None,
    }
}

fn serve(packet: MqttPacket) -> (Option<MqttPacket>, OutageBuffer, Subscriptions) {
    let mut buffer = OutageBuffer::new();
    let mut subscriptions = Subscriptions::new();
    let reply = service_outage_packet(&packet, &mut buffer, &mut subscriptions).unwrap();
    (reply, buffer, subscriptions)
}

#[test]
fn v3_publishes_are_answered_by_qos() {
    let (reply, buffer, _) = serve(MqttPacket::V3(v3::Packet::Publish(publish(1, QoS::AtMostOnce, 1))));
    assert!(reply.is_none());
    assert!(buffer.entries().is_empty());

    let (reply, buffer, _) = serve(MqttPacket::V3(v3::Packet::Publish(publish(2, QoS::AtLeastOnce, 1))));
    assert!(matches!(reply, Some(MqttPacket::V3(v3::Packet::PublishAck { packet_id: 2 }))));
    let entry = &buffer.entries()[0];
    assert_eq!((entry.packet_id, entry.qos), (2, 1));
    assert_eq!(entry.raw, vec![0x32, 8, 0, 3, b'o', b'/', b'x', 0, 2, 1]);

    let (reply, buffer, _) = serve(MqttPacket::V3(v3::Packet::Publish(publish(3, QoS::ExactlyOnce, 0))));
    assert!(matches!(reply, Some(MqttPacket::V3(v3::Packet::PublishReceived { packet_id: 3 }))));
    assert_eq!(buffer.entries()[0].qos, 2);
}

#[test]
fn v5_publishes_are_answered_by_qos() {
    let (reply, _, _) = serve(MqttPacket::V5(v5::Packet::Publish(publish(1, QoS::AtMostOnce, 1))));
    assert!(reply.is_none());
    let (reply, buffer, _) = serve(MqttPacket::V5(v5::Packet::Publish(publish(2, QoS::AtLeastOnce, 1))));
    let Some(MqttPacket::V5(v5::Packet::PublishAck(ack))) = reply else {
        panic!("no PUBACK");
    };
    assert_eq!((ack.packet_id, ack.reason_code), (2, v5::SUCCESS));
    assert!(ack.properties.is_empty() && ack.reason_string.is_none());
    assert_eq!(buffer.entries()[0].raw[0], 0x32);
    let (reply, _, _) = serve(MqttPacket::V5(v5::Packet::Publish(publish(3, QoS::ExactlyOnce, 1))));
    assert!(matches!(reply, Some(MqttPacket::V5(v5::Packet::PublishReceived(a))) if a.packet_id == 3));
}

#[test]
fn releases_and_pings_are_answered() {
    let (reply, _, _) = serve(MqttPacket::V3(v3::Packet::PublishRelease { packet_id: 4 }));
    assert!(matches!(reply, Some(MqttPacket::V3(v3::Packet::PublishComplete { packet_id: 4 }))));
    let (reply, _, _) = serve(MqttPacket::V5(v5::Packet::PublishRelease(PublishAck::success(5))));
    assert!(matches!(reply, Some(MqttPacket::V5(v5::Packet::PublishComplete(a))) if a.packet_id == 5));
    let (reply, _, _) = serve(MqttPacket::V3(v3::Packet::PingRequest));
    assert!(matches!(reply, Some(MqttPacket::V3(v3::Packet::PingResponse))));
    let (reply, _, _) = serve(MqttPacket::V5(v5::Packet::PingRequest));
    assert!(matches!(reply, Some(MqttPacket::V5(v5::Packet::PingResponse))));
}

#[test]
fn subscriptions_are_granted_and_recorded() {
    let (reply, _, table) = serve(MqttPacket::V3(v3::Packet::Subscribe {
        packet_id: 6,
        topic_filters: vec![("a".to_owned(), QoS::ExactlyOnce), ("b".to_owned(), QoS::AtMostOnce)],
    }));
    let Some(MqttPacket::V3(v3::Packet::SubscribeAck { packet_id, status })) = reply else {
        panic!("no SUBACK");
    };
    assert_eq!(packet_id, 6);
    assert_eq!(
        status,
        vec![
            SubscribeReturnCode::Success(QoS::ExactlyOnce),
            SubscribeReturnCode::Success(QoS::AtMostOnce)
        ]
    );
    assert_eq!(table.entries().len(), 2);

    let options = |qos| SubscriptionOptions {
        qos,
        no_local: false,
        retain_as_published: false,
        retain_handling: RetainHandling::AtSubscribe,
    };
    let (reply, _, table) = serve(MqttPacket::V5(v5::Packet::Subscribe(v5::Subscribe {
        packet_id: 7,
        id: None,
        user_properties: Vec::new(),
        topic_filters: vec![
            ("a".to_owned(), options(QoS::AtMostOnce)),
            ("b".to_owned(), options(QoS::AtLeastOnce)),
            ("c".to_owned(), options(QoS::ExactlyOnce)),
        ],
    })));
    let Some(MqttPacket::V5(v5::Packet::SubscribeAck { packet_id, status })) = reply else {
        panic!("no SUBACK");
    };
    assert_eq!(packet_id, 7);
    assert_eq!(
        status,
        vec![
            SubscribeAckReason::GrantedQos0,
            SubscribeAckReason::GrantedQos1,
            SubscribeAckReason::GrantedQos2
        ]
    );
    assert_eq!(table.entries().len(), 3);
}

#[test]
fn unsubscriptions_are_acknowledged_and_recorded() {
    let mut buffer = OutageBuffer::new();
    let mut table = Subscriptions::new();
    table.upsert(&"a".to_owned(), 0);
    table.upsert(&"b".to_owned(), 0);
    let packet =
        MqttPacket::V3(v3::Packet::Unsubscribe { packet_id: 8, topic_filters: vec!["a".to_owned()] });
    let reply = service_outage_packet(&packet, &mut buffer, &mut table).unwrap();
    assert!(matches!(reply, Some(MqttPacket::V3(v3::Packet::UnsubscribeAck { packet_id: 8 }))));
    let packet =
        MqttPacket::V5(v5::Packet::Unsubscribe { packet_id: 9, topic_filters: vec!["b".to_owned()] });
    let reply = service_outage_packet(&packet, &mut buffer, &mut table).unwrap();
    assert!(matches!(
        reply,
        Some(MqttPacket::V5(v5::Packet::UnsubscribeAck { packet_id: 9, status })) if status.is_empty()
    ));
    assert!(table.is_empty());
}

#[test]
fn client_acks_need_no_answer() {
    for packet in [
        MqttPacket::V3(v3::Packet::PublishAck { packet_id: 1 }),
        MqttPacket::V3(v3::Packet::PublishReceived { packet_id: 1 }),
        MqttPacket::V3(v3::Packet::PublishComplete { packet_id: 1 }),
        MqttPacket::V5(v5::Packet::PublishAck(PublishAck::success(1))),
        MqttPacket::V5(v5::Packet::Auth),
    ] {
        assert!(serve(packet).0.is_none());
    }
}

#[test]
fn a_goodbye_ends_the_session() {
    for packet in [
        MqttPacket::V3(v3::Packet::Disconnect),
        MqttPacket::V5(v5::Packet::Disconnect { reason_code: 0x04 }),
    ] {
        let mut buffer = OutageBuffer::new();
        let mut table = Subscriptions::new();
        let error = service_outage_packet(&packet, &mut buffer, &mut table).unwrap_err();
        assert_eq!(error.kind(), ErrorKind::UnexpectedEof);
        assert_eq!(error.message(), "client disconnected");
    }
}

#[test]
fn the_buffer_is_bounded() {
    let mut buffer = OutageBuffer::new();
    buffer.push(1, vec![0; OUTAGE_BUFFER_MAX_BYTES - 1], QoS::AtLeastOnce).unwrap();
    let error = buffer.push(2, vec![0; 2], QoS::AtLeastOnce).unwrap_err();
    assert_eq!(error.kind(), ErrorKind::QuotaExceeded);
    assert_eq!(error.message(), "outage buffer full, closing session");
    assert_eq!(buffer.entries().len(), 1);
    buffer.push(3, vec![0; 1], QoS::ExactlyOnce).unwrap();
    assert!(buffer.push(4, vec![0; 1], QoS::AtLeastOnce).is_err());
    buffer.push(5, Vec::new(), QoS::AtLeastOnce).unwrap();
    buffer.clear();
    assert!(buffer.entries().is_empty());
    assert!(buffer.push(6, vec![0; OUTAGE_BUFFER_MAX_BYTES + 1], QoS::AtLeastOnce).is_err());
    buffer.push(6, vec![0; OUTAGE_BUFFER_MAX_BYTES], QoS::AtLeastOnce).unwrap();
}

#[test]
fn a_restored_buffer_counts_its_bytes() {
    let entry = |n| BufferedPublish { packet_id: 1, raw: vec![0; n], qos: 1 };
    let mut buffer = OutageBuffer::from_entries(vec![entry(OUTAGE_BUFFER_MAX_BYTES - 3), entry(2)]);
    assert!(buffer.push(2, vec![0; 2], QoS::AtLeastOnce).is_err());
    assert!(buffer.push(2, vec![0; 1], QoS::AtLeastOnce).is_ok());
    // One that is over the limit already takes nothing more.
    let mut full = OutageBuffer::from_entries(vec![entry(OUTAGE_BUFFER_MAX_BYTES + 5)]);
    assert!(full.push(2, Vec::new(), QoS::AtLeastOnce).is_err());
}

#[test]
fn local_acks_are_taken_once() {
    let mut acks = LocalAcks::new();
    acks.mark(1, 1);
    acks.mark(2, 2);
    acks.mark(3, 0);
    assert!(!acks.take_qos1(2));
    assert!(acks.take_qos1(1));
    assert!(!acks.take_qos1(1));
    assert!(acks.has_qos2(2));
    assert!(acks.has_qos2(2));
    assert!(!acks.has_qos2(3));
    assert!(acks.take_qos2(2));
    assert!(!acks.take_qos2(2));
    assert!(!acks.has_qos2(2));
}
