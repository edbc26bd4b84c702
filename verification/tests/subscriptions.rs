use traffic_director::registry::SubscriptionEntry;
use traffic_director::session::subscriptions::{Subscriptions, RESUBSCRIBE_PACKET_ID};
use traffic_director::types::{ProtocolVersion, QoS};
use traffic_director::v5::{RetainHandling, SubscriptionOptions};
use traffic_director::{v3, v5, MqttPacket};

fn options(qos: QoS, no_local: bool, rap: bool, rh: RetainHandling) -> SubscriptionOptions {
    SubscriptionOptions { qos, no_local, retain_as_published: rap, retain_handling: rh }
}

fn v3_subscribe(filters: &[(&str, QoS)]) -> MqttPacket {
    MqttPacket::V3(v3::Packet::Subscribe {
        packet_id: 9,
        topic_filters: filters.iter().map(|(f, q)| (f.to_string(), *q)).collect(),
    })
}

fn v5_subscribe(filters: &[(&str, SubscriptionOptions)]) -> MqttPacket {
    MqttPacket::V5(v5::Packet::Subscribe(v5::Subscribe {
        packet_id: 9,
        id: Some(3),
        user_properties: Vec::new(),
        topic_filters: filters.iter().map(|(f, o)| (f.to_string(), *o)).collect(),
    }))
}

fn listed(table: &Subscriptions) -> Vec<(String, u8)> {
    table.entries().into_iter().map(|e| (e.topic_filter, e.options)).collect()
}

#[test]
fn v3_subscriptions_are_kept_by_qos() {
    let mut table = Subscriptions::new();
    assert!(table.is_empty());
    table.track(&v3_subscribe(&[("a", QoS::AtMostOnce), ("b/#", QoS::ExactlyOnce)]));
    table.track(&v3_subscribe(&[("c", QoS::AtLeastOnce)]));
    assert_eq!(
        listed(&table),
        vec![("a".to_string(), 0), ("b/#".to_string(), 2), ("c".to_string(), 1)]
    );
    assert!(!table.is_empty());
}

#[test]
fn resubscribing_replaces_the_options_in_place() {
    let mut table = Subscriptions::new();
    table.track(&v3_subscribe(&[("a", QoS::AtMostOnce), ("b", QoS::AtMostOnce)]));
    table.track(&v3_subscribe(&[("a", QoS::ExactlyOnce)]));
    assert_eq!(listed(&table), vec![("a".to_string(), 2), ("b".to_string(), 0)]);
}

#[test]
fn unsubscribing_forgets_every_entry_of_a_filter() {
    let entry = |f: &str, o| SubscriptionEntry { topic_filter: f.to_owned(), options: o };
    let mut table =
        Subscriptions::from_entries(vec![entry("a", 1), entry("b", 0), entry("a", 2)]);
    table.track(&MqttPacket::V3(v3::Packet::Unsubscribe {
        packet_id: 4,
        topic_filters: vec!["a".to_owned(), "never".to_owned()],
    }));
    assert_eq!(listed(&table), vec![("b".to_string(), 0)]);
    table.track(&MqttPacket::V5(v5::Packet::Unsubscribe {
        packet_id: 4,
        topic_filters: vec!["b".to_owned()],
    }));
    assert!(table.is_empty());
}

#[test]
fn v5_options_are_one_byte() {
    let mut table = Subscriptions::new();
    table.track(&v5_subscribe(&[
        ("a", options(QoS::AtLeastOnce, true, false, RetainHandling::AtSubscribe)),
        ("b", options(QoS::ExactlyOnce, false, true, RetainHandling::AtSubscribeNew)),
        ("c", options(QoS::AtMostOnce, true, true, RetainHandling::NoAtSubscribe)),
    ]));
    let bytes: Vec<u8> = table.entries().iter().map(|e| e.options).collect();
    assert_eq!(bytes, vec![0x05, 0x1A, 0x2C]);
}

#[test]
fn other_packets_leave_the_table_alone() {
    let mut table = Subscriptions::new();
    table.upsert(&"a".to_owned(), 1);
    table.track(&MqttPacket::V3(v3::Packet::PingRequest));
    table.track(&MqttPacket::V5(v5::Packet::Disconnect { reason_code: 0 }));
    assert_eq!(listed(&table), vec![("a".to_string(), 1)]);
    table.remove(&"a".to_owned());
    assert!(table.is_empty());
}

#[test]
fn nothing_to_resubscribe() {
    let table = Subscriptions::new();
    assert!(table.resubscribe_packet(ProtocolVersion::MQTT3).is_none());
    assert!(table.resubscribe_packet(ProtocolVersion::MQTT5).is_none());
}

#[test]
fn resubscribe_restores_the_table() {
    let mut v3_table = Subscriptions::new();
    v3_table.track(&v3_subscribe(&[("a", QoS::AtMostOnce), ("b", QoS::ExactlyOnce)]));
    let packet = v3_table.resubscribe_packet(ProtocolVersion::MQTT3).unwrap();
    let MqttPacket::V3(v3::Packet::Subscribe { packet_id, .. }) = &packet else {
        panic!("not a SUBSCRIBE: {packet:?}");
    };
    assert_eq!(*packet_id, RESUBSCRIBE_PACKET_ID);
    let mut again = Subscriptions::new();
    again.track(&packet);
    assert_eq!(listed(&again), listed(&v3_table));

    let mut v5_table = Subscriptions::new();
    v5_table.track(&v5_subscribe(&[
        ("x", options(QoS::AtLeastOnce, true, false, RetainHandling::NoAtSubscribe)),
        ("y", options(QoS::AtMostOnce, false, true, RetainHandling::AtSubscribe)),
    ]));
    let packet = v5_table.resubscribe_packet(ProtocolVersion::MQTT5).unwrap();
    let MqttPacket::V5(v5::Packet::Subscribe(subscribe)) = &packet else {
        panic!("not a SUBSCRIBE: {packet:?}");
    };
    assert_eq!(subscribe.packet_id, 1);
    assert_eq!(subscribe.id, None);
    assert!(subscribe.user_properties.is_empty());
    assert_eq!(
        subscribe.topic_filters[0].1,
        options(QoS::AtLeastOnce, true, false, RetainHandling::NoAtSubscribe)
    );
    let mut again = Subscriptions::new();
    again.track(&packet);
    assert_eq!(listed(&again), listed(&v5_table));
}

#[test]
fn meaningless_options_fall_back() {
    let table = Subscriptions::from_entries(vec![SubscriptionEntry {
        topic_filter: "a".to_owned(),
        options: 0xFF,
    }]);
    let Some(MqttPacket::V3(v3::Packet::Subscribe { topic_filters, .. })) =
        table.resubscribe_packet(ProtocolVersion::MQTT3)
    else {
        panic!("no SUBSCRIBE");
    };
    assert_eq!(topic_filters, vec![("a".to_string(), QoS::AtMostOnce)]);
    let Some(MqttPacket::V5(v5::Packet::Subscribe(subscribe))) =
        table.resubscribe_packet(ProtocolVersion::MQTT5)
    else {
        panic!("no SUBSCRIBE");
    };
    assert_eq!(
        subscribe.topic_filters[0].1,
        options(QoS::AtMostOnce, true, true, RetainHandling::AtSubscribe)
    );
}
