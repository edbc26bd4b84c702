use bytes::BytesMut;
use rmqtt_codec::v3 as codec_v3;
use rmqtt_codec::v5 as codec_v5;
use tokio_util::codec::Encoder;
use traffic_director::error::ErrorKind;
use traffic_director::registry::{BufferedPublish, FrozenSession, SessionSnapshot};
use traffic_director::session::forward::{
    freeze_outcome, is_retryable_disconnect, leftover_frames, next_frame, Action, BrokerReply,
    EstablishAction, EstablishEvent, Event, FreezeOutcome, FreezeReply, OutageStep, Replay,
    Session, Step, Verdict,
};
use traffic_director::session::handshake::Handshake;
use traffic_director::session::keepalive::{client_deadline, close_for_keepalive};
use traffic_director::session::subscriptions::changes_subscriptions;
use traffic_director::types::{DecodedFrame, ProtocolVersion, Publish, QoS};
use traffic_director::v5::PublishAck;
use traffic_director::window::{WindowEntry, WindowState};
use traffic_director::{v3, v5, MqttPacket};

const MAX: u32 = 1024 * 1024;

fn connect_raw(version: ProtocolVersion) -> Vec<u8> {
    let mut buf = BytesMut::new();
    match version {
        ProtocolVersion::MQTT3 => {
            let connect =
                codec_v3::Connect { clean_session: true, keep_alive: 60, ..Default::default() }
                    .client_id("session".to_owned());
            codec_v3::Codec::new(MAX)
                .encode(codec_v3::Packet::Connect(Box::new(connect)), &mut buf)
                .unwrap();
        }
        ProtocolVersion::MQTT5 => {
            let connect = codec_v5::Connect {
                clean_start: true,
                client_id: "session".into(),
                keep_alive: 60,
                ..Default::default()
            };
            codec_v5::Codec::new(MAX, MAX)
                .encode(codec_v5::Packet::Connect(Box::new(connect)), &mut buf)
                .unwrap();
        }
    }
    buf.to_vec()
}

fn connect_ack(version: ProtocolVersion) -> MqttPacket {
    match version {
        ProtocolVersion::MQTT3 => MqttPacket::V3(v3::Packet::ConnectAck { return_code: 0 }),
        ProtocolVersion::MQTT5 => MqttPacket::V5(v5::Packet::ConnectAck {
            reason_code: 0,
            server_keepalive_sec: None,
        }),
    }
}

fn reply(packet: MqttPacket) -> BrokerReply {
    BrokerReply::Packet { packet, text: "text".to_owned() }
}

fn open(version: ProtocolVersion) -> Session {
    let level = if version == ProtocolVersion::MQTT3 { 4 } else { 5 };
    let hs = Handshake::from_snapshot_version(level, connect_raw(version)).unwrap();
    Session::open(hs, reply(connect_ack(version)), 0).unwrap()
}

fn v3_publish(id: u16, qos: QoS, payload: &str) -> MqttPacket {
    MqttPacket::V3(v3::Packet::Publish(Publish {
        dup: false,
        retain: false,
        qos,
        topic: "s/x".to_owned(),
        packet_id: if qos == QoS::AtMostOnce { None } else { Some(id) },
        payload: payload.as_bytes().to_vec(),
        properties: None,
    }))
}

fn ack(id: u16) -> MqttPacket {
    MqttPacket::V3(v3::Packet::PublishAck { packet_id: id })
}

fn received(id: u16) -> MqttPacket {
    MqttPacket::V3(v3::Packet::PublishReceived { packet_id: id })
}

fn release(id: u16) -> MqttPacket {
    MqttPacket::V3(v3::Packet::PublishRelease { packet_id: id })
}

fn complete(id: u16) -> MqttPacket {
    MqttPacket::V3(v3::Packet::PublishComplete { packet_id: id })
}

fn client(session: &mut Session, packet: MqttPacket) -> Step {
    session.handle(Event::ClientPacket { packet, now: 1 })
}

fn broker(session: &mut Session, packet: MqttPacket) -> Step {
    session.handle(Event::BrokerPacket { packet, unread: Vec::new() })
}

fn goes_on(step: &Step) -> bool {
    matches!(step.verdict, Verdict::Continue)
}

fn is_quiet(step: &Step) -> bool {
    step.actions.is_empty() && goes_on(step)
}

fn forwards_to_client(step: &Step) -> bool {
    goes_on(step) && step.actions.len() == 1 && matches!(step.actions[0], Action::ForwardToClient)
}

fn forwards_to_broker(step: &Step) -> bool {
    goes_on(step) && step.actions.len() == 1 && matches!(step.actions[0], Action::ForwardToBroker)
}

fn establish(session: &mut Session, event: EstablishEvent) -> EstablishAction {
    session.establish_broker(event, 1_000).unwrap()
}

fn subscribe_reply(session: &mut Session, packet: MqttPacket) -> EstablishAction {
    establish(session, EstablishEvent::SubscribeReply(reply(packet)))
}

fn subscribe(session: &mut Session, packet_id: u16) {
    let packet = MqttPacket::V3(v3::Packet::Subscribe {
        packet_id,
        topic_filters: vec![("s/#".to_owned(), QoS::AtLeastOnce)],
    });
    assert!(forwards_to_broker(&client(session, packet)));
}

fn subscribe_ack(packet_id: u16) -> MqttPacket {
    MqttPacket::V3(v3::Packet::SubscribeAck { packet_id, status: Vec::new() })
}

fn tries_again(action: EstablishAction) -> String {
    match action {
        EstablishAction::TryAgain(error) => error.message(),
        other => panic!("no second try: {other:?}"),
    }
}

fn reconnect(session: &mut Session) -> Replay {
    let version = session.version();
    let EstablishAction::SendConnect(raw) = establish(session, EstablishEvent::Connected) else {
        panic!("no CONNECT");
    };
    let mut expected = connect_raw(version);
    expected[9] &= !0x02;
    assert_eq!(raw, expected);
    let event = EstablishEvent::ConnectReply(reply(connect_ack(version)));
    let action = match establish(session, event) {
        EstablishAction::SendSubscribe(packet) => {
            let subscribed = match packet {
                MqttPacket::V3(v3::Packet::Subscribe { packet_id, .. }) => {
                    MqttPacket::V3(v3::Packet::SubscribeAck { packet_id, status: Vec::new() })
                }
                MqttPacket::V5(v5::Packet::Subscribe(s)) => MqttPacket::V5(
                    v5::Packet::SubscribeAck { packet_id: s.packet_id, status: Vec::new() },
                ),
                other => panic!("not a SUBSCRIBE: {other:?}"),
            };
            assert!(!session.is_connected());
            establish(session, EstablishEvent::SubscribeReply(reply(subscribed)))
        }
        action => action,
    };
    let EstablishAction::CatchUp(replay) = action else {
        panic!("did not catch up");
    };
    assert!(!session.is_connected(), "not before all of it was sent");
    assert!(matches!(establish(session, EstablishEvent::CaughtUp), EstablishAction::Forward));
    assert!(session.is_connected());
    replay
}

fn lose_broker(session: &mut Session) {
    assert!(is_quiet(&session.handle(Event::BrokerLost { unread: Vec::new() })));
    assert!(!session.is_connected());
}

fn freeze_and_thaw(session: Session) -> Session {
    let frozen = session.freeze(7, 3, Vec::new(), Some(Vec::new()));
    assert!(frozen.snapshot.is_replayable());
    Session::adopt(frozen.snapshot, 5).unwrap()
}

// ---------- keepalive ----------

#[test]
fn pingreq_answered_instantly_while_connected() {
    let mut session = open(ProtocolVersion::MQTT3);
    let step = client(&mut session, MqttPacket::V3(v3::Packet::PingRequest));
    assert!(goes_on(&step));
    assert_eq!(step.actions.len(), 2);
    assert!(matches!(
        step.actions[0],
        Action::SendToClient(MqttPacket::V3(v3::Packet::PingResponse))
    ));
    assert!(matches!(step.actions[1], Action::ForwardToBroker));
}

#[test]
fn pingreq_answered_instantly_v5() {
    let mut session = open(ProtocolVersion::MQTT5);
    let step = client(&mut session, MqttPacket::V5(v5::Packet::PingRequest));
    assert!(matches!(
        step.actions[0],
        Action::SendToClient(MqttPacket::V5(v5::Packet::PingResponse))
    ));
    assert!(matches!(step.actions[1], Action::ForwardToBroker));
}

#[test]
fn pingreq_answered_instantly_with_partitioned_broker() {
    // The connection stands, and nothing comes from the broker any more.
    let mut session = open(ProtocolVersion::MQTT3);
    for _ in 0..3 {
        assert!(session.is_connected());
        let step = client(&mut session, MqttPacket::V3(v3::Packet::PingRequest));
        assert!(goes_on(&step));
        assert!(matches!(
            step.actions[0],
            Action::SendToClient(MqttPacket::V3(v3::Packet::PingResponse))
        ));
    }
}

#[test]
fn pingreq_answered_instantly_without_a_broker() {
    let mut session = open(ProtocolVersion::MQTT3);
    lose_broker(&mut session);
    let step = client(&mut session, MqttPacket::V3(v3::Packet::PingRequest));
    assert_eq!(step.actions.len(), 1);
    assert!(matches!(
        step.actions[0],
        Action::SendToClient(MqttPacket::V3(v3::Packet::PingResponse))
    ));
    // And so it is in the middle of a replay.
    establish(&mut session, EstablishEvent::Connected);
    let step = client(&mut session, MqttPacket::V3(v3::Packet::PingRequest));
    assert!(matches!(
        step.actions[0],
        Action::SendToClient(MqttPacket::V3(v3::Packet::PingResponse))
    ));
}

#[test]
fn upstream_pingresp_is_swallowed() {
    let mut session = open(ProtocolVersion::MQTT3);
    assert!(is_quiet(&broker(&mut session, MqttPacket::V3(v3::Packet::PingResponse))));
    let mut session = open(ProtocolVersion::MQTT5);
    assert!(is_quiet(&broker(&mut session, MqttPacket::V5(v5::Packet::PingResponse))));
}

#[test]
fn deadline_is_one_and_a_half_keepalives() {
    assert_eq!(client_deadline(60, 1_000), 91_000);
    assert_eq!(client_deadline(1, 0), 1_500);
    assert_eq!(client_deadline(65_535, 0), 98_302_500);
    assert_eq!(client_deadline(0, 5), 31_536_000_005);
    let mut session = open(ProtocolVersion::MQTT3);
    assert_eq!(session.deadline(), 90_000);
    session.handle(Event::ClientPacket { packet: ack(1), now: 10_000 });
    assert_eq!(session.deadline(), 100_000);
    broker(&mut session, ack(1));
    assert_eq!(session.deadline(), 100_000);
}

#[test]
fn silent_clients_are_dropped() {
    assert!(close_for_keepalive(ProtocolVersion::MQTT3).is_none());
    let mut session = open(ProtocolVersion::MQTT3);
    let step = session.handle(Event::DeadlinePassed);
    assert!(step.actions.is_empty() && matches!(step.verdict, Verdict::Close));
    let mut session = open(ProtocolVersion::MQTT5);
    let step = session.handle(Event::DeadlinePassed);
    assert_eq!(step.actions.len(), 1);
    assert!(matches!(
        step.actions[0],
        Action::SendToClient(MqttPacket::V5(v5::Packet::Disconnect { reason_code: 0x8D }))
    ));
    assert!(matches!(step.verdict, Verdict::Close));
}

#[test]
fn server_keepalive_replaces_the_clients() {
    let hs = Handshake::from_snapshot_version(5, connect_raw(ProtocolVersion::MQTT5)).unwrap();
    let ack = |secs| {
        reply(MqttPacket::V5(v5::Packet::ConnectAck {
            reason_code: 0,
            server_keepalive_sec: Some(secs),
        }))
    };
    let mut session = Session::open(hs, ack(10), 0).unwrap();
    assert_eq!(session.deadline(), 15_000);
    lose_broker(&mut session);
    establish(&mut session, EstablishEvent::ConnectReply(ack(20)));
    assert_eq!(session.deadline(), 30_000);
}

// ---------- opening ----------

#[test]
fn a_session_opens_with_the_brokers_answer() {
    let session = open(ProtocolVersion::MQTT5);
    assert!(session.is_connected());
    assert_eq!(session.version(), ProtocolVersion::MQTT5);
    let hs = || Handshake::from_snapshot_version(4, connect_raw(ProtocolVersion::MQTT3)).unwrap();
    let error = Session::open(hs(), BrokerReply::Closed, 0).unwrap_err();
    assert_eq!(error.kind(), ErrorKind::ConnectionAborted);
    assert_eq!(error.message(), "broker closed during handshake");
    let error = Session::open(hs(), BrokerReply::Error("bad".to_owned()), 0).unwrap_err();
    assert_eq!(error.message(), "bad");
    let error = Session::open(hs(), BrokerReply::Lost("reset".to_owned()), 0).unwrap_err();
    assert_eq!(error.message(), "reset");
}

// ---------- connected ----------

#[test]
fn packets_flow_both_ways() {
    let mut session = open(ProtocolVersion::MQTT3);
    let subscribe = MqttPacket::V3(v3::Packet::Subscribe {
        packet_id: 1,
        topic_filters: vec![("s/#".to_owned(), QoS::AtLeastOnce)],
    });
    assert!(forwards_to_broker(&client(&mut session, subscribe)));
    assert!(forwards_to_broker(&client(&mut session, v3_publish(2, QoS::AtLeastOnce, "hello"))));
    assert!(forwards_to_client(&broker(&mut session, ack(2))));
    assert!(forwards_to_client(&broker(&mut session, v3_publish(1, QoS::AtMostOnce, "hello"))));
    assert!(forwards_to_broker(&client(&mut session, MqttPacket::V3(v3::Packet::Disconnect))));
}

#[test]
fn sessions_end_with_their_client() {
    let mut session = open(ProtocolVersion::MQTT3);
    assert!(matches!(session.handle(Event::ClientClosed).verdict, Verdict::Close));
    assert!(matches!(session.handle(Event::ControlClosed).verdict, Verdict::Close));
    let step = session.handle(Event::ClientError("nonsense".to_owned()));
    let Verdict::Fail(error) = step.verdict else {
        panic!("no failure");
    };
    assert_eq!(error.message(), "nonsense");
    lose_broker(&mut session);
    assert!(matches!(session.handle(Event::ClientClosed).verdict, Verdict::Close));
    let step = client(&mut session, MqttPacket::V3(v3::Packet::Disconnect));
    assert!(matches!(step.verdict, Verdict::Fail(e) if e.message() == "client disconnected"));
}

#[test]
fn v5_server_shutting_down_disconnect_is_intercepted() {
    for code in [0x00, 0x89, 0x8B, 0x9C, 0x9D] {
        assert!(is_retryable_disconnect(code));
        let mut session = open(ProtocolVersion::MQTT5);
        let step = broker(&mut session, MqttPacket::V5(v5::Packet::Disconnect { reason_code: code }));
        assert!(is_quiet(&step));
        assert!(!session.is_connected());
        reconnect(&mut session);
    }
}

#[test]
fn v5_client_fault_disconnect_is_forwarded() {
    for code in [0x04, 0x80, 0x81, 0x82, 0x87, 0x8A, 0x8C, 0x8D, 0x8E, 0x9B, 0x9E, 0xA2] {
        assert!(!is_retryable_disconnect(code));
        let mut session = open(ProtocolVersion::MQTT5);
        let step = broker(&mut session, MqttPacket::V5(v5::Packet::Disconnect { reason_code: code }));
        assert!(matches!(step.verdict, Verdict::Close));
        assert_eq!(step.actions.len(), 1);
        assert!(matches!(step.actions[0], Action::ForwardToClient));
    }
}

#[test]
fn v3_transport_close_triggers_quiet_reconnect() {
    let mut session = open(ProtocolVersion::MQTT3);
    client(
        &mut session,
        MqttPacket::V3(v3::Packet::Subscribe {
            packet_id: 1,
            topic_filters: vec![("di3/#".to_owned(), QoS::AtMostOnce)],
        }),
    );
    lose_broker(&mut session);
    assert_eq!(session.outage_wait(), OutageStep::Connect);
    let replay = reconnect(&mut session);
    assert!(replay.broker.is_empty() && replay.client.is_empty());
    assert!(forwards_to_client(&broker(&mut session, v3_publish(1, QoS::AtMostOnce, "back"))));
}

#[test]
fn a_failed_write_starts_an_outage() {
    let mut session = open(ProtocolVersion::MQTT3);
    assert!(forwards_to_broker(&client(&mut session, v3_publish(1, QoS::AtLeastOnce, "kept"))));
    assert!(is_quiet(&session.handle(Event::BrokerWriteFailed)));
    assert!(!session.is_connected());
    let replay = reconnect(&mut session);
    assert_eq!(replay.broker.len(), 1);
    assert_eq!(replay.broker[0][0], 0x3A);
}

// ---------- outage ----------

#[test]
fn connection_attempts_back_off() {
    let mut session = open(ProtocolVersion::MQTT3);
    lose_broker(&mut session);
    let mut now = 50;
    for pause in [100, 200, 400, 800, 1600, 3200, 5000, 5000, 5000] {
        assert_eq!(session.outage_wait(), OutageStep::Connect);
        now += 7;
        assert!(is_quiet(&session.handle(Event::WaitOver { now })));
        assert_eq!(session.outage_wait(), OutageStep::Backoff(now + pause));
        now += pause;
        assert!(is_quiet(&session.handle(Event::WaitOver { now })));
    }
    reconnect(&mut session);
    lose_broker(&mut session);
    session.handle(Event::WaitOver { now });
    assert_eq!(session.outage_wait(), OutageStep::Backoff(now + 100));
}

#[test]
fn a_busy_client_delays_no_attempt() {
    let mut session = open(ProtocolVersion::MQTT3);
    lose_broker(&mut session);
    session.handle(Event::WaitOver { now: 1_000 });
    for i in 0..50 {
        let packet = MqttPacket::V3(v3::Packet::PingRequest);
        session.handle(Event::ClientPacket { packet, now: 1_000 + i });
        assert_eq!(session.outage_wait(), OutageStep::Backoff(1_100));
    }
    // Not a moment earlier, either.
    session.handle(Event::WaitOver { now: 1_099 });
    assert_eq!(session.outage_wait(), OutageStep::Backoff(1_100));
    session.handle(Event::WaitOver { now: 1_100 });
    assert_eq!(session.outage_wait(), OutageStep::Connect);
    // A failed replay counts like a failed connection.
    let event = EstablishEvent::ConnectReply(BrokerReply::Closed);
    session.establish_broker(event, 2_000).unwrap();
    assert_eq!(session.outage_wait(), OutageStep::Backoff(2_200));
    session.handle(Event::WaitOver { now: u64::MAX });
    session.handle(Event::WaitOver { now: u64::MAX });
    assert_eq!(session.outage_wait(), OutageStep::Backoff(u64::MAX));
}

#[test]
fn only_what_can_happen_is_accepted() {
    let mut session = open(ProtocolVersion::MQTT3);
    let from_broker = |packet| Event::BrokerPacket { packet, unread: Vec::new() };
    let from_client = |packet| Event::ClientPacket { packet, now: 1 };
    assert!(session.accepts(&from_broker(ack(1))));
    assert!(!session.accepts(&Event::WaitOver { now: 1 }));
    // A PUBREL needs an encoding only if it is kept.
    assert!(session.accepts(&from_client(release(0))));
    assert!(session.accepts(&from_broker(release(0))));
    let unnumbered = || match v3_publish(1, QoS::AtLeastOnce, "x") {
        MqttPacket::V3(v3::Packet::Publish(publish)) => {
            MqttPacket::V3(v3::Packet::Publish(Publish { packet_id: None, ..publish }))
        }
        other => other,
    };
    assert!(!session.accepts(&from_client(unnumbered())));
    assert!(!session.accepts(&from_broker(unnumbered())));
    lose_broker(&mut session);
    assert!(!session.accepts(&from_broker(ack(1))));
    assert!(!session.accepts(&Event::BrokerWriteFailed));
    assert!(!session.accepts(&Event::BrokerLost { unread: Vec::new() }));
    assert!(!session.accepts(&from_client(unnumbered())));
    assert!(session.accepts(&Event::WaitOver { now: 1 }));
    assert!(session.accepts(&Event::ClientClosed));
}

#[test]
fn publishes_during_an_outage_are_buffered_and_recovered() {
    let mut session = open(ProtocolVersion::MQTT3);
    lose_broker(&mut session);
    for i in 0..3u16 {
        let step = client(&mut session, v3_publish(10 + i, QoS::AtLeastOnce, "buffered"));
        assert_eq!(step.actions.len(), 1);
        assert!(matches!(
            step.actions[0],
            Action::SendToClient(MqttPacket::V3(v3::Packet::PublishAck { packet_id }))
                if packet_id == 10 + i
        ));
    }
    let replay = reconnect(&mut session);
    assert!(replay.broker.is_empty());
    let ids: Vec<u8> = replay.flushed.iter().map(|f| f[8]).collect();
    assert_eq!(ids, vec![10, 11, 12]);
    assert!(replay.flushed.iter().all(|f| f[0] == 0x32), "no DUP: it is the first delivery");

    // The broker's acks belong to the proxy, once each.
    for id in [11, 10, 12] {
        assert!(is_quiet(&broker(&mut session, ack(id))));
    }
    assert!(forwards_to_client(&broker(&mut session, ack(11))));
    // Nothing is flushed twice.
    lose_broker(&mut session);
    assert!(reconnect(&mut session).flushed.is_empty());
}

#[test]
fn qos2_during_an_outage_is_completed_by_the_proxy() {
    let mut session = open(ProtocolVersion::MQTT3);
    lose_broker(&mut session);
    let step = client(&mut session, v3_publish(5, QoS::ExactlyOnce, "once"));
    assert!(matches!(
        step.actions[0],
        Action::SendToClient(MqttPacket::V3(v3::Packet::PublishReceived { packet_id: 5 }))
    ));
    let step = client(&mut session, release(5));
    assert!(matches!(
        step.actions[0],
        Action::SendToClient(MqttPacket::V3(v3::Packet::PublishComplete { packet_id: 5 }))
    ));
    assert_eq!(reconnect(&mut session).flushed.len(), 1);
    let step = broker(&mut session, received(5));
    assert_eq!(step.actions.len(), 1);
    assert!(matches!(
        step.actions[0],
        Action::SendToBroker(MqttPacket::V3(v3::Packet::PublishRelease { packet_id: 5 }))
    ));
    assert!(is_quiet(&broker(&mut session, complete(5))));
    assert!(forwards_to_client(&broker(&mut session, complete(5))));
}

#[test]
fn v5_local_acks_are_swallowed_too() {
    let mut session = open(ProtocolVersion::MQTT5);
    lose_broker(&mut session);
    let publish = |id, qos| {
        MqttPacket::V5(v5::Packet::Publish(Publish {
            dup: false,
            retain: false,
            qos,
            topic: "t".to_owned(),
            packet_id: Some(id),
            payload: Vec::new(),
            properties: None,
        }))
    };
    client(&mut session, publish(1, QoS::AtLeastOnce));
    client(&mut session, publish(2, QoS::ExactlyOnce));
    reconnect(&mut session);
    let puback = || MqttPacket::V5(v5::Packet::PublishAck(PublishAck::success(1)));
    let pubrec = |id| MqttPacket::V5(v5::Packet::PublishReceived(PublishAck::success(id)));
    let pubcomp = || MqttPacket::V5(v5::Packet::PublishComplete(PublishAck::success(2)));
    assert!(is_quiet(&broker(&mut session, puback())));
    assert!(forwards_to_client(&broker(&mut session, puback())));
    assert!(forwards_to_client(&broker(&mut session, pubrec(1))));
    let step = broker(&mut session, pubrec(2));
    assert!(matches!(
        &step.actions[0],
        Action::SendToBroker(MqttPacket::V5(v5::Packet::PublishRelease(a)))
            if a.packet_id == 2 && a.reason_code == v5::SUCCESS
    ));
    assert!(is_quiet(&broker(&mut session, pubcomp())));
    assert!(forwards_to_client(&broker(&mut session, pubcomp())));
}

#[test]
fn too_much_during_an_outage_ends_the_session() {
    let mut session = open(ProtocolVersion::MQTT3);
    lose_broker(&mut session);
    let big = "x".repeat(400_000);
    assert!(goes_on(&client(&mut session, v3_publish(1, QoS::AtLeastOnce, &big))));
    assert!(goes_on(&client(&mut session, v3_publish(2, QoS::AtLeastOnce, &big))));
    let step = client(&mut session, v3_publish(3, QoS::AtLeastOnce, &big));
    let Verdict::Fail(error) = step.verdict else {
        panic!("no failure");
    };
    assert_eq!(error.kind(), ErrorKind::QuotaExceeded);
    assert!(step.actions.is_empty());
}

// ---------- replay ----------

#[test]
fn failed_replays_are_tried_again() {
    let failed = |event| {
        let mut session = open(ProtocolVersion::MQTT3);
        subscribe(&mut session, 1);
        client(&mut session, v3_publish(2, QoS::AtLeastOnce, "inflight"));
        session.handle(Event::BrokerLost { unread: vec![0xD0, 0x00] });
        client(&mut session, v3_publish(3, QoS::AtLeastOnce, "kept"));
        let why = tries_again(establish(&mut session, event));
        assert!(!session.is_connected());
        assert_eq!(session.outage_wait(), OutageStep::Backoff(1_100));
        session.handle(Event::WaitOver { now: 1_100 });
        assert_eq!(session.outage_wait(), OutageStep::Connect);
        // Nothing was forgotten.
        let replay = reconnect(&mut session);
        assert_eq!(replay.leftover, vec![vec![0xD0, 0x00]]);
        assert_eq!((replay.broker.len(), replay.flushed.len()), (1, 1));
        why
    };
    let connect = |reply| failed(EstablishEvent::ConnectReply(reply));
    assert_eq!(connect(BrokerReply::Closed), "broker closed during CONNECT replay");
    assert_eq!(connect(BrokerReply::Lost("reset".to_owned())), "reset");
    let busy = MqttPacket::V5(v5::Packet::Disconnect { reason_code: 0x89 });
    assert_eq!(connect(reply(busy)), "broker closed during CONNECT replay");
    let subscribe = |reply| failed(EstablishEvent::SubscribeReply(reply));
    assert_eq!(subscribe(BrokerReply::Closed), "broker closed during re-SUBSCRIBE");
    assert_eq!(subscribe(BrokerReply::Lost("reset".to_owned())), "reset");
    assert_eq!(failed(EstablishEvent::WriteFailed("reset".to_owned())), "reset");
}

#[test]
fn replies_that_end_a_session() {
    let ended = |event| {
        let mut session = open(ProtocolVersion::MQTT5);
        lose_broker(&mut session);
        session.establish_broker(event, 1_000).unwrap_err()
    };
    let error = ended(EstablishEvent::ConnectReply(BrokerReply::Error("bad".to_owned())));
    assert_eq!((error.kind(), error.message()), (ErrorKind::InvalidData, "bad".to_owned()));
    let error = ended(EstablishEvent::SubscribeReply(BrokerReply::Error("bad".to_owned())));
    assert_eq!((error.kind(), error.message()), (ErrorKind::InvalidData, "bad".to_owned()));
    let other = reply(MqttPacket::V5(v5::Packet::PingResponse));
    let error = ended(EstablishEvent::ConnectReply(other));
    assert_eq!(error.kind(), ErrorKind::InvalidData);
    assert_eq!(error.message(), "broker answered CONNECT replay with text");

    // The client learns that it is to blame.
    let mut session = open(ProtocolVersion::MQTT5);
    lose_broker(&mut session);
    for reason_code in [0x87, 0x82, 0x9B] {
        let blame = || reply(MqttPacket::V5(v5::Packet::Disconnect { reason_code }));
        for event in [EstablishEvent::ConnectReply(blame()), EstablishEvent::SubscribeReply(blame())] {
            assert!(matches!(establish(&mut session, event), EstablishAction::PassOn));
        }
    }
    assert_eq!(session.outage_wait(), OutageStep::Connect);
}

#[test]
fn a_write_that_fails_while_catching_up_loses_nothing() {
    let mut session = open(ProtocolVersion::MQTT3);
    lose_broker(&mut session);
    client(&mut session, v3_publish(1, QoS::AtLeastOnce, "kept"));
    let accepted = || EstablishEvent::ConnectReply(reply(connect_ack(ProtocolVersion::MQTT3)));
    assert!(matches!(
        establish(&mut session, accepted()),
        EstablishAction::CatchUp(replay) if replay.flushed.len() == 1
    ));
    assert_eq!(tries_again(establish(&mut session, EstablishEvent::WriteFailed("gone".to_owned()))), "gone");
    assert_eq!(reconnect(&mut session).flushed.len(), 1);
    assert!(is_quiet(&broker(&mut session, ack(1))));
}

#[test]
fn only_our_own_suback_ends_the_wait() {
    let mut session = open(ProtocolVersion::MQTT3);
    subscribe(&mut session, 7);
    broker(&mut session, v3_publish(51, QoS::ExactlyOnce, "s2"));
    client(&mut session, received(51));
    lose_broker(&mut session);
    let event = EstablishEvent::ConnectReply(reply(connect_ack(ProtocolVersion::MQTT3)));
    assert!(matches!(establish(&mut session, event), EstablishAction::SendSubscribe(_)));

    // A resumed session brings what it owes before the SUBACK.
    let ping = MqttPacket::V3(v3::Packet::PingResponse);
    let message = v3_publish(60, QoS::AtLeastOnce, "early");
    for packet in [release(51), ping, subscribe_ack(7), message] {
        assert!(matches!(subscribe_reply(&mut session, packet), EstablishAction::ReadOn));
        assert!(session.take_held(Vec::new()).is_none(), "not before the session has caught up");
    }
    assert!(matches!(
        subscribe_reply(&mut session, subscribe_ack(1)),
        EstablishAction::CatchUp(_)
    ));
    assert!(matches!(establish(&mut session, EstablishEvent::CaughtUp), EstablishAction::Forward));

    // What was held comes first, in order; the SUBACK is none of it.
    let event = Event::BrokerPacket { packet: ack(1), unread: Vec::new() };
    assert!(!session.accepts(&event));
    assert!(forwards_to_client(&session.take_held(Vec::new()).unwrap()));
    assert!(is_quiet(&session.take_held(Vec::new()).unwrap()), "PINGRESP is swallowed");
    assert!(forwards_to_client(&session.take_held(Vec::new()).unwrap()));
    assert!(forwards_to_client(&session.take_held(Vec::new()).unwrap()));
    assert!(session.take_held(Vec::new()).is_none());
    assert!(session.accepts(&event));
    // The message that was held is in flight like any other.
    assert_eq!(reconnect_after_loss(&mut session).client[0][8], 60);
}

#[test]
fn what_is_held_survives_a_failed_replay() {
    let mut session = open(ProtocolVersion::MQTT3);
    subscribe(&mut session, 7);
    lose_broker(&mut session);
    assert!(matches!(
        subscribe_reply(&mut session, v3_publish(1, QoS::AtMostOnce, "early")),
        EstablishAction::ReadOn
    ));
    tries_again(establish(&mut session, EstablishEvent::SubscribeReply(BrokerReply::Closed)));
    reconnect(&mut session);
    assert!(forwards_to_client(&session.take_held(Vec::new()).unwrap()));
    assert!(session.take_held(Vec::new()).is_none());
}

#[test]
fn a_v5_disconnect_during_a_replay() {
    let disconnect = |reason_code| MqttPacket::V5(v5::Packet::Disconnect { reason_code });
    let mut session = open(ProtocolVersion::MQTT5);
    lose_broker(&mut session);
    let why = tries_again(subscribe_reply(&mut session, disconnect(0x8B)));
    assert_eq!(why, "broker closed during re-SUBSCRIBE");
    assert!(matches!(subscribe_reply(&mut session, disconnect(0x87)), EstablishAction::PassOn));
    let acked =
        MqttPacket::V5(v5::Packet::SubscribeAck { packet_id: 1, status: Vec::new() });
    assert!(matches!(subscribe_reply(&mut session, acked), EstablishAction::CatchUp(_)));
    let other =
        MqttPacket::V5(v5::Packet::SubscribeAck { packet_id: 2, status: Vec::new() });
    assert!(matches!(subscribe_reply(&mut session, other), EstablishAction::ReadOn));
}

#[test]
fn only_subscriptions_wait_for_a_replay() {
    let topic_filters = || vec!["s/#".to_owned()];
    assert!(changes_subscriptions(&MqttPacket::V3(v3::Packet::Unsubscribe {
        packet_id: 1,
        topic_filters: topic_filters(),
    })));
    assert!(changes_subscriptions(&MqttPacket::V5(v5::Packet::Unsubscribe {
        packet_id: 1,
        topic_filters: topic_filters(),
    })));
    assert!(changes_subscriptions(&MqttPacket::V3(v3::Packet::Subscribe {
        packet_id: 1,
        topic_filters: Vec::new(),
    })));
    assert!(!changes_subscriptions(&MqttPacket::V3(v3::Packet::PingRequest)));
    assert!(!changes_subscriptions(&v3_publish(1, QoS::AtLeastOnce, "x")));
}

#[test]
fn a_connect_without_flags_cannot_be_replayed() {
    let hs = Handshake::from_snapshot_version(4, vec![0xC0, 0x00]).unwrap();
    let mut session = Session::open(hs, reply(connect_ack(ProtocolVersion::MQTT3)), 0).unwrap();
    lose_broker(&mut session);
    let error = session.establish_broker(EstablishEvent::Connected, 0).unwrap_err();
    assert_eq!(error.message(), "malformed CONNECT in snapshot");
}

#[test]
fn whole_frames_of_the_lost_connection_are_delivered() {
    let mut session = open(ProtocolVersion::MQTT3);
    let mut unread = vec![0xD0, 0x00];
    unread.extend_from_slice(&[0x40, 0x02, 0x00, 0x07]);
    unread.extend_from_slice(&[0x30, 0x7F, 0x00]);
    session.handle(Event::BrokerLost { unread });
    let replay = reconnect(&mut session);
    assert_eq!(replay.leftover, vec![vec![0xD0, 0x00], vec![0x40, 0x02, 0x00, 0x07]]);
    lose_broker(&mut session);
    assert!(reconnect(&mut session).leftover.is_empty());
}

#[test]
fn leftovers_stop_at_the_first_bad_frame() {
    let version = ProtocolVersion::MQTT3;
    assert!(leftover_frames(version, Vec::new()).is_empty());
    assert!(leftover_frames(version, vec![0xF0, 0x00, 0xD0, 0x00]).is_empty());
    assert_eq!(
        leftover_frames(version, vec![0xD0, 0x00, 0xF0, 0x00, 0xD0, 0x00]),
        vec![vec![0xD0, 0x00]]
    );
    let bytes = vec![1, 2, 3, 4, 5];
    let frame = |rest| Ok(Some(DecodedFrame { keep_alive: None, rest }));
    assert_eq!(next_frame(&bytes, frame(2)), Some((vec![1, 2, 3], vec![4, 5])));
    assert_eq!(next_frame(&bytes, frame(0)), Some((bytes.clone(), vec![])));
    assert_eq!(next_frame(&bytes, frame(5)), None);
    assert_eq!(next_frame(&bytes, Ok(None)), None);
    assert_eq!(next_frame(&bytes, Err("bad".to_owned())), None);
}

// ---------- freeze and thaw ----------

#[test]
fn snapshots_hold_everything() {
    let mut session = open(ProtocolVersion::MQTT3);
    client(&mut session, v3_publish(1, QoS::AtLeastOnce, "inflight"));
    client(
        &mut session,
        MqttPacket::V3(v3::Packet::Subscribe {
            packet_id: 2,
            topic_filters: vec![("sub/#".to_owned(), QoS::AtLeastOnce)],
        }),
    );
    lose_broker(&mut session);
    client(&mut session, v3_publish(3, QoS::ExactlyOnce, "kept"));
    let frozen = session.freeze(7, 42, vec![0xC0], None);
    assert_eq!((frozen.id, frozen.client_fd), (7, 42));
    let snapshot = frozen.snapshot;
    assert_eq!(snapshot.version, 4, "expected MQTT 3.1.1 (protocol level 4)");
    assert_eq!(snapshot.connect_raw, connect_raw(ProtocolVersion::MQTT3));
    assert_eq!(snapshot.client_buf, vec![0xC0]);
    assert!(snapshot.broker_buf.is_empty());
    assert_eq!(snapshot.windows.len(), 1, "window missing from snapshot");
    assert_eq!(snapshot.subscriptions[0].topic_filter, "sub/#");
    assert_eq!(snapshot.subscriptions[0].options, 1);
    assert_eq!((snapshot.buffered[0].packet_id, snapshot.buffered[0].qos), (3, 2));

    let session = open(ProtocolVersion::MQTT5);
    let frozen = session.freeze(1, 2, Vec::new(), Some(vec![0xD0, 0x00]));
    assert_eq!(frozen.snapshot.version, 5);
    assert_eq!(frozen.snapshot.broker_buf, vec![0xD0, 0x00]);
    let mut thawed = Session::adopt(frozen.snapshot, 0).unwrap();
    assert_eq!(reconnect(&mut thawed).leftover, vec![vec![0xD0, 0x00]]);
}

#[test]
fn thaw_resubscribes_and_forces_clean_session_false() {
    let mut session = open(ProtocolVersion::MQTT3);
    client(
        &mut session,
        MqttPacket::V3(v3::Packet::Subscribe {
            packet_id: 1,
            topic_filters: vec![("sub/#".to_owned(), QoS::AtLeastOnce)],
        }),
    );
    let mut thawed = freeze_and_thaw(session);
    assert!(!thawed.is_connected());
    assert!(matches!(
        establish(&mut thawed, EstablishEvent::Connected),
        EstablishAction::SendConnect(raw) if raw[9] & 0x02 == 0
    ));
    let event = EstablishEvent::ConnectReply(reply(connect_ack(ProtocolVersion::MQTT3)));
    let action = establish(&mut thawed, event);
    let EstablishAction::SendSubscribe(MqttPacket::V3(v3::Packet::Subscribe {
        packet_id,
        topic_filters,
    })) = action
    else {
        panic!("expected re-SUBSCRIBE, got {action:?}");
    };
    assert_eq!(packet_id, 1);
    assert_eq!(topic_filters, vec![("sub/#".to_string(), QoS::AtLeastOnce)]);
}

#[test]
fn c2b_window_retransmits_with_dup_on_thaw() {
    let mut session = open(ProtocolVersion::MQTT3);
    client(&mut session, v3_publish(1, QoS::AtLeastOnce, "inflight"));
    let mut thawed = freeze_and_thaw(session);
    let replay = reconnect(&mut thawed);
    assert_eq!(replay.broker.len(), 1);
    assert_eq!(replay.broker[0][0], 0x3A, "retransmitted publish must have DUP set");
    assert!(replay.broker[0].ends_with(b"inflight"));
    // The ack chains back to the client through the adopted session.
    assert!(forwards_to_client(&broker(&mut thawed, ack(1))));
}

#[test]
fn b2c_window_replays_unacked_publishes_on_thaw() {
    let mut session = open(ProtocolVersion::MQTT3);
    for i in 0..3u16 {
        broker(&mut session, v3_publish(10 + i, QoS::AtLeastOnce, &format!("b2c-{i}")));
    }
    let mut thawed = freeze_and_thaw(session);
    let replay = reconnect(&mut thawed);
    assert_eq!(replay.client.len(), 3);
    for i in 0..3usize {
        assert_eq!(replay.client[i][0], 0x3A, "replayed publish must have DUP set");
        assert!(replay.client[i].ends_with(format!("b2c-{i}").as_bytes()));
    }
}

#[test]
fn qos2_c2b_interrupt_before_pubrec() {
    let mut session = open(ProtocolVersion::MQTT3);
    client(&mut session, v3_publish(1, QoS::ExactlyOnce, "c1"));
    let mut thawed = freeze_and_thaw(session);
    assert_eq!(reconnect(&mut thawed).broker[0][0], 0x3C);
    assert!(forwards_to_client(&broker(&mut thawed, received(1))));
    assert!(forwards_to_broker(&client(&mut thawed, release(1))));
    assert!(forwards_to_client(&broker(&mut thawed, complete(1))));
    assert!(reconnect_after_loss(&mut thawed).broker.is_empty());
}

fn reconnect_after_loss(session: &mut Session) -> Replay {
    lose_broker(session);
    reconnect(session)
}

#[test]
fn qos2_c2b_interrupt_after_pubrec() {
    let mut session = open(ProtocolVersion::MQTT3);
    client(&mut session, v3_publish(1, QoS::ExactlyOnce, "c2"));
    broker(&mut session, received(1));
    let mut thawed = freeze_and_thaw(session);
    assert_eq!(reconnect(&mut thawed).broker[0][0], 0x3C);
    assert!(forwards_to_client(&broker(&mut thawed, received(1))));
}

#[test]
fn qos2_c2b_interrupt_after_pubrel() {
    let mut session = open(ProtocolVersion::MQTT3);
    client(&mut session, v3_publish(1, QoS::ExactlyOnce, "c3"));
    broker(&mut session, received(1));
    client(&mut session, release(1));
    let mut thawed = freeze_and_thaw(session);
    assert_eq!(reconnect(&mut thawed).broker, vec![vec![0x62, 2, 0, 1]]);
    assert!(forwards_to_client(&broker(&mut thawed, complete(1))));
}

#[test]
fn qos2_c2b_interrupt_after_pubcomp() {
    let mut session = open(ProtocolVersion::MQTT3);
    client(&mut session, v3_publish(1, QoS::ExactlyOnce, "c4"));
    broker(&mut session, received(1));
    client(&mut session, release(1));
    broker(&mut session, complete(1));
    let replay = reconnect(&mut freeze_and_thaw(session));
    assert!(replay.broker.is_empty() && replay.flushed.is_empty());
}

#[test]
fn qos2_b2c_interrupt_before_pubrec() {
    let mut session = open(ProtocolVersion::MQTT3);
    broker(&mut session, v3_publish(50, QoS::ExactlyOnce, "s1"));
    let mut thawed = freeze_and_thaw(session);
    let replay = reconnect(&mut thawed);
    assert_eq!(replay.client[0][0], 0x3C);
    assert_eq!(replay.client[0][8], 50);
    assert!(forwards_to_broker(&client(&mut thawed, received(50))));
    assert!(forwards_to_client(&broker(&mut thawed, release(50))));
    assert!(forwards_to_broker(&client(&mut thawed, complete(50))));
}

#[test]
fn qos2_b2c_interrupt_after_pubrec() {
    let mut session = open(ProtocolVersion::MQTT3);
    broker(&mut session, v3_publish(51, QoS::ExactlyOnce, "s2"));
    client(&mut session, received(51));
    let mut thawed = freeze_and_thaw(session);
    assert!(reconnect(&mut thawed).client.is_empty());
    assert!(forwards_to_client(&broker(&mut thawed, release(51))));
    assert!(forwards_to_broker(&client(&mut thawed, complete(51))));
}

#[test]
fn qos2_b2c_interrupt_after_pubcomp() {
    let mut session = open(ProtocolVersion::MQTT3);
    broker(&mut session, v3_publish(53, QoS::ExactlyOnce, "s4"));
    client(&mut session, received(53));
    broker(&mut session, release(53));
    client(&mut session, complete(53));
    let frozen = session.freeze(1, 1, Vec::new(), None);
    assert!(frozen.snapshot.windows.is_empty());
}

#[test]
fn buffered_messages_survive_a_migration() {
    let mut session = open(ProtocolVersion::MQTT3);
    lose_broker(&mut session);
    client(&mut session, v3_publish(1, QoS::AtLeastOnce, "first"));
    client(&mut session, v3_publish(2, QoS::ExactlyOnce, "second"));
    let mut thawed = freeze_and_thaw(session);
    let replay = reconnect(&mut thawed);
    assert_eq!(replay.flushed.len(), 2);
    assert!(replay.flushed[0].ends_with(b"first"));
    assert!(replay.flushed[1].ends_with(b"second"));
    assert!(is_quiet(&broker(&mut thawed, ack(1))));
    assert_eq!(thawed.deadline(), 90_005);
}

#[test]
fn frozen_sessions_hold_and_resume() {
    let session = open(ProtocolVersion::MQTT3);
    let frozen = || session.freeze(1, 3, vec![0xC0, 0x00], Some(vec![0xD0]));
    for reply in [FreezeReply::Undelivered(frozen()), FreezeReply::Resumed(frozen())] {
        let FreezeOutcome::Resume { client_buf, broker_buf } = freeze_outcome(reply) else {
            panic!("did not resume");
        };
        assert_eq!(client_buf, vec![0xC0, 0x00]);
        assert_eq!(broker_buf, vec![0xD0]);
    }
    assert!(matches!(freeze_outcome(FreezeReply::Dropped), FreezeOutcome::Exit));
}

#[test]
fn snapshots_that_cannot_be_replayed() {
    let good = || -> SessionSnapshot {
        let FrozenSession { snapshot, .. } =
            open(ProtocolVersion::MQTT3).freeze(1, 1, Vec::new(), None);
        snapshot
    };
    assert!(good().is_replayable());
    let mut bad = good();
    bad.windows.push(WindowEntry {
        packet_id: 1,
        state: WindowState::C2BPublishSent,
        raw: Vec::new(),
    });
    assert!(!bad.is_replayable());
    let mut bad = good();
    bad.buffered.push(BufferedPublish { packet_id: 1, raw: vec![0x30], qos: 0 });
    assert!(!bad.is_replayable());
    let mut unknown = good();
    unknown.version = 6;
    assert_eq!(
        Session::adopt(unknown, 0).unwrap_err().message(),
        "unknown MQTT protocol level 6"
    );
    let mut cut = good();
    cut.connect_raw.truncate(5);
    assert_eq!(
        Session::adopt(cut, 0).unwrap_err().message(),
        "undecodable CONNECT in snapshot"
    );
}

#[test]
fn thawing_takes_a_known_handshake() {
    let mut session = open(ProtocolVersion::MQTT3);
    client(&mut session, v3_publish(1, QoS::AtLeastOnce, "x"));
    let snapshot = session.freeze(1, 1, Vec::new(), None).snapshot;
    let hs = Handshake {
        version: ProtocolVersion::MQTT3,
        connect_raw: connect_raw(ProtocolVersion::MQTT3),
        keep_alive: 2,
    };
    let mut thawed = Session::thaw(hs, snapshot, 1_000);
    assert_eq!(thawed.deadline(), 4_000);
    assert_eq!(reconnect(&mut thawed).broker.len(), 1);
}
