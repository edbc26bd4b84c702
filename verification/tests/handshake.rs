use bytes::BytesMut;
use rmqtt_codec::v3 as codec_v3;
use rmqtt_codec::v5 as codec_v5;
use tokio_util::codec::{Decoder, Encoder};
use traffic_director::error::ErrorKind;
use traffic_director::session::handshake::{
    accept_connect, force_session_resumption, handshake, refuse_connect, Handshake,
};
use traffic_director::types::{DecodedFrame, ProtocolVersion};
use traffic_director::{v3, v5, MqttPacket};

const MAX: u32 = 1024 * 1024;

fn v3_connect(client_id: &str, keep_alive: u16) -> Vec<u8> {
    let connect = codec_v3::Connect { clean_session: true, keep_alive, ..Default::default() }
        .client_id(client_id.to_owned());
    let mut buf = BytesMut::new();
    codec_v3::Codec::new(MAX)
        .encode(codec_v3::Packet::Connect(Box::new(connect)), &mut buf)
        .unwrap();
    buf.to_vec()
}

fn v5_connect(client_id: &str, keep_alive: u16) -> Vec<u8> {
    let connect = codec_v5::Connect {
        clean_start: true,
        client_id: client_id.into(),
        keep_alive,
        ..Default::default()
    };
    let mut buf = BytesMut::new();
    codec_v5::Codec::new(MAX, MAX)
        .encode(codec_v5::Packet::Connect(Box::new(connect)), &mut buf)
        .unwrap();
    buf.to_vec()
}

#[test]
fn proxy_rejects_garbage_first_packet() {
    let bytes = b"this is not mqtt at all, padded out past thirty-two bytes...";
    let error = handshake(bytes, false).unwrap_err();
    assert_eq!(error.kind(), ErrorKind::InvalidData);
}

#[test]
fn v3_connect_is_accepted_and_kept() {
    let mut bytes = v3_connect("hs-3", 30);
    let raw = bytes.clone();
    bytes.extend_from_slice(&[0xC0, 0x00]);
    let accepted = handshake(&bytes, false).unwrap().unwrap();
    assert_eq!(accepted.rest, 2);
    let hs = accepted.handshake;
    assert_eq!(hs.version, ProtocolVersion::MQTT3);
    assert_eq!(hs.version_byte(), 4);
    assert_eq!(hs.keep_alive, 30);
    assert_eq!(hs.connect_raw, raw);
}

#[test]
fn v5_connect_is_accepted_and_kept() {
    let bytes = v5_connect("hs-5", 0);
    let accepted = handshake(&bytes, false).unwrap().unwrap();
    assert_eq!(accepted.rest, 0);
    let hs = accepted.handshake;
    assert_eq!(hs.version, ProtocolVersion::MQTT5);
    assert_eq!(hs.version_byte(), 5);
    assert_eq!(hs.keep_alive, 0);
    assert_eq!(hs.connect_raw, bytes);
}

fn first_bytes(name: &[u8], level: u8) -> Vec<u8> {
    let mut bytes = vec![0x10, (name.len() + 10) as u8, 0, name.len() as u8];
    bytes.extend_from_slice(name);
    // Level, flags (clean), keepalive, client identifier.
    bytes.extend_from_slice(&[level, 0x02, 0x00, 0x1E, 0x00, 0x02, b'i', b'd']);
    bytes
}

#[test]
fn the_protocol_level_decides_the_version() {
    let version = |name: &[u8], level| {
        handshake(&first_bytes(name, level), false).map(|a| a.unwrap().handshake.version)
    };
    assert_eq!(version(b"MQTT", 4).unwrap(), ProtocolVersion::MQTT3);
    assert_eq!(version(b"MQTT", 3).unwrap(), ProtocolVersion::MQTT3);
    assert_eq!(version(b"MQIsdp", 3).unwrap(), ProtocolVersion::MQTT3);
    for (name, level) in [(&b"MQTT"[..], 6), (b"MQTT", 0), (b"HTTP", 4), (b"MQIsdq", 3), (b"MQT", 4)] {
        assert_eq!(version(name, level).unwrap_err().message(), "Invalid protocol");
    }
    let error = handshake(&[0xC0, 0x00], false).unwrap_err();
    assert_eq!(error.message(), "Unsupported packet type");
    let error = handshake(&[0x10, 0x80, 0x80, 0x80, 0x80], false).unwrap_err();
    assert_eq!(error.message(), "Invalid length");
    assert!(handshake(&[0x10, 0x80, 0x80, 0x80], false).unwrap().is_none());
}

#[test]
fn what_is_kept_says_the_same() {
    // MQTT 3.1 is kept as a packet that a version 3 codec reads back.
    let bytes = first_bytes(b"MQIsdp", 3);
    let hs = handshake(&bytes, false).unwrap().unwrap().handshake;
    assert_eq!(hs.keep_alive, 30);
    assert_eq!(hs.connect_raw[10], 4);
    assert_eq!(&hs.connect_raw[11..], &bytes[11..]);
    let again = handshake(&hs.connect_raw, false).unwrap().unwrap();
    assert_eq!((again.handshake.keep_alive, again.rest), (30, 0));
    assert_eq!(again.handshake.connect_raw.len(), hs.connect_raw.len() - 2);

    // Bytes of the frame that mean nothing are left out.
    let mut padded = first_bytes(b"MQTT", 4);
    padded[1] += 3;
    padded.extend_from_slice(&[9, 9, 9, 0xC0, 0x00]);
    let accepted = handshake(&padded, false).unwrap().unwrap();
    assert_eq!(accepted.rest, 2);
    assert_eq!(accepted.handshake.connect_raw, first_bytes(b"MQTT", 4));

    // A version 5 packet comes back with its payload.
    let connect = codec_v5::Connect {
        clean_start: true,
        client_id: "who".into(),
        username: Some("user".into()),
        keep_alive: 9,
        request_problem_info: false,
        ..Default::default()
    };
    let mut buf = BytesMut::new();
    codec_v5::Codec::new(MAX, MAX)
        .encode(codec_v5::Packet::Connect(Box::new(connect)), &mut buf)
        .unwrap();
    let hs = handshake(&buf, false).unwrap().unwrap().handshake;
    assert_eq!(hs.connect_raw, buf.to_vec());
    assert_eq!(hs.keep_alive, 9);
}

fn v5_frame(flags: u8, behind_keepalive: &[&[u8]]) -> Vec<u8> {
    let mut body = vec![0, 4, b'M', b'Q', b'T', b'T', 5, flags, 0, 60];
    for part in behind_keepalive {
        body.extend_from_slice(part);
    }
    let mut frame = vec![0x10];
    assert!(body.len() < 16_384);
    if body.len() >= 128 {
        frame.push((body.len() % 128 + 128) as u8);
        frame.push((body.len() / 128) as u8);
    } else {
        frame.push(body.len() as u8);
    }
    frame.extend_from_slice(&body);
    frame
}

#[test]
fn every_v5_property_is_kept() {
    let expiry: &[u8] = &[0x11, 0, 0, 0, 9];
    let method: &[u8] = &[0x15, 0, 1, b'm'];
    let data: &[u8] = &[0x16, 0, 2, 7, 8];
    let problem: &[u8] = &[0x17, 1];
    let response: &[u8] = &[0x19, 1];
    let receive: &[u8] = &[0x21, 0, 5];
    let aliases: &[u8] = &[0x22, 0, 0];
    let largest: &[u8] = &[0x27, 0, 0, 1, 0];
    let first: &[u8] = &[0x26, 0, 1, b'a', 0, 1, b'b'];
    let second: &[u8] = &[0x26, 0, 1, b'a', 0, 0];
    let delay: &[u8] = &[0x18, 0, 0, 0, 0];
    let utf8: &[u8] = &[0x01, 0];
    let lifetime: &[u8] = &[0x02, 0, 0, 0, 3];
    let content: &[u8] = &[0x03, 0, 1, b'c'];
    let answer: &[u8] = &[0x08, 0, 1, b'r'];
    let related: &[u8] = &[0x09, 0, 1, 1];
    let behind: &[u8] = &[0, 1, b't', 0, 2, 1, 2, 0, 1, b'u', 0, 1, b'p'];
    let id: &[u8] = &[0, 2, b'i', b'd'];

    let properties =
        [first, aliases, problem, response, largest, receive, data, method, expiry, second].concat();
    let will = [first, related, answer, content, lifetime, utf8, delay, second].concat();
    let flags = 0xEE;
    let bytes = v5_frame(
        flags,
        &[
            // A length may take more bytes than it has to.
            &[properties.len() as u8 | 0x80, 0],
            &properties,
            id,
            &[will.len() as u8],
            &will,
            behind,
            &[9, 9],
        ],
    );
    // Those that say what goes without saying are left out, the others ordered.
    let properties = [expiry, method, data, response, receive, largest, first, second].concat();
    let will = [delay, utf8, lifetime, content, answer, related, first, second].concat();
    let kept = v5_frame(
        flags,
        &[&[properties.len() as u8], &properties, id, &[will.len() as u8], &will, behind],
    );
    let accepted = handshake(&bytes, false).unwrap().unwrap();
    assert_eq!(accepted.handshake.connect_raw, kept);
    assert_eq!((accepted.handshake.keep_alive, accepted.rest), (60, 0));

    // Decoded again it is the same packet.
    let decode = |raw: &[u8]| {
        let mut codec = codec_v5::Codec::new(MAX, MAX);
        codec.decode(&mut BytesMut::from(raw)).unwrap().unwrap().0
    };
    assert_eq!(decode(&kept), decode(&bytes));
    // And keeping it again changes nothing.
    assert_eq!(handshake(&kept, false).unwrap().unwrap().handshake.connect_raw, kept);
}

#[test]
fn v5_properties_that_say_something_are_kept() {
    let said: &[u8] =
        &[0x11, 0, 0, 0, 0, 0x17, 0, 0x19, 0, 0x22, 0, 1];
    let id: &[u8] = &[0, 1, b'i'];
    // Bits that speak of a will that is not there are cleared.
    let bytes = v5_frame(0x2A, &[&[said.len() as u8], said, id]);
    let kept = v5_frame(0x02, &[&[5], &[0x17, 0, 0x22, 0, 1], id]);
    assert_eq!(handshake(&bytes, false).unwrap().unwrap().handshake.connect_raw, kept);
}

#[test]
fn a_v3_will_is_kept() {
    let payload = [0, 1, b'i', 0, 1, b't', 0, 2, 1, 2, 0, 1, b'u', 0, 1, b'p'];
    let mut bytes = vec![0x10, 28, 0, 4, b'M', b'Q', b'T', b'T', 4, 0xF6, 0, 60];
    bytes.extend_from_slice(&payload);
    let kept = {
        let mut kept = bytes.clone();
        kept[1] = 26;
        kept
    };
    bytes.extend_from_slice(&[9, 9]);
    let accepted = handshake(&bytes, false).unwrap().unwrap();
    assert_eq!((accepted.handshake.connect_raw, accepted.rest), (kept, 0));
}

#[test]
fn an_incomplete_connect_waits_for_more() {
    let bytes = v3_connect("hs-cut", 30);
    for n in 0..bytes.len() {
        assert!(handshake(&bytes[..n], false).unwrap().is_none(), "{n} bytes");
    }
}

#[test]
fn a_client_that_closes_early() {
    let error = handshake(&[], true).unwrap_err();
    assert_eq!(error.kind(), ErrorKind::UnexpectedEof);
    assert_eq!(error.message(), "client closed before CONNECT");

    let bytes = v3_connect("hs-eof", 30);
    for n in 1..bytes.len() {
        let error = handshake(&bytes[..n], true).unwrap_err();
        assert_eq!(error.kind(), ErrorKind::InvalidData);
        assert_eq!(error.message(), "io error, \"bytes remaining on stream\"");
    }
    assert!(handshake(&bytes, true).unwrap().is_some());
}

#[test]
fn accepting_goes_by_what_the_codec_says() {
    let version = ProtocolVersion::MQTT3;
    let frame = DecodedFrame { keep_alive: Some(9), rest: 4 };
    let no_keepalive = DecodedFrame { keep_alive: None, rest: 0 };
    let raw = || Ok(Some(vec![0x10, 0x00]));

    let accepted = accept_connect(version, Ok(Some(frame)), raw(), false).unwrap().unwrap();
    assert_eq!(accepted.rest, 4);
    let hs = accepted.handshake;
    assert_eq!((hs.keep_alive, hs.connect_raw), (9, vec![0x10, 0x00]));
    let accepted = accept_connect(version, Ok(Some(no_keepalive)), raw(), true).unwrap().unwrap();
    assert_eq!((accepted.handshake.keep_alive, accepted.rest), (0, 0));

    assert!(accept_connect(version, Ok(None), raw(), false).unwrap().is_none());
    assert!(accept_connect(version, Ok(Some(frame)), Ok(None), false).unwrap().is_none());
    let error = accept_connect(version, Ok(None), raw(), true).unwrap_err();
    assert_eq!(error.message(), "io error, \"bytes remaining on stream\"");
    let error = accept_connect(version, Err("no".to_owned()), raw(), false).unwrap_err();
    assert_eq!(error.message(), "no");
    let error =
        accept_connect(version, Ok(Some(frame)), Err("too big".to_owned()), false).unwrap_err();
    assert_eq!(error.message(), "too big");
}

#[test]
fn resumption_clears_the_clean_bit_and_nothing_else() {
    let original = v3_connect("resume", 30);
    let mut patched = original.clone();
    force_session_resumption(&mut patched).unwrap();
    // Fixed header (2), "MQTT" with its length (6), level (1): flags at 9.
    let mut expected = original.clone();
    assert_eq!(expected[9] & 0x02, 0x02);
    expected[9] &= !0x02;
    assert_eq!(patched, expected);

    let again = patched.clone();
    force_session_resumption(&mut patched).unwrap();
    assert_eq!(patched, again);

    let (packet, _) = codec_v3::Codec::new(MAX)
        .decode(&mut BytesMut::from(&patched[..]))
        .unwrap()
        .unwrap();
    let codec_v3::Packet::Connect(connect) = packet else {
        panic!("not a CONNECT: {packet:?}");
    };
    assert!(!connect.clean_session);
    assert_eq!(&connect.client_id[..], "resume");
}

#[test]
fn resumption_works_behind_a_long_length() {
    let mut bytes = v5_connect(&"x".repeat(300), 30);
    assert!(bytes[1] >= 0x80);
    force_session_resumption(&mut bytes).unwrap();
    let (packet, _) = codec_v5::Codec::new(MAX, MAX)
        .decode(&mut BytesMut::from(&bytes[..]))
        .unwrap()
        .unwrap();
    let codec_v5::Packet::Connect(connect) = packet else {
        panic!("not a CONNECT: {packet:?}");
    };
    assert!(!connect.clean_start);
}

#[test]
fn resumption_of_a_malformed_connect_fails() {
    let whole = v3_connect("m", 30);
    for n in 0..10 {
        let mut cut = whole[..n].to_vec();
        let error = force_session_resumption(&mut cut).unwrap_err();
        assert_eq!(error.message(), "malformed CONNECT in snapshot");
        assert_eq!(error.kind(), ErrorKind::InvalidData);
        assert_eq!(cut, whole[..n].to_vec());
    }
    let mut shortest = whole[..10].to_vec();
    assert!(force_session_resumption(&mut shortest).is_ok());
    let mut endless = vec![0x10, 0x80, 0x80, 0x80];
    assert!(force_session_resumption(&mut endless).is_err());
}

#[test]
fn snapshots_give_back_the_handshake() {
    let hs = Handshake::from_snapshot_version(4, v3_connect("s", 17)).unwrap();
    assert_eq!((hs.version, hs.keep_alive), (ProtocolVersion::MQTT3, 17));
    let hs = Handshake::from_snapshot_version(5, v5_connect("s", 18)).unwrap();
    assert_eq!((hs.version, hs.keep_alive), (ProtocolVersion::MQTT5, 18));
    // A packet that is no CONNECT has no keepalive.
    let hs = Handshake::from_snapshot_version(4, vec![0xC0, 0x00]).unwrap();
    assert_eq!(hs.keep_alive, 0);
}

#[test]
fn snapshots_that_hold_no_handshake() {
    let error = Handshake::from_snapshot_version(3, v3_connect("s", 17)).unwrap_err();
    assert_eq!(error.message(), "unknown MQTT protocol level 3");
    let error = Handshake::from_snapshot_version(255, Vec::new()).unwrap_err();
    assert_eq!(error.message(), "unknown MQTT protocol level 255");
    let error = Handshake::from_snapshot_version(4, vec![0x10]).unwrap_err();
    assert_eq!(error.message(), "undecodable CONNECT in snapshot");
    let error = Handshake::from_snapshot_version(4, vec![0xF0, 0x00]).unwrap_err();
    assert_eq!(error.kind(), ErrorKind::InvalidData);

    let raw = vec![0x10, 0x00];
    let decoded = Err("bad packet".to_owned());
    let error = Handshake::from_decoded(ProtocolVersion::MQTT3, raw, decoded).unwrap_err();
    assert_eq!(error.message(), "bad packet");
}

#[test]
fn a_broker_may_assign_its_own_keepalive() {
    let mut hs = Handshake::from_snapshot_version(5, v5_connect("s", 60)).unwrap();
    let ack = |server_keepalive_sec| {
        MqttPacket::V5(v5::Packet::ConnectAck { reason_code: 0, server_keepalive_sec })
    };
    hs.adopt_server_keepalive(&ack(None));
    assert_eq!(hs.keep_alive, 60);
    hs.adopt_server_keepalive(&ack(Some(7)));
    assert_eq!(hs.keep_alive, 7);
    hs.adopt_server_keepalive(&MqttPacket::V3(v3::Packet::ConnectAck { return_code: 0 }));
    assert_eq!(hs.keep_alive, 7);
}

#[test]
fn clients_are_refused_without_a_broker() {
    assert!(matches!(
        refuse_connect(ProtocolVersion::MQTT3),
        MqttPacket::V3(v3::Packet::ConnectAck { return_code: 0x03 })
    ));
    assert!(matches!(
        refuse_connect(ProtocolVersion::MQTT5),
        MqttPacket::V5(v5::Packet::ConnectAck { reason_code: 0x88, server_keepalive_sec: None })
    ));
}
