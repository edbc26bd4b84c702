//! Calls into the MQTT codec crate. Everything here is trusted: each contract
//! says what the codec's source does.

use bytes::BytesMut;
use rmqtt_codec::types::{Publish as CodecPublish, QoS as CodecQoS};
use rmqtt_codec::v3::{Codec as V3Codec, Packet as V3Packet};
use rmqtt_codec::v5::{Codec as V5Codec, Packet as V5Packet};
use rmqtt_codec::v5::PublishProperties as CodecProperties;
use rmqtt_codec::v5::{PublishAck2, PublishAck2Reason};
use rmqtt_codec::version::{ProtocolVersion as CodecVersion, VersionCodec};
use rmqtt_codec::{MqttCodec, MqttPacket as CodecPacket};
use std::num::{NonZeroU16, NonZeroU32};
use tokio_util::codec::{Decoder, Encoder};
use vstd::prelude::*;

use crate::frame::{
    awaits_more, behind_frame, connect_keep_alive, flags_index, is_oversized, plain_connect,
    plain_connect_body, version_announced,
};
use crate::packet::{v3_publish_frame, v3_release_frame, v5_publish_frame, v5_release_frame};
use crate::types::{
    DecodedFrame, ProtocolVersion, Publish, QoS, CONNECT_FIRST_BYTE, MAX_PACKET_SIZE,
};
use crate::v5::{PublishAck, PublishProperties, PublishPropertiesView};

verus! {

/// The codec's own form of the properties of a version 5 PUBLISH packet.
#[verifier::external_type_specification]
#[verifier::external_body]
pub struct ExCodecProperties(CodecProperties);

/// What a value of the codec's property type holds.
pub uninterp spec fn properties_content(properties: CodecProperties) -> PublishPropertiesView;

/// What the codec makes of the first frame of some bytes: an error text, `None`
/// for an incomplete frame, else what is known of the packet.
pub uninterp spec fn frame_decoded(version: ProtocolVersion, bytes: Seq<u8>) -> Result<
    Option<DecodedFrame>,
    Seq<char>,
>;

/// Builds the codec's `rmqtt_codec::v5::PublishProperties`, field by field. The
/// contract claims that the value holds the given properties; numbers that the
/// codec keeps as non-zero integers must not be zero.
#[verifier::external_body]
pub(crate) fn codec_properties(properties: &PublishProperties) -> (built: CodecProperties)
    requires
        properties@.wf(),
    ensures
        properties_content(built) == properties@,
{
    let users = properties.user_properties.iter();
    let ids = properties.subscription_ids.iter();
    CodecProperties {
        topic_alias: properties.topic_alias.and_then(NonZeroU16::new),
        correlation_data: properties.correlation_data.clone().map(Into::into),
        message_expiry_interval: properties.message_expiry_interval.and_then(NonZeroU32::new),
        content_type: properties.content_type.clone().map(Into::into),
        user_properties: users.map(|(k, v)| (k.as_str().into(), v.as_str().into())).collect(),
        is_utf8_payload: properties.is_utf8_payload,
        response_topic: properties.response_topic.clone().map(Into::into),
        subscription_ids: ids.map(|id| NonZeroU32::new(*id).unwrap()).collect(),
    }
}

/// Encodes with `rmqtt_codec::v3::Codec`. The contract gives the frame byte by
/// byte: type and flags, remaining length, topic, packet identifier, payload.
/// The codec refuses a topic that does not fit its length prefix and panics on
/// a frame longer than a variable-length integer can say.
#[verifier::external_body]
pub(crate) fn encode_v3_publish(publish: &Publish) -> (frame: Vec<u8>)
    requires
        publish@.v3_encodable(),
    ensures
        frame@ == v3_publish_frame(publish@),
{
    let qos = match publish.qos {
        QoS::AtMostOnce => CodecQoS::AtMostOnce,
        QoS::AtLeastOnce => CodecQoS::AtLeastOnce,
        QoS::ExactlyOnce => CodecQoS::ExactlyOnce,
    };
    let publish = CodecPublish {
        dup: publish.dup, retain: publish.retain, qos,
        topic: publish.topic.as_str().into(),
        packet_id: publish.packet_id.and_then(NonZeroU16::new),
        payload: publish.payload.clone().into(),
        properties: None,
    };
    let mut frame = BytesMut::new();
    V3Codec::new(MAX_PACKET_SIZE).encode(publish.into(), &mut frame).unwrap();
    frame.to_vec()
}

/// Encodes with `rmqtt_codec::v5::Codec`. The contract gives the frame byte by
/// byte: type and flags, remaining length, topic, packet identifier, the property
/// section with its length, payload. The codec refuses a packet larger than its
/// limit or with a text that does not fit its length prefix, and panics on a
/// subscription identifier that no variable-length integer can carry.
#[verifier::external_body]
pub(crate) fn encode_v5_publish(
    publish: &Publish,
    properties: Option<CodecProperties>,
) -> (frame: Vec<u8>)
    requires
        publish@.v5_encodable(),
        match publish@.properties {
            Some(content) => properties matches Some(built) && properties_content(built) == content,
            None => properties is None,
        },
    ensures
        frame@ == v5_publish_frame(publish@),
{
    let qos = match publish.qos {
        QoS::AtMostOnce => CodecQoS::AtMostOnce,
        QoS::AtLeastOnce => CodecQoS::AtLeastOnce,
        QoS::ExactlyOnce => CodecQoS::ExactlyOnce,
    };
    let publish = CodecPublish {
        dup: publish.dup, retain: publish.retain, qos,
        topic: publish.topic.as_str().into(),
        packet_id: publish.packet_id.and_then(NonZeroU16::new),
        payload: publish.payload.clone().into(),
        properties,
    };
    let (max, mut frame) = (MAX_PACKET_SIZE, BytesMut::new());
    V5Codec::new(max, max).encode(publish.into(), &mut frame).unwrap();
    frame.to_vec()
}

/// Encodes a PUBREL packet with `rmqtt_codec::v3::Codec`: two bytes of fixed
/// header and the packet identifier.
#[verifier::external_body]
pub(crate) fn encode_v3_release(packet_id: u16) -> (frame: Vec<u8>)
    requires
        packet_id != 0,
    ensures
        frame@ == v3_release_frame(packet_id),
{
    let packet = V3Packet::PublishRelease {
        packet_id: NonZeroU16::new(packet_id).unwrap(),
    };
    let mut frame = BytesMut::new();
    V3Codec::new(MAX_PACKET_SIZE).encode(packet, &mut frame).unwrap();
    frame.to_vec()
}

/// Encodes a PUBREL packet with `rmqtt_codec::v5::Codec`. The contract gives the
/// frame byte by byte: fixed header, packet identifier, reason code, property
/// section. Of properties that are too large the codec encodes the user properties
/// up to the first that does not fit, and the reason string only if it fits
/// behind all of them. The codec refuses a text that does not fit its length
/// prefix.
#[verifier::external_body]
pub(crate) fn encode_v5_release(ack: &PublishAck) -> (frame: Vec<u8>)
    requires
        ack@.is_release(),
    ensures
        frame@ == v5_release_frame(ack@),
{
    let properties = ack.properties.iter();
    let ack = PublishAck2 {
        packet_id: NonZeroU16::new(ack.packet_id).unwrap(),
        reason_code: PublishAck2Reason::try_from(ack.reason_code).unwrap(),
        properties: properties.map(|(k, v)| (k.as_str().into(), v.as_str().into())).collect(),
        reason_string: ack.reason_string.clone().map(Into::into),
    };
    let (max, mut frame) = (MAX_PACKET_SIZE, BytesMut::new());
    let packet = V5Packet::PublishRelease(ack);
    V5Codec::new(max, max).encode(packet, &mut frame).unwrap();
    frame.to_vec()
}

/// Decodes the first packet of `bytes` with `rmqtt_codec::MqttCodec`, set up for
/// one protocol version. The contract names the outcome, which depends on the
/// version and the bytes alone, and claims of it: the codec asks for more bytes
/// exactly while the frame that the header announces is not there, and refuses a
/// header that announces too much; a decoded frame takes what its header
/// announces, at least two bytes; and it has a keepalive exactly if its first
/// byte is that of a CONNECT packet, namely that of the two bytes behind the
/// flags. Which whole frames the codec takes is left unsaid. An error is given by
/// its text.
#[verifier::external_body]
pub(crate) fn decode_frame(version: ProtocolVersion, bytes: &[u8]) -> (decoded: Result<
    Option<DecodedFrame>,
    String,
>)
    ensures
        match decoded {
            Ok(frame) => frame_decoded(version, bytes@) == Ok::<_, Seq<char>>(frame),
            Err(text) => frame_decoded(version, bytes@) == Err::<Option<DecodedFrame>, _>(text@),
        },
        awaits_more(bytes@) == (decoded matches Ok(None)),
        is_oversized(bytes@) ==> decoded is Err,
        decoded matches Ok(Some(frame)) ==> frame.rest == behind_frame(bytes@) && frame.rest + 2
            <= bytes@.len(),
        decoded matches Ok(Some(frame)) ==> (frame.keep_alive is Some <==> bytes@[0]
            == CONNECT_FIRST_BYTE),
        decoded matches Ok(Some(frame)) ==> (frame.keep_alive matches Some(secs) ==> (flags_index(
            bytes@,
        ) matches Some(flags) && flags + 2 < bytes@.len()) && secs == connect_keep_alive(bytes@)),
{
    let (max, mut buffer) = (MAX_PACKET_SIZE, BytesMut::from(bytes));
    let decoded = match version {
        ProtocolVersion::MQTT3 => MqttCodec::V3(V3Codec::new(max)),
        ProtocolVersion::MQTT5 => MqttCodec::V5(V5Codec::new(max, max)),
    }.decode(&mut buffer);
    let keep_alive = match decoded {
        Ok(Some((CodecPacket::V3(V3Packet::Connect(c)), _))) => Some(c.keep_alive),
        Ok(Some((CodecPacket::V5(V5Packet::Connect(c)), _))) => Some(c.keep_alive),
        Ok(Some(_)) => None,
        Ok(None) => return Ok(None),
        Err(e) => return Err(e.to_string()),
    };
    Ok(Some(DecodedFrame { keep_alive, rest: buffer.len() }))
}

/// Decodes a CONNECT packet at the start of `bytes` with
/// `rmqtt_codec::MqttCodec` and encodes it with a codec of the same version. The
/// contract claims that the outcome is that of decoding alone, since a CONNECT
/// packet that was decoded can be encoded; it gives the encoding from the bytes,
/// the packet in its plainest form; and it claims that the encoding, decoded
/// again, is one frame with the same keepalive, no larger than a frame may be. An
/// error is given by its text.
#[verifier::external_body]
pub(crate) fn recode_frame(version: ProtocolVersion, bytes: &[u8]) -> (recoded: Result<
    Option<Vec<u8>>,
    String,
>)
    requires
        bytes@.len() > 0,
        bytes@[0] == CONNECT_FIRST_BYTE,
    ensures
        match recoded {
            Ok(Some(frame)) => frame_decoded(version, bytes@) matches Ok(Some(first))
                && frame_decoded(version, frame@) == Ok::<_, Seq<char>>(
                Some((DecodedFrame { rest: 0, ..first })),
            ),
            Ok(None) => frame_decoded(version, bytes@) == Ok::<_, Seq<char>>(None::<DecodedFrame>),
            Err(text) => frame_decoded(version, bytes@) == Err::<Option<DecodedFrame>, _>(text@),
        },
        recoded matches Ok(Some(frame)) ==> frame@ == plain_connect(version, bytes@)
            && plain_connect_body(version, bytes@).len() <= MAX_PACKET_SIZE,
{
    let (max, mut buffer, mut frame) = (MAX_PACKET_SIZE, BytesMut::from(bytes), BytesMut::new());
    let mut codec = match version {
        ProtocolVersion::MQTT3 => MqttCodec::V3(V3Codec::new(max)),
        ProtocolVersion::MQTT5 => MqttCodec::V5(V5Codec::new(max, max)),
    };
    match codec.decode(&mut buffer) {
        Ok(Some((packet, _))) => match codec.encode(packet, &mut frame) {
            Ok(()) => Ok(Some(frame.to_vec())),
            Err(e) => Err(e.to_string()),
        },
        Ok(None) => Ok(None),
        Err(e) => Err(e.to_string()),
    }
}

/// Asks `rmqtt_codec::version::VersionCodec`, which reads the start of a CONNECT
/// packet and consumes nothing. The contract gives the outcome from the bytes: the
/// length of the fixed header, the packet type, the protocol name and the protocol
/// level decide, in this order. An error is given by its text.
#[verifier::external_body]
pub(crate) fn detect_version(bytes: &[u8]) -> (detected: Result<Option<ProtocolVersion>, String>)
    ensures
        match detected {
            Ok(version) => version_announced(bytes@) == Ok::<_, Seq<char>>(version),
            Err(text) => version_announced(bytes@) == Err::<Option<ProtocolVersion>, _>(text@),
        },
{
    match VersionCodec.decode(&mut BytesMut::from(bytes)) {
        Ok(Some(CodecVersion::MQTT3)) => Ok(Some(ProtocolVersion::MQTT3)),
        Ok(Some(CodecVersion::MQTT5)) => Ok(Some(ProtocolVersion::MQTT5)),
        Ok(None) => Ok(None),
        Err(e) => Err(e.to_string()),
    }
}

} // verus!
