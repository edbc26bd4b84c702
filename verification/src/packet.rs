//! A control packet of either protocol version, and what the session logic
//! sees of it.

use vstd::prelude::*;

use crate::types::{
    lemma_variable_length_size, publish_first_byte, two_bytes, variable_length,
    variable_length_size, ProtocolVersion, PublishView, QoS, MAX_VARIABLE_LENGTH,
};
use crate::v3;
use crate::v5;
use vstd::utf8::encode_utf8;

verus! {

/// A control packet of either protocol version.
#[derive(Clone, Debug)]
pub enum MqttPacket {
    V3(v3::Packet),
    V5(v5::Packet),
}

/// Mathematical counterpart of [`MqttPacket`].
#[verifier::ext_equal]
pub enum MqttPacketView {
    V3(v3::PacketView),
    V5(v5::PacketView),
}

impl View for MqttPacket {
    type V = MqttPacketView;

    open spec fn view(&self) -> MqttPacketView {
        match *self {
            MqttPacket::V3(packet) => MqttPacketView::V3(packet@),
            MqttPacket::V5(packet) => MqttPacketView::V5(packet@),
        }
    }
}

/// The part that a packet plays in the delivery of a message.
#[verifier::ext_equal]
pub enum Delivery {
    /// PUBLISH: a message.
    Publish(PublishView),
    /// PUBACK: ends a level 1 delivery.
    Ack(u16),
    /// PUBREC: the receiver of a level 2 delivery has the message.
    Received(u16),
    /// PUBREL: the sender of a level 2 delivery lets go of it.
    Release(u16),
    /// PUBCOMP: ends a level 2 delivery.
    Complete(u16),
    /// No part at all.
    Unrelated,
}

/// What follows the first byte of a version 3 PUBLISH frame: remaining length,
/// topic, packet identifier, payload.
pub open spec fn v3_publish_body(publish: PublishView) -> Seq<u8> {
    variable_length(publish.v3_size()) + two_bytes(encode_utf8(publish.topic).len()) + encode_utf8(
        publish.topic,
    ) + (match publish.packet_id {
        Some(id) => two_bytes(id as nat),
        None => Seq::empty(),
    }) + publish.payload
}

/// The frame of a version 3 PUBLISH packet.
pub open spec fn v3_publish_frame(publish: PublishView) -> Seq<u8> {
    seq![publish_first_byte(publish.dup, publish.qos, publish.retain)] + v3_publish_body(publish)
}

/// What follows the first byte of a version 5 PUBLISH frame: remaining length,
/// topic, packet identifier, the property section with its length, payload.
pub open spec fn v5_publish_body(publish: PublishView) -> Seq<u8> {
    let (size, properties) = match publish.properties {
        Some(properties) => (properties.size(), properties.bytes()),
        None => (0, Seq::empty()),
    };
    variable_length(publish.v5_size()) + two_bytes(encode_utf8(publish.topic).len()) + encode_utf8(
        publish.topic,
    ) + (match publish.packet_id {
        Some(id) => two_bytes(id as nat),
        None => Seq::empty(),
    }) + variable_length(size) + properties + publish.payload
}

/// The frame of a version 5 PUBLISH packet.
pub open spec fn v5_publish_frame(publish: PublishView) -> Seq<u8> {
    seq![publish_first_byte(publish.dup, publish.qos, publish.retain)] + v5_publish_body(publish)
}

/// The first byte of every PUBREL frame.
pub const PUBREL_FIRST_BYTE: u8 = 0x62;

/// The frame of a version 3 PUBREL packet.
pub open spec fn v3_release_frame(packet_id: u16) -> Seq<u8> {
    seq![PUBREL_FIRST_BYTE, 2u8] + two_bytes(packet_id as nat)
}

/// What follows the first byte of a version 5 PUBREL frame: remaining length,
/// packet identifier, reason code, the property section with its length.
pub open spec fn v5_release_body(ack: v5::PublishAckView) -> Seq<u8> {
    let size = ack.property_size();
    variable_length(3 + variable_length_size(size) + size) + two_bytes(ack.packet_id as nat) + seq![
        ack.reason_code,
    ] + variable_length(size) + ack.property_bytes()
}

/// The frame of a version 5 PUBREL packet. Where it would be too large, some of
/// its properties are left out.
pub open spec fn v5_release_frame(ack: v5::PublishAckView) -> Seq<u8> {
    seq![PUBREL_FIRST_BYTE] + v5_release_body(ack.cut())
}

impl MqttPacketView {
    /// The protocol version of the packet.
    pub open spec fn version(self) -> ProtocolVersion {
        match self {
            MqttPacketView::V3(_) => ProtocolVersion::MQTT3,
            MqttPacketView::V5(_) => ProtocolVersion::MQTT5,
        }
    }

    /// The part that the packet plays in the delivery of a message.
    pub open spec fn delivery(self) -> Delivery {
        match self {
            MqttPacketView::V3(v3::PacketView::Publish(publish)) => Delivery::Publish(publish),
            MqttPacketView::V3(v3::PacketView::PublishAck { packet_id }) => Delivery::Ack(
                packet_id,
            ),
            MqttPacketView::V3(v3::PacketView::PublishReceived { packet_id }) => Delivery::Received(
                packet_id,
            ),
            MqttPacketView::V3(v3::PacketView::PublishRelease { packet_id }) => Delivery::Release(
                packet_id,
            ),
            MqttPacketView::V3(v3::PacketView::PublishComplete { packet_id }) => Delivery::Complete(
                packet_id,
            ),
            MqttPacketView::V5(v5::PacketView::Publish(publish)) => Delivery::Publish(publish),
            MqttPacketView::V5(v5::PacketView::PublishAck(ack)) => Delivery::Ack(ack.packet_id),
            MqttPacketView::V5(v5::PacketView::PublishReceived(ack)) => Delivery::Received(
                ack.packet_id,
            ),
            MqttPacketView::V5(v5::PacketView::PublishRelease(ack)) => Delivery::Release(
                ack.packet_id,
            ),
            MqttPacketView::V5(v5::PacketView::PublishComplete(ack)) => Delivery::Complete(
                ack.packet_id,
            ),
            _ => Delivery::Unrelated,
        }
    }

    /// Whether the packet is a PUBLISH with an identifier, and which.
    pub open spec fn is_message(self, id: u16) -> bool {
        self.delivery() matches Delivery::Publish(publish) && publish.packet_id == Some(id)
    }

    /// The QoS of a PUBLISH.
    pub open spec fn qos(self) -> QoS {
        self.delivery()->Publish_0.qos
    }

    /// Whether the packet is a PINGREQ.
    pub open spec fn is_ping_request(self) -> bool {
        self == MqttPacketView::V3(v3::PacketView::PingRequest) || self == MqttPacketView::V5(
            v5::PacketView::PingRequest,
        )
    }

    /// Whether the packet is a PINGRESP.
    pub open spec fn is_ping_response(self) -> bool {
        self == MqttPacketView::V3(v3::PacketView::PingResponse) || self == MqttPacketView::V5(
            v5::PacketView::PingResponse,
        )
    }

    /// Whether the packet is a DISCONNECT.
    pub open spec fn is_disconnect(self) -> bool {
        match self {
            MqttPacketView::V3(packet) => packet is Disconnect,
            MqttPacketView::V5(packet) => packet is Disconnect,
        }
    }

    /// Whether a PUBLISH or PUBREL packet has an encoding; of any other packet
    /// nothing is asked.
    pub open spec fn encodable(self) -> bool {
        match self {
            MqttPacketView::V3(v3::PacketView::Publish(publish)) => publish.v3_encodable(),
            MqttPacketView::V3(v3::PacketView::PublishRelease { packet_id }) => packet_id != 0,
            MqttPacketView::V5(v5::PacketView::Publish(publish)) => publish.v5_encodable(),
            MqttPacketView::V5(v5::PacketView::PublishRelease(ack)) => ack.is_release(),
            _ => true,
        }
    }

    /// A message that may have to be sent again has an encoding.
    pub open spec fn wf(self) -> bool {
        self.delivery() matches Delivery::Publish(publish) && publish.qos != QoS::AtMostOnce
            ==> self.encodable()
    }

    /// The frame of a PUBLISH or PUBREL packet; empty for any other packet.
    pub open spec fn frame(self) -> Seq<u8> {
        match self {
            MqttPacketView::V3(v3::PacketView::Publish(publish)) => v3_publish_frame(publish),
            MqttPacketView::V3(v3::PacketView::PublishRelease { packet_id }) => v3_release_frame(
                packet_id,
            ),
            MqttPacketView::V5(v5::PacketView::Publish(publish)) => v5_publish_frame(publish),
            MqttPacketView::V5(v5::PacketView::PublishRelease(ack)) => v5_release_frame(ack),
            _ => Seq::empty(),
        }
    }

    /// The same packet, marked as delivered before if it is a PUBLISH.
    pub open spec fn marked_dup(self) -> MqttPacketView {
        match self {
            MqttPacketView::V3(v3::PacketView::Publish(publish)) => MqttPacketView::V3(
                v3::PacketView::Publish(PublishView { dup: true, ..publish }),
            ),
            MqttPacketView::V5(v5::PacketView::Publish(publish)) => MqttPacketView::V5(
                v5::PacketView::Publish(PublishView { dup: true, ..publish }),
            ),
            _ => self,
        }
    }
}

impl MqttPacket {
    /// Whether the packet has an encoding, if it is one that a session may
    /// encode: PUBLISH or PUBREL.
    pub fn is_encodable(&self) -> (encodable: bool)
        ensures
            encodable == self@.encodable(),
    {
        match self {
            MqttPacket::V3(v3::Packet::Publish(publish)) => publish.is_v3_encodable(),
            MqttPacket::V3(v3::Packet::PublishRelease { packet_id }) => *packet_id != 0,
            MqttPacket::V5(v5::Packet::Publish(publish)) => publish.is_v5_encodable(),
            MqttPacket::V5(v5::Packet::PublishRelease(ack)) => ack.is_valid_release(),
            _ => true,
        }
    }

    /// Whether the packet has an encoding, if it is a message that may have to
    /// be sent again.
    pub fn is_valid(&self) -> (valid: bool)
        ensures
            valid == self@.wf(),
    {
        match self {
            MqttPacket::V3(v3::Packet::Publish(publish)) => publish.qos == QoS::AtMostOnce
                || publish.is_v3_encodable(),
            MqttPacket::V5(v5::Packet::Publish(publish)) => publish.qos == QoS::AtMostOnce
                || publish.is_v5_encodable(),
            _ => true,
        }
    }

    /// Whether the packet is a DISCONNECT.
    pub fn is_disconnect(&self) -> (found: bool)
        ensures
            found == self@.is_disconnect(),
    {
        match self {
            MqttPacket::V3(v3::Packet::Disconnect) => true,
            MqttPacket::V5(v5::Packet::Disconnect { .. }) => true,
            _ => false,
        }
    }
}

/// A PUBLISH frame announces its own length: behind the first byte and the
/// length stand as many bytes as that says.
pub proof fn law_frame_length_is_announced(packet: MqttPacketView)
    requires
        packet.encodable(),
        packet.delivery() is Publish,
    ensures
        ({
            let publish = packet.delivery()->Publish_0;
            let size = match packet.version() {
                ProtocolVersion::MQTT3 => publish.v3_size(),
                ProtocolVersion::MQTT5 => publish.v5_size(),
            };
            &&& packet.frame().len() == 1 + variable_length_size(size) + size
            &&& packet.frame()[0] == publish_first_byte(publish.dup, publish.qos, publish.retain)
            &&& packet.frame().skip(1).take(variable_length_size(size) as int) == variable_length(
                size,
            )
        }),
{
    let publish = packet.delivery()->Publish_0;
    match packet.version() {
        ProtocolVersion::MQTT3 => {
            lemma_variable_length_size(publish.v3_size());
            assert(packet.frame().skip(1) =~= v3_publish_body(publish));
            assert(v3_publish_body(publish).take(
                variable_length_size(publish.v3_size()) as int,
            ) =~= variable_length(publish.v3_size()));
        },
        ProtocolVersion::MQTT5 => {
            lemma_variable_length_size(publish.v5_size());
            match publish.properties {
                Some(properties) => {
                    v5::law_publish_property_size_is_length(properties);
                    lemma_variable_length_size(properties.size());
                },
                None => {
                    lemma_variable_length_size(0);
                },
            }
            assert(packet.frame().skip(1) =~= v5_publish_body(publish));
            assert(v5_publish_body(publish).take(
                variable_length_size(publish.v5_size()) as int,
            ) =~= variable_length(publish.v5_size()));
        },
    }
}

/// Which part each packet plays in the delivery of a message, in either version;
/// the packets that are named here are the only ones with a part.
pub proof fn law_parts_in_a_delivery(
    packet: MqttPacketView,
    publish: PublishView,
    ack: v5::PublishAckView,
    packet_id: u16,
)
    ensures
        MqttPacketView::V3(v3::PacketView::Publish(publish)).delivery() == Delivery::Publish(publish),
        MqttPacketView::V5(v5::PacketView::Publish(publish)).delivery() == Delivery::Publish(publish),
        MqttPacketView::V3(v3::PacketView::PublishAck { packet_id }).delivery() == Delivery::Ack(
            packet_id,
        ),
        MqttPacketView::V5(v5::PacketView::PublishAck(ack)).delivery() == Delivery::Ack(
            ack.packet_id,
        ),
        MqttPacketView::V3(v3::PacketView::PublishReceived { packet_id }).delivery()
            == Delivery::Received(packet_id),
        MqttPacketView::V5(v5::PacketView::PublishReceived(ack)).delivery() == Delivery::Received(
            ack.packet_id,
        ),
        MqttPacketView::V3(v3::PacketView::PublishRelease { packet_id }).delivery()
            == Delivery::Release(packet_id),
        MqttPacketView::V5(v5::PacketView::PublishRelease(ack)).delivery() == Delivery::Release(
            ack.packet_id,
        ),
        MqttPacketView::V3(v3::PacketView::PublishComplete { packet_id }).delivery()
            == Delivery::Complete(packet_id),
        MqttPacketView::V5(v5::PacketView::PublishComplete(ack)).delivery() == Delivery::Complete(
            ack.packet_id,
        ),
        packet.delivery() is Unrelated <==> match packet {
            MqttPacketView::V3(p) => !(p is Publish || p is PublishAck || p is PublishReceived
                || p is PublishRelease || p is PublishComplete),
            MqttPacketView::V5(p) => !(p is Publish || p is PublishAck || p is PublishReceived
                || p is PublishRelease || p is PublishComplete),
        },
{
}

/// What kind of packet a packet is, in either version.
pub proof fn law_kinds_of_packets(packet: MqttPacketView)
    ensures
        packet.version() == (match packet {
            MqttPacketView::V3(_) => ProtocolVersion::MQTT3,
            MqttPacketView::V5(_) => ProtocolVersion::MQTT5,
        }),
        packet.is_ping_request() <==> match packet {
            MqttPacketView::V3(p) => p is PingRequest,
            MqttPacketView::V5(p) => p is PingRequest,
        },
        packet.is_ping_response() <==> match packet {
            MqttPacketView::V3(p) => p is PingResponse,
            MqttPacketView::V5(p) => p is PingResponse,
        },
        packet.is_disconnect() <==> match packet {
            MqttPacketView::V3(p) => p is Disconnect,
            MqttPacketView::V5(p) => p is Disconnect,
        },
        forall|id: u16| #[trigger]
            packet.is_message(id) <==> (match packet {
                MqttPacketView::V3(v3::PacketView::Publish(publish)) => publish.packet_id == Some(id),
                MqttPacketView::V5(v5::PacketView::Publish(publish)) => publish.packet_id == Some(id),
                _ => false,
            }),
        match packet {
            MqttPacketView::V3(v3::PacketView::Publish(publish)) => packet.qos() == publish.qos,
            MqttPacketView::V5(v5::PacketView::Publish(publish)) => packet.qos() == publish.qos,
            _ => true,
        },
{
}

/// The first byte of a message frame says that it is a PUBLISH of its QoS, with its
/// flags.
pub proof fn law_first_byte_carries_the_flags(dup: bool, qos: QoS, retain: bool)
    ensures
        ({
            let first = publish_first_byte(dup, qos, retain);
            &&& first / 16 == 3
            &&& (first / 8) % 2 == 1 <==> dup
            &&& (first / 2) % 4 == qos.level()
            &&& first % 2 == 1 <==> retain
        }),
{
}

/// A message frame of a version, with these properties, ends in the payload, behind
/// the topic with its length and, if there is one, the packet identifier; the
/// properties stand in between.
pub open spec fn carries(
    frame: Seq<u8>,
    publish: PublishView,
    size: nat,
    properties: Seq<u8>,
) -> bool {
    let topic = encode_utf8(publish.topic);
    let start = 1 + variable_length_size(size) as int;
    let behind = start + 2 + topic.len() as int;
    &&& frame[0] == publish_first_byte(publish.dup, publish.qos, publish.retain)
    &&& frame.subrange(1, start) == variable_length(size)
    &&& frame[start] * 256 + frame[start + 1] == topic.len()
    &&& frame.subrange(start + 2, behind) == topic
    &&& publish.packet_id matches Some(id) ==> frame[behind] * 256 + frame[behind + 1] == id
    &&& frame.skip(frame.len() - payload_and(properties, publish).len()) == payload_and(
        properties,
        publish,
    )
}

/// Some properties and the payload behind them.
pub open spec fn payload_and(properties: Seq<u8>, publish: PublishView) -> Seq<u8> {
    properties + publish.payload
}

/// A frame carries its message whole: see [`carries`].
pub proof fn law_frames_carry_the_message(packet: MqttPacketView)
    requires
        packet.encodable(),
        packet.delivery() is Publish,
    ensures
        ({
            let publish = packet.delivery()->Publish_0;
            match packet.version() {
                ProtocolVersion::MQTT3 => carries(
                    packet.frame(),
                    publish,
                    publish.v3_size(),
                    Seq::empty(),
                ),
                ProtocolVersion::MQTT5 => carries(
                    packet.frame(),
                    publish,
                    publish.v5_size(),
                    match publish.properties {
                        Some(properties) => variable_length(properties.size())
                            + properties.bytes(),
                        None => variable_length(0) + Seq::empty(),
                    },
                ),
            }
        }),
{
    match packet {
        MqttPacketView::V3(v3::PacketView::Publish(publish)) => {
            lemma_v3_frame_carries(publish);
        },
        MqttPacketView::V5(v5::PacketView::Publish(publish)) => {
            lemma_v5_frame_carries(publish);
        },
        _ => {},
    }
}

spec fn id_bytes(packet_id: Option<u16>) -> Seq<u8> {
    match packet_id {
        Some(id) => two_bytes(id as nat),
        None => Seq::empty(),
    }
}

proof fn lemma_v3_frame_carries(publish: PublishView)
    requires
        publish.v3_encodable(),
    ensures
        carries(v3_publish_frame(publish), publish, publish.v3_size(), Seq::empty()),
{
    let topic = encode_utf8(publish.topic);
    let size = publish.v3_size();
    lemma_variable_length_size(size);
    lemma_layout(
        publish_first_byte(publish.dup, publish.qos, publish.retain),
        variable_length(size),
        topic,
        id_bytes(publish.packet_id),
        Seq::empty(),
        Seq::empty(),
        publish.payload,
    );
    let body = variable_length(size) + two_bytes(topic.len()) + topic + id_bytes(publish.packet_id);
    assert(body + Seq::empty() + Seq::empty() + publish.payload =~= body + publish.payload);
    assert(Seq::<u8>::empty() + Seq::<u8>::empty() =~= Seq::<u8>::empty());
}

proof fn lemma_v5_frame_carries(publish: PublishView)
    requires
        publish.v5_encodable(),
    ensures
        carries(
            v5_publish_frame(publish),
            publish,
            publish.v5_size(),
            match publish.properties {
                Some(properties) => variable_length(properties.size()) + properties.bytes(),
                None => variable_length(0) + Seq::empty(),
            },
        ),
{
    let (length, properties) = match publish.properties {
        Some(properties) => (properties.size(), properties.bytes()),
        None => (0nat, Seq::empty()),
    };
    let size = publish.v5_size();
    lemma_variable_length_size(size);
    lemma_layout(
        publish_first_byte(publish.dup, publish.qos, publish.retain),
        variable_length(size),
        encode_utf8(publish.topic),
        id_bytes(publish.packet_id),
        variable_length(length),
        properties,
        publish.payload,
    );
}

proof fn lemma_layout(
    first: u8,
    length: Seq<u8>,
    topic: Seq<u8>,
    id: Seq<u8>,
    prefix: Seq<u8>,
    properties: Seq<u8>,
    payload: Seq<u8>,
)
    requires
        topic.len() <= 65_535,
    ensures
        ({
            let frame = seq![first] + (length + two_bytes(topic.len()) + topic + id + prefix
                + properties + payload);
            let start = 1 + length.len() as int;
            let behind = start + 2 + topic.len() as int;
            let tail = prefix + properties + payload;
            &&& frame[0] == first
            &&& frame.subrange(1, start) == length
            &&& frame[start] * 256 + frame[start + 1] == topic.len()
            &&& frame.subrange(start + 2, behind) == topic
            &&& id.len() == 2 ==> frame[behind] == id[0] && frame[behind + 1] == id[1]
            &&& frame.skip(frame.len() - tail.len()) == tail
        }),
{
    let size = two_bytes(topic.len());
    let frame = seq![first] + (length + size + topic + id + prefix + properties + payload);
    let start = 1 + length.len() as int;
    let behind = start + 2 + topic.len() as int;
    assert(frame.subrange(1, start) =~= length);
    assert(frame[start] == size[0]);
    assert(frame[start + 1] == size[1]);
    assert(frame.subrange(start + 2, behind) =~= topic);
    assert(frame.skip(frame.len() - (prefix + properties + payload).len()) =~= prefix + properties
        + payload);
}

/// A PUBREL frame says that it is one, how much follows, and whose message it releases. In
/// version 3 that is all; in version 5 the reason follows, and the properties with their
/// length, as far as there is room for them.
pub proof fn law_frames_carry_the_release(packet: MqttPacketView, id: u16)
    requires
        packet.delivery() == Delivery::Release(id),
    ensures
        packet.version() == ProtocolVersion::MQTT3 ==> {
            let frame = packet.frame();
            &&& frame.len() == 4
            &&& frame[0] == 0x62 && frame[1] == 2
            &&& frame[2] * 256 + frame[3] == id
        },
        packet matches MqttPacketView::V5(v5::PacketView::PublishRelease(ack)) ==> {
            let frame = packet.frame();
            let kept = ack.cut();
            let properties = kept.property_bytes();
            let size = 3 + variable_length_size(properties.len()) + properties.len();
            let start = 1 + variable_length_size(size) as int;
            &&& frame.len() == start + size
            &&& frame[0] == 0x62
            &&& frame.subrange(1, start) == variable_length(size)
            &&& frame[start] * 256 + frame[start + 1] == id
            &&& frame[start + 2] == ack.reason_code
            &&& frame.skip(start + 3) == variable_length(properties.len()) + properties
            &&& properties.len() <= 1_048_565
        },
{
    match packet {
        MqttPacketView::V5(v5::PacketView::PublishRelease(ack)) => {
            let kept = ack.cut();
            let properties = kept.property_bytes();
            v5::law_what_is_cut_off_acks(ack);
            v5::law_ack_property_size_is_length(kept);
            let length = properties.len();
            let size = 3 + variable_length_size(length) + length;
            lemma_variable_length_size(length);
            lemma_variable_length_size(size);
            lemma_release_layout(
                variable_length(size),
                ack.packet_id,
                ack.reason_code,
                variable_length(length),
                properties,
            );
        },
        _ => {},
    }
}

proof fn lemma_release_layout(
    length: Seq<u8>,
    id: u16,
    reason_code: u8,
    prefix: Seq<u8>,
    properties: Seq<u8>,
)
    ensures
        ({
            let frame = seq![PUBREL_FIRST_BYTE] + (length + two_bytes(id as nat) + seq![reason_code]
                + prefix + properties);
            let start = 1 + length.len() as int;
            &&& frame.len() == start + 3 + prefix.len() + properties.len()
            &&& frame[0] == PUBREL_FIRST_BYTE
            &&& frame.subrange(1, start) == length
            &&& frame[start] * 256 + frame[start + 1] == id
            &&& frame[start + 2] == reason_code
            &&& frame.skip(start + 3) == prefix + properties
        }),
{
    let bytes = two_bytes(id as nat);
    let frame = seq![PUBREL_FIRST_BYTE] + (length + bytes + seq![reason_code] + prefix + properties);
    let start = 1 + length.len() as int;
    assert(frame.subrange(1, start) =~= length);
    assert(frame[start] == bytes[0]);
    assert(frame[start + 1] == bytes[1]);
    assert(frame.skip(start + 3) =~= prefix + properties);
}

/// A number is written in as few bytes as its size says: seven bits to a byte.
pub proof fn law_lengths_take_few_bytes(value: nat)
    requires
        value <= 268_435_455,
    ensures
        variable_length(value).len() == variable_length_size(value),
        variable_length_size(value) == 1 <==> value < 128,
        variable_length_size(value) <= 2 <==> value < 128 * 128,
        variable_length_size(value) <= 3 <==> value < 128 * 128 * 128,
        variable_length_size(value) <= 4,
{
    lemma_variable_length_size(value);
}

} // verus!
