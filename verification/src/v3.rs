//! Packets of MQTT 3.1.1, as far as a session reads or writes them.

use vstd::prelude::*;

use crate::types::{Publish, PublishView, QoS};

verus! {

/// Outcome of one topic filter of a SUBSCRIBE packet.
#[derive(Clone, Copy, Debug, PartialEq, Eq, Structural)]
pub enum SubscribeReturnCode {
    Success(QoS),
    Failure,
}

/// A control packet.
#[derive(Clone, Debug)]
pub enum Packet {
    Connect { keep_alive: u16 },
    ConnectAck { return_code: u8 },
    Publish(Publish),
    PublishAck { packet_id: u16 },
    PublishReceived { packet_id: u16 },
    PublishRelease { packet_id: u16 },
    PublishComplete { packet_id: u16 },
    Subscribe { packet_id: u16, topic_filters: Vec<(String, QoS)> },
    SubscribeAck { packet_id: u16, status: Vec<SubscribeReturnCode> },
    Unsubscribe { packet_id: u16, topic_filters: Vec<String> },
    UnsubscribeAck { packet_id: u16 },
    PingRequest,
    PingResponse,
    Disconnect,
}

/// Mathematical counterpart of [`Packet`].
#[verifier::ext_equal]
pub enum PacketView {
    Connect { keep_alive: u16 },
    ConnectAck { return_code: u8 },
    Publish(PublishView),
    PublishAck { packet_id: u16 },
    PublishReceived { packet_id: u16 },
    PublishRelease { packet_id: u16 },
    PublishComplete { packet_id: u16 },
    Subscribe { packet_id: u16, topic_filters: Seq<(Seq<char>, QoS)> },
    SubscribeAck { packet_id: u16, status: Seq<SubscribeReturnCode> },
    Unsubscribe { packet_id: u16, topic_filters: Seq<Seq<char>> },
    UnsubscribeAck { packet_id: u16 },
    PingRequest,
    PingResponse,
    Disconnect,
}

impl View for Packet {
    type V = PacketView;

    open spec fn view(&self) -> PacketView {
        match *self {
            Packet::Connect { keep_alive } => PacketView::Connect { keep_alive },
            Packet::ConnectAck { return_code } => PacketView::ConnectAck { return_code },
            Packet::Publish(publish) => PacketView::Publish(publish@),
            Packet::PublishAck { packet_id } => PacketView::PublishAck { packet_id },
            Packet::PublishReceived { packet_id } => PacketView::PublishReceived { packet_id },
            Packet::PublishRelease { packet_id } => PacketView::PublishRelease { packet_id },
            Packet::PublishComplete { packet_id } => PacketView::PublishComplete { packet_id },
            Packet::Subscribe { packet_id, topic_filters } => PacketView::Subscribe {
                packet_id,
                topic_filters: topic_filters@.map_values(|f: (String, QoS)| (f.0@, f.1)),
            },
            Packet::SubscribeAck { packet_id, status } => PacketView::SubscribeAck {
                packet_id,
                status: status@,
            },
            Packet::Unsubscribe { packet_id, topic_filters } => PacketView::Unsubscribe {
                packet_id,
                topic_filters: topic_filters@.map_values(|f: String| f@),
            },
            Packet::UnsubscribeAck { packet_id } => PacketView::UnsubscribeAck { packet_id },
            Packet::PingRequest => PacketView::PingRequest,
            Packet::PingResponse => PacketView::PingResponse,
            Packet::Disconnect => PacketView::Disconnect,
        }
    }
}

} // verus!
