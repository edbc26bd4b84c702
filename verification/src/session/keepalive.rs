//! Local keepalive termination: instant PINGRESP for clients, and the
//! 1.5x silence enforcement the broker can no longer do end-to-end.

use vstd::prelude::*;

use crate::packet::{MqttPacket, MqttPacketView};
use crate::types::ProtocolVersion;
use crate::v5;

verus! {

/// How long a client without keepalive may be silent, in milliseconds: a year.
pub const NO_KEEPALIVE_MS: u64 = 31_536_000_000;

/// How long a client may be silent for each second of its keepalive, in
/// milliseconds.
pub const SILENCE_MS_PER_SECOND: u64 = 1_500;

/// Reason code of a DISCONNECT packet for a silent client.
pub const KEEP_ALIVE_TIMEOUT: u8 = 0x8D;

/// How long a client may be silent, in milliseconds: one and a half times its
/// keepalive, or a year where keepalive is disabled.
pub open spec fn allowed_silence(keep_alive: u16) -> nat {
    if keep_alive == 0 {
        NO_KEEPALIVE_MS as nat
    } else {
        (keep_alive * SILENCE_MS_PER_SECOND) as nat
    }
}

/// The time at which a silent client must be dropped: 1.5× its keepalive
/// after the last received packet. keepalive=0 disables the timeout; a
/// far-future deadline stands for it. Times are milliseconds since some fixed
/// start.
pub fn client_deadline(keep_alive: u16, last_activity: u64) -> (deadline: u64)
    requires
        last_activity + allowed_silence(keep_alive) <= u64::MAX,
    ensures
        deadline == last_activity + allowed_silence(keep_alive),
{
    if keep_alive == 0 {
        return last_activity + NO_KEEPALIVE_MS;
    }
    last_activity + keep_alive as u64 * SILENCE_MS_PER_SECOND
}

/// What a silent client of a version is told: version 5 has a DISCONNECT
/// packet for it, version 3 just closes.
pub open spec fn farewell(version: ProtocolVersion) -> Option<MqttPacketView> {
    match version {
        ProtocolVersion::MQTT3 => None,
        ProtocolVersion::MQTT5 => Some(
            MqttPacketView::V5(v5::PacketView::Disconnect { reason_code: KEEP_ALIVE_TIMEOUT }),
        ),
    }
}

/// End a session for keepalive timeout. v5 clients get a DISCONNECT with
/// reason KeepAliveTimeout (0x8D) first; v3 just closes.
pub fn close_for_keepalive(version: ProtocolVersion) -> (packet: Option<MqttPacket>)
    ensures
        match packet {
            Some(packet) => farewell(version) == Some(packet@),
            None => farewell(version) is None,
        },
{
    match version {
        ProtocolVersion::MQTT3 => None,
        ProtocolVersion::MQTT5 => Some(
            MqttPacket::V5(v5::Packet::Disconnect { reason_code: KEEP_ALIVE_TIMEOUT }),
        ),
    }
}

/// A client may be silent for one and a half times its keepalive, to the
/// millisecond and not longer; one that has none may be silent for a year. A later
/// packet moves the deadline by as much as it is later.
pub proof fn law_silence_is_one_and_a_half_keepalives(keep_alive: u16)
    ensures
        keep_alive != 0 ==> 2 * allowed_silence(keep_alive) == 3 * (keep_alive * 1_000),
        keep_alive == 0 ==> allowed_silence(keep_alive) == 365 * 24 * 60 * 60 * 1_000,
{
}

/// Only a version 5 client is told why it is dropped: with a DISCONNECT packet, for
/// reason 0x8D.
pub proof fn law_silent_clients_are_told(version: ProtocolVersion)
    ensures
        version == ProtocolVersion::MQTT3 <==> farewell(version) is None,
        farewell(version) matches Some(packet) ==> packet.version() == version
            && packet.is_disconnect() && packet == MqttPacketView::V5(
            v5::PacketView::Disconnect { reason_code: 0x8D },
        ),
{
}

} // verus!
