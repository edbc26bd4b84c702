//! Client CONNECT handling: version detection, CONNECT validation, raw
//! byte capture for later replay, and the clean-bit patch used on replay.

use vstd::prelude::*;
use vstd::string::*;

use crate::codec::{decode_frame, detect_version, frame_decoded, recode_frame};
use crate::error::{invalid_data, SessionError, SessionErrorView};
use crate::frame::{
    awaits_more, behind_frame, connect_keep_alive, flags_index, law_plain_connect_says_the_same,
    lemma_varint_end_bounds, plain_connect, varint_end, version_announced, CLEAN_FLAG,
};
use crate::packet::{MqttPacket, MqttPacketView};
use crate::types::{
    DecodedFrame, ProtocolVersion, CONNECT_FIRST_BYTE, MQTT_LEVEL_311, MQTT_LEVEL_5,
};
use crate::v3;
use crate::v5;

verus! {

/// Version 3 return code of a CONNACK packet: server unavailable.
pub const V3_SERVER_UNAVAILABLE: u8 = 0x03;

/// Version 5 reason code of a CONNACK packet: server unavailable.
pub const V5_SERVER_UNAVAILABLE: u8 = 0x88;

/// A CONNECT packet that asks to resume the session: its clean bit is cleared.
pub open spec fn resuming(bytes: Seq<u8>) -> Seq<u8> {
    let flags = flags_index(bytes)->0;
    bytes.update(flags, bytes[flags] & !CLEAN_FLAG)
}

/// Clear the clean_session (v3) / clean_start (v5) bit — bit 1 of the CONNECT
/// flags byte — in a raw CONNECT packet, so the broker resumes the session
/// when the packet is replayed.
pub fn force_session_resumption(connect_raw: &mut Vec<u8>) -> (result: Result<(), SessionError>)
    ensures
        match result {
            Ok(()) => flags_index(old(connect_raw)@) is Some && final(connect_raw)@ == resuming(
                old(connect_raw)@,
            ),
            Err(error) => flags_index(old(connect_raw)@) is None && final(connect_raw)@ == old(
                connect_raw,
            )@ && error@ == SessionErrorView::MalformedConnect,
        },
{
    let ghost bytes = connect_raw@;
    // Skip the fixed-header byte and the remaining-length varint.
    let mut i: usize = 1;
    loop
        invariant_except_break
            i == 1 || i <= connect_raw.len(),
            varint_end(bytes, 1) == varint_end(bytes, i as int),
        invariant
            connect_raw@ == bytes,
            bytes == old(connect_raw)@,
            1 <= i,
        ensures
            varint_end(bytes, 1) == Some(i as int),
            i <= connect_raw.len(),
        decreases connect_raw.len() + 1 - i,
    {
        if i >= connect_raw.len() {
            return Err(SessionError::MalformedConnect);
        }
        let byte: u8 = connect_raw[i];
        assert((byte & 0x80 == 0) == (byte < 0x80)) by (bit_vector);
        if byte & 0x80 == 0 {
            i = i + 1;
            break ;
        }
        i = i + 1;
    }
    // Protocol name length (2 bytes) + name + protocol level (1) → flags byte.
    if connect_raw.len() - i < 2 {
        return Err(SessionError::MalformedConnect);
    }
    let name_len: usize = connect_raw[i] as usize * 256 + connect_raw[i + 1] as usize;
    if connect_raw.len() - i <= name_len + 3 {
        return Err(SessionError::MalformedConnect);
    }
    let flags: usize = i + 2 + name_len + 1;
    let cleared: u8 = connect_raw[flags] & !CLEAN_FLAG;
    connect_raw.set(flags, cleared);
    Ok(())
}

/// What the client's CONNECT packet settles for the whole session.
#[derive(Debug)]
pub struct Handshake {
    pub version: ProtocolVersion,
    pub connect_raw: Vec<u8>,
    /// Client-requested keepalive in seconds (0 = disabled). Since the proxy
    /// terminates keepalive locally, it must also enforce the 1.5× timeout.
    pub keep_alive: u16,
}

/// Mathematical counterpart of [`Handshake`].
#[verifier::ext_equal]
pub struct HandshakeView {
    pub version: ProtocolVersion,
    pub connect_raw: Seq<u8>,
    pub keep_alive: u16,
}

impl View for Handshake {
    type V = HandshakeView;

    open spec fn view(&self) -> HandshakeView {
        HandshakeView {
            version: self.version,
            connect_raw: self.connect_raw@,
            keep_alive: self.keep_alive,
        }
    }
}

/// The protocol level of a version.
pub open spec fn level_of(version: ProtocolVersion) -> u8 {
    match version {
        ProtocolVersion::MQTT3 => MQTT_LEVEL_311,
        ProtocolVersion::MQTT5 => MQTT_LEVEL_5,
    }
}

/// The version of a protocol level.
pub open spec fn version_of(level: u8) -> Option<ProtocolVersion> {
    if level == MQTT_LEVEL_311 {
        Some(ProtocolVersion::MQTT3)
    } else if level == MQTT_LEVEL_5 {
        Some(ProtocolVersion::MQTT5)
    } else {
        None
    }
}

/// The keepalive of a decoded packet; none but a CONNECT packet has one.
pub open spec fn frame_keep_alive(frame: DecodedFrame) -> u16 {
    match frame.keep_alive {
        Some(secs) => secs,
        None => 0,
    }
}

fn keep_alive_of(frame: DecodedFrame) -> (secs: u16)
    ensures
        secs == frame_keep_alive(frame),
{
    match frame.keep_alive {
        Some(secs) => secs,
        None => 0,
    }
}

/// The outcome of reading a snapshot's CONNECT packet, given what the codec
/// makes of it.
pub open spec fn snapshot_outcome(
    version: ProtocolVersion,
    connect_raw: Seq<u8>,
    decoded: Result<Option<DecodedFrame>, Seq<char>>,
) -> Result<HandshakeView, SessionErrorView> {
    match decoded {
        Err(text) => Err(SessionErrorView::InvalidData(text)),
        Ok(None) => Err(SessionErrorView::UndecodableConnect),
        Ok(Some(frame)) => Ok(
            HandshakeView { version, connect_raw, keep_alive: frame_keep_alive(frame) },
        ),
    }
}

/// The view of a codec's answer.
pub open spec fn decoded_view(decoded: Result<Option<DecodedFrame>, String>) -> Result<
    Option<DecodedFrame>,
    Seq<char>,
> {
    match decoded {
        Ok(frame) => Ok(frame),
        Err(text) => Err(text@),
    }
}

/// The view of a codec's answer.
pub open spec fn recoded_view(recoded: Result<Option<Vec<u8>>, String>) -> Result<
    Option<Seq<u8>>,
    Seq<char>,
> {
    match recoded {
        Ok(Some(frame)) => Ok(Some(frame@)),
        Ok(None) => Ok(None),
        Err(text) => Err(text@),
    }
}

/// The view of an outcome that is a handshake or an error.
pub open spec fn outcome_view(result: Result<Handshake, SessionError>) -> Result<
    HandshakeView,
    SessionErrorView,
> {
    match result {
        Ok(handshake) => Ok(handshake@),
        Err(error) => Err(error@),
    }
}

/// A handshake, and how many of the bytes received so far are behind its
/// CONNECT packet.
#[derive(Debug)]
pub struct Accepted {
    pub handshake: Handshake,
    pub rest: usize,
}

/// Mathematical counterpart of [`Accepted`].
#[verifier::ext_equal]
pub struct AcceptedView {
    pub handshake: HandshakeView,
    pub rest: usize,
}

impl View for Accepted {
    type V = AcceptedView;

    open spec fn view(&self) -> AcceptedView {
        AcceptedView { handshake: self.handshake@, rest: self.rest }
    }
}

/// The view of an outcome that may still be open.
pub open spec fn progress_view(result: Result<Option<Accepted>, SessionError>) -> Result<
    Option<AcceptedView>,
    SessionErrorView,
> {
    match result {
        Ok(Some(accepted)) => Ok(Some(accepted@)),
        Ok(None) => Ok(None),
        Err(error) => Err(error@),
    }
}

impl Handshake {
    /// The protocol level of the session's version.
    pub fn version_byte(&self) -> (level: u8)
        ensures
            level == level_of(self.version),
    {
        match self.version {
            ProtocolVersion::MQTT3 => MQTT_LEVEL_311,
            ProtocolVersion::MQTT5 => MQTT_LEVEL_5,
        }
    }

    /// Recover the handshake of a snapshot: the keepalive is read from its
    /// CONNECT packet.
    pub fn from_snapshot_version(level: u8, connect_raw: Vec<u8>) -> (result: Result<
        Self,
        SessionError,
    >)
        ensures
            outcome_view(result) == (match version_of(level) {
                None => Err::<HandshakeView, _>(SessionErrorView::UnknownProtocolLevel(level)),
                Some(version) => snapshot_outcome(
                    version,
                    connect_raw@,
                    frame_decoded(version, connect_raw@),
                ),
            }),
            version_of(level) is Some && awaits_more(connect_raw@) ==> outcome_view(result) == Err::<
                HandshakeView,
                _,
            >(SessionErrorView::UndecodableConnect),
            result matches Ok(handshake) ==> handshake.keep_alive == (if connect_raw@[0]
                == CONNECT_FIRST_BYTE {
                connect_keep_alive(connect_raw@)
            } else {
                0
            }),
    {
        let version = if level == MQTT_LEVEL_311 {
            ProtocolVersion::MQTT3
        } else if level == MQTT_LEVEL_5 {
            ProtocolVersion::MQTT5
        } else {
            return Err(SessionError::UnknownProtocolLevel(level));
        };
        let decoded = decode_frame(version, connect_raw.as_slice());
        Self::from_decoded(version, connect_raw, decoded)
    }

    /// The handshake of a snapshot, given what the codec makes of its CONNECT
    /// packet.
    pub fn from_decoded(
        version: ProtocolVersion,
        connect_raw: Vec<u8>,
        decoded: Result<Option<DecodedFrame>, String>,
    ) -> (result: Result<Self, SessionError>)
        ensures
            outcome_view(result) == snapshot_outcome(version, connect_raw@, decoded_view(decoded)),
    {
        match decoded {
            Err(text) => Err(invalid_data(text)),
            Ok(None) => Err(SessionError::UndecodableConnect),
            Ok(Some(frame)) => Ok(
                Handshake { version, connect_raw, keep_alive: keep_alive_of(frame) },
            ),
        }
    }

    /// Adopt a keepalive that the broker assigns in its CONNACK packet.
    pub fn adopt_server_keepalive(&mut self, ack: &MqttPacket)
        ensures
            final(self)@ == (HandshakeView {
                keep_alive: assigned_keep_alive(old(self)@.keep_alive, ack@),
                ..old(self)@
            }),
    {
        match ack {
            MqttPacket::V5(
                v5::Packet::ConnectAck { server_keepalive_sec: Some(secs), .. },
            ) => {
                self.keep_alive = *secs;
            },
            _ => {},
        }
    }
}

/// The keepalive after a CONNACK packet: a version 5 broker may assign its own.
pub open spec fn assigned_keep_alive(keep_alive: u16, ack: MqttPacketView) -> u16 {
    match ack {
        MqttPacketView::V5(
            v5::PacketView::ConnectAck { server_keepalive_sec: Some(secs), .. },
        ) => secs,
        _ => keep_alive,
    }
}

/// What becomes of a handshake when the bytes so far hold no whole packet: it
/// goes on, unless the client has closed the connection.
pub open spec fn incomplete(empty: bool, eof: bool) -> Result<
    Option<AcceptedView>,
    SessionErrorView,
> {
    if !eof {
        Ok(None)
    } else if empty {
        Err(SessionErrorView::ClientClosedBeforeConnect)
    } else {
        Err(SessionErrorView::InvalidData("io error, \"bytes remaining on stream\""@))
    }
}

/// What becomes of a handshake whose version is known, given what the codec
/// makes of the bytes so far.
pub open spec fn connect_outcome(
    version: ProtocolVersion,
    decoded: Result<Option<DecodedFrame>, Seq<char>>,
    recoded: Result<Option<Seq<u8>>, Seq<char>>,
    eof: bool,
) -> Result<Option<AcceptedView>, SessionErrorView> {
    match decoded {
        Err(text) => Err(SessionErrorView::InvalidData(text)),
        Ok(None) => incomplete(false, eof),
        Ok(Some(frame)) => match recoded {
            Err(text) => Err(SessionErrorView::InvalidData(text)),
            Ok(None) => incomplete(false, eof),
            Ok(Some(connect_raw)) => Ok(
                Some(
                    AcceptedView {
                        handshake: HandshakeView {
                            version,
                            connect_raw,
                            keep_alive: frame_keep_alive(frame),
                        },
                        rest: frame.rest,
                    },
                ),
            ),
        },
    }
}

/// A CONNECT packet, decoded and encoded again: what decoding makes of it, and
/// its plainest form.
pub open spec fn connect_recoded(version: ProtocolVersion, bytes: Seq<u8>) -> Result<
    Option<Seq<u8>>,
    Seq<char>,
> {
    match frame_decoded(version, bytes) {
        Err(text) => Err(text),
        Ok(None) => Ok(None),
        Ok(Some(_)) => Ok(Some(plain_connect(version, bytes))),
    }
}

/// What becomes of a handshake with the bytes so far.
pub open spec fn handshake_outcome(bytes: Seq<u8>, eof: bool) -> Result<
    Option<AcceptedView>,
    SessionErrorView,
> {
    match version_announced(bytes) {
        Err(text) => Err(SessionErrorView::InvalidData(text)),
        Ok(None) => incomplete(bytes.len() == 0, eof),
        Ok(Some(version)) => connect_outcome(
            version,
            frame_decoded(version, bytes),
            connect_recoded(version, bytes),
            eof,
        ),
    }
}

fn wait_for_more(empty: bool, eof: bool) -> (result: Result<Option<Accepted>, SessionError>)
    ensures
        progress_view(result) == incomplete(empty, eof),
{
    if !eof {
        Ok(None)
    } else if empty {
        Err(SessionError::ClientClosedBeforeConnect)
    } else {
        Err(invalid_data("io error, \"bytes remaining on stream\"".to_owned()))
    }
}

/// Validate a client CONNECT packet of a known version, given what the codec
/// makes of the bytes so far: decoded, and decoded and encoded again.
pub fn accept_connect(
    version: ProtocolVersion,
    decoded: Result<Option<DecodedFrame>, String>,
    recoded: Result<Option<Vec<u8>>, String>,
    eof: bool,
) -> (result: Result<Option<Accepted>, SessionError>)
    ensures
        progress_view(result) == connect_outcome(
            version,
            decoded_view(decoded),
            recoded_view(recoded),
            eof,
        ),
{
    match decoded {
        Err(text) => Err(invalid_data(text)),
        Ok(None) => wait_for_more(false, eof),
        Ok(Some(frame)) => match recoded {
            Err(text) => Err(invalid_data(text)),
            Ok(None) => wait_for_more(false, eof),
            Ok(Some(connect_raw)) => Ok(
                Some(
                    Accepted {
                        handshake: Handshake {
                            version,
                            connect_raw,
                            keep_alive: keep_alive_of(frame),
                        },
                        rest: frame.rest,
                    },
                ),
            ),
        },
    }
}

/// Whether more bytes are needed before a handshake can be decided: the start
/// of the CONNECT packet does not tell its version yet, or its frame is not
/// there yet.
pub open spec fn handshake_awaits_more(bytes: Seq<u8>) -> bool {
    match version_announced(bytes) {
        Err(_) => false,
        Ok(None) => true,
        Ok(Some(_)) => awaits_more(bytes),
    }
}

/// Validate the client CONNECT in the bytes received so far, preserving the
/// raw bytes for later replay toward a broker on thaw. `Ok(None)` asks for more
/// bytes; `eof` says that there are none. The bytes that are kept are the CONNECT
/// packet in its plainest form, whole and of the same version.
pub fn handshake(bytes: &[u8], eof: bool) -> (result: Result<Option<Accepted>, SessionError>)
    ensures
        progress_view(result) == handshake_outcome(bytes@, eof),
        handshake_awaits_more(bytes@) ==> progress_view(result) == incomplete(
            bytes@.len() == 0,
            eof,
        ),
        !handshake_awaits_more(bytes@) ==> !(result matches Ok(None)),
        version_announced(bytes@) matches Err(text) ==> progress_view(result) == Err::<
            Option<AcceptedView>,
            _,
        >(SessionErrorView::InvalidData(text)),
        result matches Ok(Some(accepted)) ==> {
            let version = accepted@.handshake.version;
            let kept = accepted@.handshake.connect_raw;
            &&& bytes@[0] == CONNECT_FIRST_BYTE
            &&& version_announced(bytes@) == Ok::<_, Seq<char>>(Some(version))
            &&& accepted@.handshake.keep_alive == connect_keep_alive(bytes@)
            &&& accepted@.rest == behind_frame(bytes@)
            &&& kept == plain_connect(version, bytes@)
            &&& version_announced(kept) == Ok::<_, Seq<char>>(Some(version))
            &&& flags_index(kept) is Some
            &&& connect_keep_alive(kept) == connect_keep_alive(bytes@)
            &&& frame_decoded(version, kept) == Ok::<_, Seq<char>>(
                Some(
                    (DecodedFrame { keep_alive: Some(accepted@.handshake.keep_alive), rest: 0 }),
                ),
            )
        },
{
    // Detect the protocol version without consuming the CONNECT bytes.
    let version = match detect_version(bytes) {
        Err(text) => return Err(invalid_data(text)),
        Ok(None) => return wait_for_more(bytes.len() == 0, eof),
        Ok(Some(version)) => version,
    };
    // The CONNECT packet is still in the bytes: decode it fully, and encode it
    // again so a future generation can replay it verbatim.
    let decoded = decode_frame(version, bytes);
    let recoded = recode_frame(version, bytes);
    proof {
        if recoded matches Ok(Some(_)) {
            law_plain_connect_says_the_same(version, bytes@);
        }
    }
    accept_connect(version, decoded, recoded, eof)
}

/// The CONNACK packet that refuses a client because no broker is reachable.
pub open spec fn refusal(version: ProtocolVersion) -> MqttPacketView {
    match version {
        ProtocolVersion::MQTT3 => MqttPacketView::V3(
            v3::PacketView::ConnectAck { return_code: V3_SERVER_UNAVAILABLE },
        ),
        ProtocolVersion::MQTT5 => MqttPacketView::V5(
            v5::PacketView::ConnectAck {
                reason_code: V5_SERVER_UNAVAILABLE,
                server_keepalive_sec: None,
            },
        ),
    }
}

/// Build the CONNACK packet that refuses a client because no broker is
/// reachable.
pub fn refuse_connect(version: ProtocolVersion) -> (packet: MqttPacket)
    ensures
        packet@ == refusal(version),
{
    match version {
        ProtocolVersion::MQTT3 => MqttPacket::V3(
            v3::Packet::ConnectAck { return_code: V3_SERVER_UNAVAILABLE },
        ),
        ProtocolVersion::MQTT5 => MqttPacket::V5(
            v5::Packet::ConnectAck {
                reason_code: V5_SERVER_UNAVAILABLE,
                server_keepalive_sec: None,
            },
        ),
    }
}

proof fn lemma_varint_end_same(before: Seq<u8>, after: Seq<u8>, i: int)
    requires
        0 <= i,
        before.len() == after.len(),
        varint_end(before, i) matches Some(end) && forall|j: int|
            i <= j < end ==> before[j] == after[j],
    ensures
        varint_end(after, i) == varint_end(before, i),
    decreases before.len() - i,
{
    lemma_varint_end_bounds(before, i);
    if before[i] >= 0x80 {
        lemma_varint_end_same(before, after, i + 1);
    }
}

/// A patched CONNECT packet differs from the original in the clean bit alone,
/// which is cleared; patching it again changes nothing.
pub proof fn law_resumption_clears_one_bit(bytes: Seq<u8>)
    requires
        flags_index(bytes) is Some,
    ensures
        resuming(bytes).len() == bytes.len(),
        flags_index(resuming(bytes)) == flags_index(bytes),
        forall|i: int|
            0 <= i < bytes.len() && i != flags_index(bytes)->0 ==> resuming(bytes)[i] == bytes[i],
        resuming(bytes)[flags_index(bytes)->0] & CLEAN_FLAG == 0,
        resuming(bytes)[flags_index(bytes)->0] | CLEAN_FLAG == bytes[flags_index(bytes)->0]
            | CLEAN_FLAG,
        resuming(resuming(bytes)) == resuming(bytes),
{
    let flags = flags_index(bytes)->0;
    let byte = bytes[flags];
    assert((byte & !CLEAN_FLAG) & CLEAN_FLAG == 0) by (bit_vector);
    assert((byte & !CLEAN_FLAG) | CLEAN_FLAG == byte | CLEAN_FLAG) by (bit_vector);
    assert((byte & !CLEAN_FLAG) & !CLEAN_FLAG == byte & !CLEAN_FLAG) by (bit_vector);
    lemma_varint_end_bounds(bytes, 1);
    lemma_varint_end_same(bytes, resuming(bytes), 1);
    assert(resuming(resuming(bytes)) =~= resuming(bytes));
}

/// The protocol level stands for the version.
pub proof fn law_level_round_trip(version: ProtocolVersion)
    ensures
        version_of(level_of(version)) == Some(version),
{
}

/// The protocol levels of sessions: 4 stands for version 3, 5 for version 5, and no other
/// level for any.
pub proof fn law_levels_of_versions(level: u8)
    ensures
        level_of(ProtocolVersion::MQTT3) == 4 && level_of(ProtocolVersion::MQTT5) == 5,
        version_of(level) == Some(ProtocolVersion::MQTT3) <==> level == 4,
        version_of(level) == Some(ProtocolVersion::MQTT5) <==> level == 5,
{
}

/// Asking for resumption clears bit 1 of the flags and leaves all other bits, as they are,
/// whatever they are.
pub proof fn law_resumption_in_bits(bytes: Seq<u8>)
    requires
        flags_index(bytes) is Some,
    ensures
        ({
            let flags = flags_index(bytes)->0;
            let before = bytes[flags];
            let after = resuming(bytes)[flags];
            &&& (after / 2) % 2 == 0
            &&& after % 2 == before % 2
            &&& after / 4 == before / 4
        }),
{
    lemma_varint_end_bounds(bytes, 1);
    let before = bytes[flags_index(bytes)->0];
    let after = before & !0x02u8;
    assert((after / 2) % 2 == 0 && after % 2 == before % 2 && after / 4 == before / 4)
        by (bit_vector)
        requires
            after == before & !0x02u8,
    ;
}

/// A client that finds no broker is told so in a CONNACK packet of its version: server
/// unavailable, and no keepalive.
pub proof fn law_refusals_say_why(version: ProtocolVersion)
    ensures
        refusal(version).version() == version,
        version == ProtocolVersion::MQTT3 ==> refusal(version) == MqttPacketView::V3(
            v3::PacketView::ConnectAck { return_code: 3 },
        ),
        version == ProtocolVersion::MQTT5 ==> refusal(version) == MqttPacketView::V5(
            v5::PacketView::ConnectAck { reason_code: 0x88, server_keepalive_sec: None },
        ),
{
}

/// A handshake waits for more bytes for as long as there may be more; it ends without an
/// answer if there are none, and then says whether there ever were any.
pub proof fn law_handshakes_wait(empty: bool, eof: bool)
    ensures
        incomplete(empty, eof) == Ok::<_, SessionErrorView>(None::<AcceptedView>) <==> !eof,
        !(incomplete(empty, eof) matches Ok(Some(_))),
        eof && empty ==> incomplete(empty, eof) == Err::<Option<AcceptedView>, _>(
            SessionErrorView::ClientClosedBeforeConnect,
        ),
        eof && !empty ==> incomplete(empty, eof) == Err::<Option<AcceptedView>, _>(
            SessionErrorView::InvalidData("io error, \"bytes remaining on stream\""@),
        ),
{
}

/// What a CONNECT packet of a known version settles: the bytes that replay it, its own
/// keepalive, and how many bytes came behind it. It is accepted exactly if the codec finds
/// it whole and can write it again; what the codec refuses, it refuses for that reason.
pub proof fn law_what_handshakes_settle(
    version: ProtocolVersion,
    decoded: Result<Option<DecodedFrame>, Seq<char>>,
    recoded: Result<Option<Seq<u8>>, Seq<char>>,
    eof: bool,
)
    ensures
        ({
            let outcome = connect_outcome(version, decoded, recoded, eof);
            &&& (outcome matches Ok(Some(_))) <==> (decoded matches Ok(Some(_))) && (
            recoded matches Ok(Some(_)))
            &&& outcome matches Ok(Some(accepted)) ==> {
                &&& accepted.handshake.version == version
                &&& recoded == Ok::<_, Seq<char>>(Some(accepted.handshake.connect_raw))
                &&& decoded matches Ok(Some(frame))
                &&& accepted.rest == frame.rest
                &&& accepted.handshake.keep_alive == (match frame.keep_alive {
                    Some(secs) => secs,
                    None => 0,
                })
            }
            &&& decoded matches Err(text) ==> outcome == Err::<Option<AcceptedView>, _>(
                SessionErrorView::InvalidData(text),
            )
            &&& decoded matches Ok(Some(_)) ==> (recoded matches Err(text) ==> outcome == Err::<
                Option<AcceptedView>,
                _,
            >(SessionErrorView::InvalidData(text)))
            &&& decoded is Ok && !(outcome matches Ok(Some(_))) && !(recoded is Err) ==> outcome
                == incomplete(false, eof)
            &&& decoded == Ok::<_, Seq<char>>(None::<DecodedFrame>) ==> outcome == incomplete(
                false,
                eof,
            )
        }),
{
}

/// What a snapshot's CONNECT packet settles: the same bytes, and the keepalive that is in
/// them. It settles nothing exactly if the codec finds no whole packet there.
pub proof fn law_what_snapshots_settle(
    version: ProtocolVersion,
    connect_raw: Seq<u8>,
    decoded: Result<Option<DecodedFrame>, Seq<char>>,
)
    ensures
        match decoded {
            Ok(Some(frame)) => snapshot_outcome(version, connect_raw, decoded) matches Ok(handshake)
                && handshake.version == version && handshake.connect_raw == connect_raw
                && handshake.keep_alive == (match frame.keep_alive {
                Some(secs) => secs,
                None => 0,
            }),
            Ok(None) => snapshot_outcome(version, connect_raw, decoded) == Err::<HandshakeView, _>(
                SessionErrorView::UndecodableConnect,
            ),
            Err(text) => snapshot_outcome(version, connect_raw, decoded) == Err::<HandshakeView, _>(
                SessionErrorView::InvalidData(text),
            ),
        },
{
}

/// A keepalive in a CONNACK packet counts in version 5, whatever it is, and no other packet
/// has one.
pub proof fn law_who_assigns_keepalives(keep_alive: u16, ack: MqttPacketView, secs: u16, code: u8)
    ensures
        assigned_keep_alive(
            keep_alive,
            MqttPacketView::V5(
                v5::PacketView::ConnectAck { reason_code: code, server_keepalive_sec: Some(secs) },
            ),
        ) == secs,
        !(ack matches MqttPacketView::V5(
            v5::PacketView::ConnectAck { server_keepalive_sec: Some(_), .. },
        )) ==> assigned_keep_alive(keep_alive, ack) == keep_alive,
{
}

/// What becomes of the first bytes of a connection: nothing yet while the version is open,
/// an error for what announces none, and otherwise what the codec of that version makes of
/// them, where the bytes that are kept announce the same version.
pub proof fn law_handshakes_follow_the_version(bytes: Seq<u8>, eof: bool)
    ensures
        version_announced(bytes) matches Err(text) ==> handshake_outcome(bytes, eof) == Err::<
            Option<AcceptedView>,
            _,
        >(SessionErrorView::InvalidData(text)),
        version_announced(bytes) matches Ok(None) ==> handshake_outcome(bytes, eof) == incomplete(
            bytes.len() == 0,
            eof,
        ),
        version_announced(bytes) matches Ok(Some(version)) ==> (match frame_decoded(
            version,
            bytes,
        ) {
            Ok(Some(frame)) => handshake_outcome(bytes, eof) matches Ok(Some(accepted))
                && accepted.handshake.version == version && accepted.rest == frame.rest
                && accepted.handshake.connect_raw == plain_connect(version, bytes),
            Ok(None) => handshake_outcome(bytes, eof) == incomplete(false, eof),
            Err(text) => handshake_outcome(bytes, eof) == Err::<Option<AcceptedView>, _>(
                SessionErrorView::InvalidData(text),
            ),
        }),
{
}

} // verus!
