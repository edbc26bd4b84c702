//! What the first bytes of a frame announce: its length and, for a CONNECT
//! packet, the protocol version and where its flags stand.

use vstd::prelude::*;

use crate::types::{
    lemma_variable_length_size, two_bytes, variable_length, ProtocolVersion, CONNECT_FIRST_BYTE, MAX_PACKET_SIZE,
    MAX_VARIABLE_LENGTH, MQTT_LEVEL_31, MQTT_LEVEL_311, MQTT_LEVEL_5,
};

verus! {

/// Where a variable-length integer that starts at an index ends.
pub open spec fn varint_end(bytes: Seq<u8>, i: int) -> Option<int>
    decreases bytes.len() - i,
{
    if i < 0 || i >= bytes.len() {
        None
    } else if bytes[i] < 0x80 {
        Some(i + 1)
    } else {
        varint_end(bytes, i + 1)
    }
}

/// The value of a variable-length integer: seven bits per byte, the lowest
/// first.
pub open spec fn varint_value(bytes: Seq<u8>) -> nat
    decreases bytes.len(),
{
    if bytes.len() == 0 {
        0
    } else {
        (bytes[0] % 128) as nat + 128 * varint_value(bytes.skip(1))
    }
}

/// The fixed header at the start of some bytes.
#[verifier::ext_equal]
pub enum HeaderView {
    /// It is not there yet.
    Partial,
    /// Its length takes more than four bytes.
    Malformed,
    /// It ends at an index, and so many bytes follow.
    Whole { end: int, remaining: nat },
}

/// The fixed header at the start of some bytes.
pub open spec fn header(bytes: Seq<u8>) -> HeaderView {
    match varint_end(bytes, 1) {
        None => if bytes.len() >= 5 {
            HeaderView::Malformed
        } else {
            HeaderView::Partial
        },
        Some(end) => if end > 5 {
            HeaderView::Malformed
        } else {
            HeaderView::Whole { end, remaining: varint_value(bytes.subrange(1, end)) }
        },
    }
}

/// Whether more bytes are needed before the first frame can be looked at.
pub open spec fn awaits_more(bytes: Seq<u8>) -> bool {
    match header(bytes) {
        HeaderView::Partial => true,
        HeaderView::Malformed => false,
        HeaderView::Whole { end, remaining } => remaining <= MAX_PACKET_SIZE && bytes.len() < end
            + remaining,
    }
}

/// Whether the first frame announces more than a frame may hold, or takes too
/// many bytes to say how much.
pub open spec fn is_oversized(bytes: Seq<u8>) -> bool {
    match header(bytes) {
        HeaderView::Partial => false,
        HeaderView::Malformed => true,
        HeaderView::Whole { remaining, .. } => remaining > MAX_PACKET_SIZE,
    }
}

/// Number of bytes behind the first frame.
pub open spec fn behind_frame(bytes: Seq<u8>) -> int {
    match header(bytes) {
        HeaderView::Whole { end, remaining } => bytes.len() - end - remaining,
        _ => bytes.len() as int,
    }
}

/// Where the flags byte of a CONNECT packet stands: behind the fixed header,
/// the protocol name with its length prefix, and the protocol level.
pub open spec fn flags_index(bytes: Seq<u8>) -> Option<int> {
    match varint_end(bytes, 1) {
        None => None,
        Some(i) => if i + 1 >= bytes.len() {
            None
        } else {
            let flags = i + 2 + (bytes[i] * 256 + bytes[i + 1]) + 1;
            if flags < bytes.len() {
                Some(flags)
            } else {
                None
            }
        },
    }
}

/// The clean_session (v3) / clean_start (v5) bit of the CONNECT flags byte.
pub const CLEAN_FLAG: u8 = 0x02;

/// The bit of the CONNECT flags byte that announces a will.
pub const WILL_FLAG: u8 = 0x04;

/// The bit of the CONNECT flags byte that announces a password.
pub const PASSWORD_FLAG: u8 = 0x40;

/// The bit of the CONNECT flags byte that announces a user name.
pub const USERNAME_FLAG: u8 = 0x80;

/// The bits of the CONNECT flags byte that say nothing of a will: user name,
/// password and clean.
pub const WILL_LESS_FLAGS: u8 = 0xC2;

/// The flags byte of a CONNECT packet.
pub open spec fn connect_flags(bytes: Seq<u8>) -> u8 {
    bytes[flags_index(bytes)->0]
}

/// The keepalive of a CONNECT packet: the two bytes behind its flags.
pub open spec fn connect_keep_alive(bytes: Seq<u8>) -> int {
    let flags = flags_index(bytes)->0;
    bytes[flags + 1] * 256 + bytes[flags + 2]
}

/// The protocol name of MQTT 3.1.1 and 5: `MQTT`.
pub open spec fn mqtt_name() -> Seq<u8> {
    seq![0x4Du8, 0x51u8, 0x54u8, 0x54u8]
}

/// The protocol name of MQTT 3.1: `MQIsdp`.
pub open spec fn mqisdp_name() -> Seq<u8> {
    seq![0x4Du8, 0x51u8, 0x49u8, 0x73u8, 0x64u8, 0x70u8]
}

/// The version of a protocol level that a client may announce, or why there is
/// none.
pub open spec fn announced_level(level: u8) -> Result<Option<ProtocolVersion>, Seq<char>> {
    if level == MQTT_LEVEL_31 || level == MQTT_LEVEL_311 {
        Ok(Some(ProtocolVersion::MQTT3))
    } else if level == MQTT_LEVEL_5 {
        Ok(Some(ProtocolVersion::MQTT5))
    } else {
        Err("Invalid protocol"@)
    }
}

/// The protocol version that the start of a connection announces: an error
/// text if it is no CONNECT of a known version, `None` if more bytes are
/// needed. The protocol level stands behind the protocol name.
pub open spec fn version_announced(bytes: Seq<u8>) -> Result<Option<ProtocolVersion>, Seq<char>> {
    match header(bytes) {
        HeaderView::Partial => Ok(None),
        HeaderView::Malformed => Err("Invalid length"@),
        HeaderView::Whole { end, .. } => if bytes[0] != CONNECT_FIRST_BYTE {
            Err("Unsupported packet type"@)
        } else if bytes.len() <= end + 6 {
            Ok(None)
        } else {
            let name_len = bytes[end] * 256 + bytes[end + 1];
            if name_len == 4 && bytes.subrange(end + 2, end + 6) == mqtt_name() {
                announced_level(bytes[end + 6])
            } else if name_len == 6 && bytes.len() <= end + 8 {
                Ok(None)
            } else if name_len == 6 && bytes.subrange(end + 2, end + 8) == mqisdp_name() {
                announced_level(bytes[end + 8])
            } else {
                Err("Invalid protocol"@)
            }
        },
    }
}

/// Where a number of strings or binary fields end, each with a length prefix of
/// two bytes.
pub open spec fn fields_end(bytes: Seq<u8>, i: int, count: nat) -> int
    decreases count,
{
    if count == 0 {
        i
    } else {
        fields_end(bytes, i + 2 + bytes[i] * 256 + bytes[i + 1], (count - 1) as nat)
    }
}

/// Where the properties of a version 5 property section start that stands at an
/// index: behind its length.
pub open spec fn section_start(bytes: Seq<u8>, i: int) -> int {
    varint_end(bytes, i)->0
}

/// Where a version 5 property section ends that stands at an index.
pub open spec fn section_end(bytes: Seq<u8>, i: int) -> int {
    let start = section_start(bytes, i);
    start + varint_value(bytes.subrange(i, start))
}

/// The properties of a version 5 property section that stands at an index.
pub open spec fn section(bytes: Seq<u8>, i: int) -> Seq<u8> {
    bytes.subrange(section_start(bytes, i), section_end(bytes, i))
}

/// Where the first property of some, all of a CONNECT packet or all of a will,
/// ends: behind its type and a number of one, two or four bytes, a string or
/// binary field, or the two strings of a user property.
pub open spec fn property_end(properties: Seq<u8>) -> int {
    let kind = properties[0];
    if kind == 0x01 || kind == 0x17 || kind == 0x19 {
        2
    } else if kind == 0x21 || kind == 0x22 {
        3
    } else if kind == 0x02 || kind == 0x11 || kind == 0x18 || kind == 0x27 {
        5
    } else if kind == 0x26 {
        fields_end(properties, 1, 2)
    } else {
        fields_end(properties, 1, 1)
    }
}

/// The properties of one type among some, in order.
pub open spec fn properties_of(properties: Seq<u8>, kind: u8) -> Seq<u8>
    decreases properties.len(),
{
    if properties.len() == 0 {
        Seq::empty()
    } else {
        let end = property_end(properties);
        if end < 1 || end > properties.len() {
            Seq::empty()
        } else {
            let rest = properties_of(properties.skip(end), kind);
            if properties[0] == kind {
                properties.take(end) + rest
            } else {
                rest
            }
        }
    }
}

/// The properties of one type among some, unless they say what goes without
/// saying.
pub open spec fn notable(properties: Seq<u8>, default: Seq<u8>) -> Seq<u8> {
    let found = properties_of(properties, default[0]);
    if found == default {
        Seq::empty()
    } else {
        found
    }
}

/// The properties of a CONNECT packet in their plainest form: session expiry,
/// authentication method and data, request for problem and response
/// information, receive maximum, maximum packet size, topic alias maximum, user
/// properties.
pub open spec fn plain_connect_properties(properties: Seq<u8>) -> Seq<u8> {
    notable(properties, seq![0x11u8, 0, 0, 0, 0]) + properties_of(properties, 0x15) + properties_of(
        properties,
        0x16,
    ) + notable(properties, seq![0x17u8, 1]) + notable(properties, seq![0x19u8, 0]) + properties_of(
        properties,
        0x21,
    ) + properties_of(properties, 0x27) + notable(properties, seq![0x22u8, 0, 0]) + properties_of(
        properties,
        0x26,
    )
}

/// The properties of a will in their plainest form: delay, payload format,
/// message expiry, content type, response topic, correlation data, user
/// properties.
pub open spec fn plain_will_properties(properties: Seq<u8>) -> Seq<u8> {
    properties_of(properties, 0x18) + properties_of(properties, 0x01) + properties_of(
        properties,
        0x02,
    ) + properties_of(properties, 0x03) + properties_of(properties, 0x08) + properties_of(
        properties,
        0x09,
    ) + properties_of(properties, 0x26)
}

/// A property section: properties behind their length.
pub open spec fn prefixed(properties: Seq<u8>) -> Seq<u8> {
    variable_length(properties.len()) + properties
}

/// How many of user name and password the flags announce.
pub open spec fn credentials(flags: u8) -> nat {
    (if flags & USERNAME_FLAG != 0 {
        1nat
    } else {
        0nat
    }) + (if flags & PASSWORD_FLAG != 0 {
        1nat
    } else {
        0nat
    })
}

/// The protocol name in the plainest form of a CONNECT packet of a version.
pub open spec fn plain_name(version: ProtocolVersion, bytes: Seq<u8>) -> Seq<u8> {
    if version == ProtocolVersion::MQTT3 && bytes[flags_index(bytes)->0 - 1] == MQTT_LEVEL_31 {
        mqisdp_name()
    } else {
        mqtt_name()
    }
}

/// The protocol level and the flags in the plainest form of a CONNECT packet of
/// a version.
pub open spec fn plain_level_and_flags(version: ProtocolVersion, bytes: Seq<u8>) -> Seq<u8> {
    let flags = connect_flags(bytes);
    match version {
        ProtocolVersion::MQTT3 => seq![MQTT_LEVEL_311, flags],
        ProtocolVersion::MQTT5 => seq![
            MQTT_LEVEL_5,
            if flags & WILL_FLAG != 0 {
                flags
            } else {
                flags & WILL_LESS_FLAGS
            },
        ],
    }
}

/// What follows the keepalive in the plainest form of a CONNECT packet of a
/// version: the properties, the client identifier, the will, user name and
/// password, and nothing more.
pub open spec fn plain_payload(version: ProtocolVersion, bytes: Seq<u8>) -> Seq<u8> {
    let i = flags_index(bytes)->0 + 3;
    let flags = connect_flags(bytes);
    let will = flags & WILL_FLAG != 0;
    match version {
        ProtocolVersion::MQTT3 => bytes.subrange(
            i,
            fields_end(
                bytes,
                i,
                1 + credentials(flags) + if will {
                    2nat
                } else {
                    0nat
                },
            ),
        ),
        ProtocolVersion::MQTT5 => {
            let client = section_end(bytes, i);
            let client_end = fields_end(bytes, client, 1);
            prefixed(plain_connect_properties(section(bytes, i))) + bytes.subrange(
                client,
                client_end,
            ) + if will {
                let topic = section_end(bytes, client_end);
                prefixed(plain_will_properties(section(bytes, client_end))) + bytes.subrange(
                    topic,
                    fields_end(bytes, topic, 2 + credentials(flags)),
                )
            } else {
                bytes.subrange(client_end, fields_end(bytes, client_end, credentials(flags)))
            }
        },
    }
}

/// What follows the fixed header in the plainest form of a CONNECT packet of a
/// version.
pub open spec fn plain_connect_body(version: ProtocolVersion, bytes: Seq<u8>) -> Seq<u8> {
    let flags = flags_index(bytes)->0;
    let name = plain_name(version, bytes);
    two_bytes(name.len()) + name + plain_level_and_flags(version, bytes) + bytes.subrange(
        flags + 1,
        flags + 3,
    ) + plain_payload(version, bytes)
}

/// The CONNECT packet of a version at the start of some bytes in its plainest
/// form: lengths in as few bytes as they take, version 5 properties in a fixed
/// order and without those that go without saying, and nothing behind the last
/// field. Level 3.1 becomes 3.1.1.
pub open spec fn plain_connect(version: ProtocolVersion, bytes: Seq<u8>) -> Seq<u8> {
    let body = plain_connect_body(version, bytes);
    seq![CONNECT_FIRST_BYTE] + variable_length(body.len()) + body
}

proof fn lemma_variable_length_reads_back(frame: Seq<u8>, i: int, value: nat)
    requires
        0 <= i,
        i + variable_length(value).len() <= frame.len(),
        frame.subrange(i, i + variable_length(value).len()) == variable_length(value),
    ensures
        variable_length(value).len() > 0,
        varint_end(frame, i) == Some(i + variable_length(value).len() as int),
        varint_value(variable_length(value)) == value,
    decreases value,
{
    let encoded = variable_length(value);
    assert(frame.subrange(i, i + encoded.len())[0] == frame[i]);
    if value < 128 {
        assert(encoded.skip(1) =~= Seq::empty());
        assert(varint_value(encoded.skip(1)) == 0);
    } else {
        let rest = variable_length(value / 128);
        assert(encoded.skip(1) =~= rest);
        assert(frame.subrange(i + 1, i + 1 + rest.len()) =~= frame.subrange(
            i,
            i + encoded.len(),
        ).skip(1));
        lemma_variable_length_reads_back(frame, i + 1, value / 128);
        assert((value % 128 + 128) as u8 % 128 == value % 128);
    }
}

/// The plainest form of a CONNECT packet is one whole frame that announces the
/// same version, asks for the same keepalive and the same clean start, and in
/// version 3 has the same flags. What stands behind the keepalive is taken from
/// the packet, field by field and property by property.
pub proof fn law_plain_connect_says_the_same(version: ProtocolVersion, bytes: Seq<u8>)
    requires
        flags_index(bytes) matches Some(flags) && flags + 2 < bytes.len(),
        plain_connect_body(version, bytes).len() <= MAX_VARIABLE_LENGTH,
    ensures
        ({
            let frame = plain_connect(version, bytes);
            let flags = flags_index(frame)->0;
            &&& behind_frame(frame) == 0
            &&& version_announced(frame) == Ok::<_, Seq<char>>(Some(version))
            &&& flags_index(frame) is Some && flags + 2 < frame.len()
            &&& connect_keep_alive(frame) == connect_keep_alive(bytes)
            &&& connect_flags(frame) & CLEAN_FLAG == connect_flags(bytes) & CLEAN_FLAG
            &&& version == ProtocolVersion::MQTT3 ==> connect_flags(frame) == connect_flags(bytes)
            &&& frame.skip(flags + 3) == plain_payload(version, bytes)
        }),
{
    let body = plain_connect_body(version, bytes);
    let length = variable_length(body.len());
    let frame = plain_connect(version, bytes);
    let name = plain_name(version, bytes);
    let levels = plain_level_and_flags(version, bytes);
    let payload = plain_payload(version, bytes);
    let old_flags = flags_index(bytes)->0;
    lemma_variable_length_size(body.len());
    assert(frame.subrange(1, 1 + length.len() as int) =~= length);
    lemma_variable_length_reads_back(frame, 1, body.len());
    let end = 1 + length.len() as int;
    assert(header(frame) == HeaderView::Whole { end, remaining: body.len() });
    lemma_varint_end_bounds(bytes, 1);
    let alive = bytes.subrange(old_flags + 1, old_flags + 3);
    assert(forall|k: int| 0 <= k < body.len() ==> frame[end + k] == #[trigger] body[k]);
    assert(body.len() == 2 + name.len() + 2 + 2 + payload.len());
    assert(body[0] == 0 && body[1] == name.len());
    assert(frame[end] == body[0] && frame[end + 1] == body[1]);
    assert(body.subrange(2, 2 + name.len() as int) =~= name);
    assert(frame.subrange(end + 2, end + 2 + name.len()) =~= name);
    let level = 2 + name.len() as int;
    assert(body[level] == levels[0] && body[level + 1] == levels[1]);
    assert(frame[end + level] == levels[0]);
    let flags = end + level + 1;
    assert(frame[flags] == body[level + 1]);
    assert(flags_index(frame) == Some(flags));
    assert(body[level + 2] == alive[0] && body[level + 3] == alive[1]);
    assert(frame[flags + 1] == body[level + 2] && frame[flags + 2] == body[level + 3]);
    assert(frame.skip(flags + 3) =~= payload);
    let byte = connect_flags(bytes);
    assert((byte & WILL_LESS_FLAGS) & CLEAN_FLAG == byte & CLEAN_FLAG) by (bit_vector);
}

/// A variable-length integer ends behind its start and within the bytes.
pub proof fn lemma_varint_end_bounds(bytes: Seq<u8>, i: int)
    requires
        0 <= i,
    ensures
        varint_end(bytes, i) matches Some(end) ==> i < end <= bytes.len(),
    decreases bytes.len() - i,
{
    if i < bytes.len() && bytes[i] >= 0x80 {
        lemma_varint_end_bounds(bytes, i + 1);
    }
}

proof fn lemma_varint_ends(bytes: Seq<u8>, i: int, end: int)
    requires
        0 <= i < end <= bytes.len(),
        bytes[end - 1] < 0x80,
        forall|j: int| i <= j < end - 1 ==> #[trigger] bytes[j] >= 0x80,
    ensures
        varint_end(bytes, i) == Some(end),
    decreases end - i,
{
    if i < end - 1 {
        lemma_varint_ends(bytes, i + 1, end);
    }
}

proof fn lemma_varint_is_cut(bytes: Seq<u8>, i: int)
    requires
        0 <= i,
        forall|j: int| i <= j < bytes.len() ==> #[trigger] bytes[j] >= 0x80,
    ensures
        varint_end(bytes, i) is None,
    decreases bytes.len() - i,
{
    if i < bytes.len() {
        lemma_varint_is_cut(bytes, i + 1);
    }
}

/// In a CONNECT packet the flags stand behind its first byte, its length, in however many
/// bytes, the protocol name with its own length, and the protocol level; in a packet that
/// is cut short before them there are none.
pub proof fn law_where_the_flags_stand(
    first: u8,
    length: Seq<u8>,
    name: Seq<u8>,
    level: u8,
    flags: u8,
    rest: Seq<u8>,
    cut: int,
)
    requires
        length.len() > 0,
        length.last() < 0x80,
        forall|j: int| 0 <= j < length.len() - 1 ==> #[trigger] length[j] >= 0x80,
        name.len() <= 65_535,
        0 <= cut <= 1 + length.len() + 2 + name.len() + 1,
    ensures
        ({
            let bytes = seq![first] + length + two_bytes(name.len()) + name + seq![level, flags]
                + rest;
            let index = 1 + length.len() + 2 + name.len() + 1;
            &&& flags_index(bytes) == Some(index as int)
            &&& bytes[index as int] == flags
            &&& flags_index(bytes.take(cut)) is None
        }),
{
    let size = two_bytes(name.len());
    let bytes = seq![first] + length + size + name + seq![level, flags] + rest;
    let end = 1 + length.len() as int;
    assert(forall|j: int| 1 <= j < end ==> #[trigger] bytes[j] == length[j - 1]);
    assert(bytes[end - 1] == length.last());
    lemma_varint_ends(bytes, 1, end);
    assert(bytes[end] == size[0] && bytes[end + 1] == size[1]);
    let less = bytes.take(cut);
    if cut >= end {
        assert(forall|j: int| 1 <= j < end ==> #[trigger] less[j] == length[j - 1]);
        assert(less[end - 1] == length.last());
        lemma_varint_ends(less, 1, end);
        if cut >= end + 2 {
            assert(less[end] == size[0] && less[end + 1] == size[1]);
        }
    } else {
        assert forall|j: int| 1 <= j < less.len() implies #[trigger] less[j] >= 0x80 by {
            assert(less[j] == length[j - 1]);
        }
        lemma_varint_is_cut(less, 1);
    }
}

/// A length that was written as a variable-length integer is read as that number, and what
/// follows it starts right behind it.
pub proof fn law_lengths_read_back(before: Seq<u8>, value: nat, rest: Seq<u8>)
    ensures
        varint_end(before + variable_length(value) + rest, before.len() as int) == Some(
            (before.len() + variable_length(value).len()) as int,
        ),
        varint_value(variable_length(value)) == value,
{
    let bytes = before + variable_length(value) + rest;
    let i = before.len() as int;
    assert(bytes.subrange(i, i + variable_length(value).len()) =~= variable_length(value));
    lemma_variable_length_reads_back(bytes, i, value);
}

} // verus!
