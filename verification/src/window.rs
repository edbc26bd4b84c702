//! QoS in-flight windows: the per-session bookkeeping of QoS1/2 packets that
//! have been forwarded but not yet acknowledged end-to-end.
//!
//! Packet identifiers pass through 1:1 (each session owns its broker
//! connection), so entries are keyed by packet id per direction. Entries hold
//! the raw encoded packet: retransmitting with DUP set is a single bit flip,
//! and snapshots need no codec work.

use vstd::prelude::*;

use crate::codec::{
    codec_properties, encode_v3_publish, encode_v3_release, encode_v5_publish, encode_v5_release,
};
use crate::packet::{v3_publish_body, v5_publish_body, Delivery, MqttPacket, MqttPacketView};
use crate::types::{publish_first_byte, Publish, PublishView, QoS};
use crate::v3;
use crate::v5;

verus! {

/// Where the delivery of one message stands.
#[derive(Clone, Copy, Debug, PartialEq, Eq, Structural)]
pub enum WindowState {
    /// We sent the client's PUBLISH to the broker; awaiting PUBACK/PUBREC.
    /// On thaw: retransmit PUBLISH with DUP=1 toward the broker.
    C2BPublishSent,
    /// We sent the client's PUBREL to the broker; awaiting PUBCOMP.
    /// On thaw: retransmit PUBREL toward the broker.
    C2BPubrelSent,
    /// We sent the broker's PUBLISH to the client; awaiting PUBACK/PUBREC.
    /// On thaw: retransmit PUBLISH with DUP=1 toward the client.
    B2CPublishSent,
    /// We forwarded the client's PUBREC to the broker; awaiting PUBREL.
    /// On thaw: nothing to retransmit (the broker re-sends PUBREL once
    /// session resumption lands; until then the entry just tracks state).
    B2CPubrecForwarded,
}

impl WindowState {
    /// Whether the state belongs to a message on its way to the broker.
    pub open spec fn is_c2b(self) -> bool {
        self == WindowState::C2BPublishSent || self == WindowState::C2BPubrelSent
    }

    /// Whether the state awaits the acknowledgement of a PUBLISH.
    pub open spec fn is_publish_sent(self) -> bool {
        self == WindowState::C2BPublishSent || self == WindowState::B2CPublishSent
    }
}

/// One message in flight.
#[derive(Clone, Debug)]
pub struct WindowEntry {
    pub packet_id: u16,
    pub state: WindowState,
    pub raw: Vec<u8>,
}

/// Mathematical counterpart of [`WindowEntry`].
#[verifier::ext_equal]
pub struct EntryView {
    pub packet_id: u16,
    pub state: WindowState,
    pub raw: Seq<u8>,
}

impl View for WindowEntry {
    type V = EntryView;

    open spec fn view(&self) -> EntryView {
        EntryView { packet_id: self.packet_id, state: self.state, raw: self.raw@ }
    }
}

impl WindowEntry {
    /// Whether this is a PUBLISH in flight without a frame to send again.
    pub fn lacks_frame(&self) -> (lacking: bool)
        ensures
            lacking == (self@.state.is_publish_sent() && self@.raw.len() == 0),
    {
        match self.state {
            WindowState::C2BPublishSent | WindowState::B2CPublishSent => self.raw.is_empty(),
            WindowState::C2BPubrelSent | WindowState::B2CPubrecForwarded => false,
        }
    }
}

/// The bit of the first byte that marks a PUBLISH as delivered before.
pub const DUP_FLAG: u8 = 0x08;

/// Packets in flight in both directions.
#[derive(Debug)]
pub struct InflightWindows {
    // Insertion-ordered: replay must preserve the original delivery order
    // (QoS ordering guarantee), so these are Vecs, not maps. Windows are
    // small (broker in-flight caps), linear scans are fine.
    c2b: Vec<WindowEntry>,
    b2c: Vec<WindowEntry>,
}

/// Mathematical counterpart of [`InflightWindows`]: the messages in flight in
/// each direction, oldest first.
#[verifier::ext_equal]
pub struct WindowsView {
    pub c2b: Seq<EntryView>,
    pub b2c: Seq<EntryView>,
}

/// The entries of a list.
pub open spec fn entries_view(entries: Seq<WindowEntry>) -> Seq<EntryView> {
    entries.map_values(|e: WindowEntry| e@)
}

/// The frames of a list.
pub open spec fn frames_view(frames: Seq<Vec<u8>>) -> Seq<Seq<u8>> {
    frames.map_values(|f: Vec<u8>| f@)
}

/// Whether a window tracks a packet identifier.
pub open spec fn has_id(window: Seq<EntryView>, id: u16) -> bool {
    exists|i: int| 0 <= i < window.len() && (#[trigger] window[i]).packet_id == id
}

/// Where a window tracks a packet identifier.
pub open spec fn index_of(window: Seq<EntryView>, id: u16) -> int {
    choose|i: int| 0 <= i < window.len() && (#[trigger] window[i]).packet_id == id
}

/// No packet identifier is tracked twice.
pub open spec fn distinct_ids(window: Seq<EntryView>) -> bool {
    forall|i: int, j: int|
        0 <= i < j < window.len() ==> (#[trigger] window[i]).packet_id != (
        #[trigger] window[j]).packet_id
}

/// The window after an entry took the place of the one with its identifier, or
/// the last place if there was none.
pub open spec fn with_entry(window: Seq<EntryView>, entry: EntryView) -> Seq<EntryView> {
    if has_id(window, entry.packet_id) {
        window.update(index_of(window, entry.packet_id), entry)
    } else {
        window.push(entry)
    }
}

/// The window without the entry of an identifier.
pub open spec fn without_id(window: Seq<EntryView>, id: u16) -> Seq<EntryView> {
    if has_id(window, id) {
        window.remove(index_of(window, id))
    } else {
        window
    }
}

/// The window after the entry of an identifier, if there is one, changed its
/// state.
pub open spec fn with_state(window: Seq<EntryView>, id: u16, state: WindowState) -> Seq<EntryView> {
    if has_id(window, id) {
        let i = index_of(window, id);
        window.update(i, EntryView { state, ..window[i] })
    } else {
        window
    }
}

/// The frame with the duplicate flag set.
pub open spec fn marked_dup(raw: Seq<u8>) -> Seq<u8> {
    raw.update(0, raw[0] | DUP_FLAG)
}

/// What is sent to the broker again for an entry.
pub open spec fn broker_retransmit(entry: EntryView) -> Seq<u8> {
    if entry.state == WindowState::C2BPublishSent {
        marked_dup(entry.raw)
    } else {
        entry.raw
    }
}

/// What is sent to the client again for a window, oldest first: the PUBLISH
/// packets that it has not answered.
pub open spec fn client_retransmits_of(window: Seq<EntryView>) -> Seq<Seq<u8>>
    decreases window.len(),
{
    if window.len() == 0 {
        Seq::empty()
    } else {
        let rest = client_retransmits_of(window.drop_last());
        if window.last().state == WindowState::B2CPublishSent {
            rest.push(marked_dup(window.last().raw))
        } else {
            rest
        }
    }
}

impl WindowsView {
    /// Nothing is in flight.
    pub open spec fn empty() -> WindowsView {
        WindowsView { c2b: Seq::empty(), b2c: Seq::empty() }
    }

    /// Each direction tracks an identifier once, in a state of its own.
    pub open spec fn wf(self) -> bool {
        &&& distinct_ids(self.c2b)
        &&& distinct_ids(self.b2c)
        &&& forall|i: int| 0 <= i < self.c2b.len() ==> (#[trigger] self.c2b[i]).state.is_c2b()
        &&& forall|i: int| 0 <= i < self.b2c.len() ==> !(#[trigger] self.b2c[i]).state.is_c2b()
    }

    /// Every PUBLISH in flight has a frame to send again.
    pub open spec fn replayable(self) -> bool {
        replayable_entries(self.c2b) && replayable_entries(self.b2c)
    }

    /// Whether a packet of the client can be tracked: it has an encoding if its
    /// frame is to be kept, that is for a message that is acknowledged and for
    /// the PUBREL of one that is in flight.
    pub open spec fn admits_c2b(self, packet: MqttPacketView) -> bool {
        match packet.delivery() {
            Delivery::Release(packet_id) => has_id(self.c2b, packet_id) ==> packet.encodable(),
            _ => packet.wf(),
        }
    }

    /// The windows after a packet was forwarded from the client to the broker.
    pub open spec fn after_c2b(self, packet: MqttPacketView) -> WindowsView {
        match packet.delivery() {
            Delivery::Publish(publish) => if publish.qos == QoS::AtMostOnce {
                self
            } else {
                WindowsView {
                    c2b: with_entry(
                        self.c2b,
                        EntryView {
                            packet_id: publish.packet_id->0,
                            state: WindowState::C2BPublishSent,
                            raw: packet.frame(),
                        },
                    ),
                    ..self
                }
            },
            Delivery::Release(packet_id) => if has_id(self.c2b, packet_id) {
                WindowsView {
                    c2b: with_entry(
                        self.c2b,
                        EntryView {
                            packet_id,
                            state: WindowState::C2BPubrelSent,
                            raw: packet.frame(),
                        },
                    ),
                    ..self
                }
            } else {
                self
            },
            Delivery::Received(packet_id) => WindowsView {
                b2c: with_state(self.b2c, packet_id, WindowState::B2CPubrecForwarded),
                ..self
            },
            Delivery::Ack(packet_id) => WindowsView { b2c: without_id(self.b2c, packet_id), ..self },
            Delivery::Complete(packet_id) => WindowsView {
                b2c: without_id(self.b2c, packet_id),
                ..self
            },
            Delivery::Unrelated => self,
        }
    }

    /// The windows after a packet was forwarded from the broker to the client.
    pub open spec fn after_b2c(self, packet: MqttPacketView) -> WindowsView {
        match packet.delivery() {
            Delivery::Publish(publish) => if publish.qos == QoS::AtMostOnce {
                self
            } else {
                WindowsView {
                    b2c: with_entry(
                        self.b2c,
                        EntryView {
                            packet_id: publish.packet_id->0,
                            state: WindowState::B2CPublishSent,
                            raw: packet.frame(),
                        },
                    ),
                    ..self
                }
            },
            Delivery::Ack(packet_id) => WindowsView { c2b: without_id(self.c2b, packet_id), ..self },
            Delivery::Complete(packet_id) => WindowsView {
                c2b: without_id(self.c2b, packet_id),
                ..self
            },
            _ => self,
        }
    }

    /// What is sent to the broker again, oldest first.
    pub open spec fn broker_retransmits(self) -> Seq<Seq<u8>> {
        self.c2b.map_values(|e: EntryView| broker_retransmit(e))
    }

    /// What is sent to the client again, oldest first.
    pub open spec fn client_retransmits(self) -> Seq<Seq<u8>> {
        client_retransmits_of(self.b2c)
    }

    /// The entries of a snapshot.
    pub open spec fn snapshot(self) -> Seq<EntryView> {
        self.c2b + self.b2c
    }

    /// The windows with an entry of a snapshot put in.
    pub open spec fn with_restored(self, entry: EntryView) -> WindowsView {
        if entry.state.is_c2b() {
            WindowsView { c2b: with_entry(self.c2b, entry), ..self }
        } else {
            WindowsView { b2c: with_entry(self.b2c, entry), ..self }
        }
    }

    /// The windows that the entries of a snapshot stand for.
    pub open spec fn from_snapshot(entries: Seq<EntryView>) -> WindowsView
        decreases entries.len(),
    {
        if entries.len() == 0 {
            WindowsView::empty()
        } else {
            WindowsView::from_snapshot(entries.drop_last()).with_restored(entries.last())
        }
    }
}

/// Every PUBLISH among some entries has a frame to send again.
pub open spec fn replayable_entries(entries: Seq<EntryView>) -> bool {
    forall|i: int|
        0 <= i < entries.len() && (#[trigger] entries[i]).state.is_publish_sent()
            ==> entries[i].raw.len() > 0
}

fn vec_position(v: &Vec<WindowEntry>, id: u16) -> (found: Option<usize>)
    requires
        distinct_ids(entries_view(v@)),
    ensures
        match found {
            Some(i) => has_id(entries_view(v@), id) && i == index_of(entries_view(v@), id) && i
                < v.len(),
            None => !has_id(entries_view(v@), id),
        },
{
    let ghost window = entries_view(v@);
    let mut i: usize = 0;
    while i < v.len()
        invariant
            i <= v.len(),
            window == entries_view(v@),
            distinct_ids(window),
            forall|j: int| 0 <= j < i ==> (#[trigger] window[j]).packet_id != id,
        decreases v.len() - i,
    {
        assert(window[i as int] == v@[i as int]@);
        if v[i].packet_id == id {
            assert(has_id(window, id));
            return Some(i);
        }
        i = i + 1;
    }
    None
}

fn vec_insert(v: &mut Vec<WindowEntry>, entry: WindowEntry)
    requires
        distinct_ids(entries_view(old(v)@)),
    ensures
        entries_view(final(v)@) == with_entry(entries_view(old(v)@), entry@),
{
    let ghost before = entries_view(v@);
    match vec_position(v, entry.packet_id) {
        Some(i) => {
            v.set(i, entry);
            assert(entries_view(v@) =~= before.update(i as int, entry@));
        },
        None => {
            v.push(entry);
            assert(entries_view(v@) =~= before.push(entry@));
        },
    }
}

fn vec_remove(v: &mut Vec<WindowEntry>, id: u16)
    requires
        distinct_ids(entries_view(old(v)@)),
    ensures
        entries_view(final(v)@) == without_id(entries_view(old(v)@), id),
{
    let ghost before = entries_view(v@);
    match vec_position(v, id) {
        Some(i) => {
            let _ = v.remove(i);
            assert(entries_view(v@) =~= before.remove(i as int));
        },
        None => {},
    }
}

fn vec_get_mut(v: &mut Vec<WindowEntry>, id: u16) -> (entry: Option<&mut WindowEntry>)
    requires
        distinct_ids(entries_view(old(v)@)),
    ensures
        match entry {
            Some(entry) => {
                let i = index_of(entries_view(old(v)@), id);
                &&& has_id(entries_view(old(v)@), id)
                &&& *entry == old(v)@[i]
                &&& final(v)@ == old(v)@.update(i, *final(entry))
            },
            None => !has_id(entries_view(old(v)@), id) && final(v)@ == old(v)@,
        },
{
    match vec_position(v, id) {
        Some(i) => Some(&mut v[i]),
        None => None,
    }
}

fn vec_contains(v: &Vec<WindowEntry>, id: u16) -> (found: bool)
    requires
        distinct_ids(entries_view(v@)),
    ensures
        found == has_id(entries_view(v@), id),
{
    vec_position(v, id).is_some()
}

fn encode_publish_v5(publish: &Publish) -> (frame: Vec<u8>)
    requires
        publish@.v5_encodable(),
    ensures
        frame@ == crate::packet::v5_publish_frame(publish@),
{
    match &publish.properties {
        Some(properties) => {
            let built = codec_properties(properties);
            encode_v5_publish(publish, Some(built))
        },
        None => encode_v5_publish(publish, None),
    }
}

/// The frame of a PUBLISH or PUBREL packet.
pub(crate) fn encode_raw(packet: &MqttPacket) -> (frame: Vec<u8>)
    requires
        packet@.encodable(),
        packet@.delivery() is Publish || packet@.delivery() is Release,
    ensures
        frame@ == packet@.frame(),
        frame@.len() > 0,
{
    match packet {
        MqttPacket::V3(v3::Packet::Publish(publish)) => encode_v3_publish(publish),
        MqttPacket::V3(v3::Packet::PublishRelease { packet_id }) => encode_v3_release(*packet_id),
        MqttPacket::V5(v5::Packet::Publish(publish)) => encode_publish_v5(publish),
        MqttPacket::V5(v5::Packet::PublishRelease(ack)) => encode_v5_release(ack),
        _ => Vec::new(),
    }
}

/// A copy of some bytes.
pub(crate) fn copy_bytes(bytes: &Vec<u8>) -> (copy: Vec<u8>)
    ensures
        copy@ == bytes@,
{
    let copy = bytes.clone();
    assert(copy@ =~= bytes@);
    copy
}

fn with_dup(raw: Vec<u8>) -> (marked: Vec<u8>)
    requires
        raw@.len() > 0,
    ensures
        marked@ == marked_dup(raw@),
{
    let mut marked = raw;
    let first: u8 = marked[0] | DUP_FLAG;
    marked.set(0, first);
    marked
}

impl View for InflightWindows {
    type V = WindowsView;

    closed spec fn view(&self) -> WindowsView {
        WindowsView { c2b: entries_view(self.c2b@), b2c: entries_view(self.b2c@) }
    }
}

impl InflightWindows {
    /// Each direction tracks an identifier once, in a state of its own.
    pub open spec fn wf(&self) -> bool {
        self@.wf()
    }

    /// Windows with nothing in flight.
    pub fn new() -> (windows: Self)
        ensures
            windows.wf(),
            windows@ == WindowsView::empty(),
    {
        let windows = InflightWindows { c2b: Vec::new(), b2c: Vec::new() };
        assert(windows@ =~= WindowsView::empty());
        windows
    }

    /// Messages on their way to the broker, oldest first.
    pub fn c2b(&self) -> (entries: &Vec<WindowEntry>)
        ensures
            entries_view(entries@) == self@.c2b,
    {
        &self.c2b
    }

    /// Messages on their way to the client, oldest first.
    pub fn b2c(&self) -> (entries: &Vec<WindowEntry>)
        ensures
            entries_view(entries@) == self@.b2c,
    {
        &self.b2c
    }

    /// Whether a packet of the client can be tracked: see
    /// [`WindowsView::admits_c2b`].
    pub fn admits_c2b(&self, packet: &MqttPacket) -> (admitted: bool)
        requires
            self.wf(),
        ensures
            admitted == self@.admits_c2b(packet@),
    {
        match packet {
            MqttPacket::V3(v3::Packet::PublishRelease { packet_id }) => !vec_contains(
                &self.c2b,
                *packet_id,
            ) || packet.is_encodable(),
            MqttPacket::V5(v5::Packet::PublishRelease(ack)) => !vec_contains(
                &self.c2b,
                ack.packet_id,
            ) || packet.is_encodable(),
            _ => packet.is_valid(),
        }
    }

    /// Account for a packet about to be forwarded client→broker.
    pub fn track_c2b(&mut self, packet: &MqttPacket)
        requires
            old(self).wf(),
            old(self)@.admits_c2b(packet@),
        ensures
            final(self).wf(),
            final(self)@ == old(self)@.after_c2b(packet@),
            old(self)@.replayable() ==> final(self)@.replayable(),
    {
        match packet {
            MqttPacket::V3(v3::Packet::Publish(publish)) => self.c2b_insert(
                publish.qos,
                publish.packet_id,
                packet,
            ),
            MqttPacket::V3(v3::Packet::PublishRelease { packet_id }) => self.c2b_transition(
                *packet_id,
                WindowState::C2BPubrelSent,
                packet,
            ),
            MqttPacket::V3(v3::Packet::PublishAck { packet_id }) => vec_remove(
                &mut self.b2c,
                *packet_id,
            ),
            MqttPacket::V3(v3::Packet::PublishReceived { packet_id }) => self.b2c_transition(
                *packet_id,
                WindowState::B2CPubrecForwarded,
            ),
            MqttPacket::V3(v3::Packet::PublishComplete { packet_id }) => vec_remove(
                &mut self.b2c,
                *packet_id,
            ),
            MqttPacket::V5(v5::Packet::Publish(publish)) => self.c2b_insert(
                publish.qos,
                publish.packet_id,
                packet,
            ),
            MqttPacket::V5(v5::Packet::PublishRelease(ack)) => self.c2b_transition(
                ack.packet_id,
                WindowState::C2BPubrelSent,
                packet,
            ),
            MqttPacket::V5(v5::Packet::PublishAck(ack)) => vec_remove(&mut self.b2c, ack.packet_id),
            MqttPacket::V5(v5::Packet::PublishReceived(ack)) => self.b2c_transition(
                ack.packet_id,
                WindowState::B2CPubrecForwarded,
            ),
            MqttPacket::V5(v5::Packet::PublishComplete(ack)) => vec_remove(
                &mut self.b2c,
                ack.packet_id,
            ),
            _ => {},
        }
        proof {
            lemma_after_c2b_keeps_wf(old(self)@, packet@);
        }
    }

    /// Account for a packet about to be forwarded broker→client.
    pub fn track_b2c(&mut self, packet: &MqttPacket)
        requires
            old(self).wf(),
            packet@.wf(),
        ensures
            final(self).wf(),
            final(self)@ == old(self)@.after_b2c(packet@),
            old(self)@.replayable() ==> final(self)@.replayable(),
    {
        match packet {
            MqttPacket::V3(v3::Packet::Publish(publish)) => self.b2c_insert(
                publish.qos,
                publish.packet_id,
                packet,
            ),
            MqttPacket::V3(v3::Packet::PublishAck { packet_id }) => vec_remove(
                &mut self.c2b,
                *packet_id,
            ),
            MqttPacket::V3(v3::Packet::PublishComplete { packet_id }) => vec_remove(
                &mut self.c2b,
                *packet_id,
            ),
            MqttPacket::V5(v5::Packet::Publish(publish)) => self.b2c_insert(
                publish.qos,
                publish.packet_id,
                packet,
            ),
            MqttPacket::V5(v5::Packet::PublishAck(ack)) => vec_remove(&mut self.c2b, ack.packet_id),
            MqttPacket::V5(v5::Packet::PublishComplete(ack)) => vec_remove(
                &mut self.c2b,
                ack.packet_id,
            ),
            _ => {},
        }
        proof {
            lemma_after_b2c_keeps_wf(old(self)@, packet@);
        }
    }

    fn c2b_insert(&mut self, qos: QoS, packet_id: Option<u16>, packet: &MqttPacket)
        requires
            old(self).wf(),
            packet@.wf(),
            packet@.delivery() matches Delivery::Publish(publish) && publish.qos == qos
                && publish.packet_id == packet_id,
        ensures
            final(self)@ == old(self)@.after_c2b(packet@),
    {
        if qos == QoS::AtMostOnce {
            return;
        }
        match packet_id {
            Some(packet_id) => vec_insert(
                &mut self.c2b,
                WindowEntry {
                    packet_id,
                    state: WindowState::C2BPublishSent,
                    raw: encode_raw(packet),
                },
            ),
            None => {},
        }
    }

    fn b2c_insert(&mut self, qos: QoS, packet_id: Option<u16>, packet: &MqttPacket)
        requires
            old(self).wf(),
            packet@.wf(),
            packet@.delivery() matches Delivery::Publish(publish) && publish.qos == qos
                && publish.packet_id == packet_id,
        ensures
            final(self)@ == old(self)@.after_b2c(packet@),
    {
        if qos == QoS::AtMostOnce {
            return;
        }
        match packet_id {
            Some(packet_id) => vec_insert(
                &mut self.b2c,
                WindowEntry {
                    packet_id,
                    state: WindowState::B2CPublishSent,
                    raw: encode_raw(packet),
                },
            ),
            None => {},
        }
    }

    fn c2b_transition(&mut self, packet_id: u16, state: WindowState, packet: &MqttPacket)
        requires
            old(self).wf(),
            packet@.delivery() == Delivery::Release(packet_id),
            old(self)@.admits_c2b(packet@),
            state == WindowState::C2BPubrelSent,
        ensures
            final(self)@ == old(self)@.after_c2b(packet@),
    {
        if vec_contains(&self.c2b, packet_id) {
            vec_insert(&mut self.c2b, WindowEntry { packet_id, state, raw: encode_raw(packet) });
        }
    }

    fn b2c_transition(&mut self, packet_id: u16, state: WindowState)
        requires
            old(self).wf(),
        ensures
            final(self)@ == (WindowsView {
                b2c: with_state(old(self)@.b2c, packet_id, state),
                ..old(self)@
            }),
    {
        let ghost before = self.b2c@;
        if let Some(entry) = vec_get_mut(&mut self.b2c, packet_id) {
            entry.state = state;
        }
        assert(self@.b2c =~= with_state(entries_view(before), packet_id, state));
    }

    /// Packets to re-send toward the broker on thaw, in the order in which
    /// they were first sent.
    pub fn broker_retransmits(&self) -> (frames: Vec<Vec<u8>>)
        requires
            replayable_entries(self@.c2b),
        ensures
            frames_view(frames@) == self@.broker_retransmits(),
    {
        let mut frames: Vec<Vec<u8>> = Vec::new();
        let mut i: usize = 0;
        while i < self.c2b.len()
            invariant
                i <= self.c2b.len(),
                replayable_entries(self@.c2b),
                frames_view(frames@) == self@.broker_retransmits().take(i as int),
            decreases self.c2b.len() - i,
        {
            let entry = &self.c2b[i];
            assert(self@.c2b[i as int] == entry@);
            let ghost before = frames@;
            if entry.state == WindowState::C2BPublishSent {
                frames.push(with_dup(copy_bytes(&entry.raw)));
            } else {
                frames.push(copy_bytes(&entry.raw));
            }
            assert(frames_view(frames@) =~= frames_view(before).push(broker_retransmit(entry@)));
            assert(frames_view(frames@) =~= self@.broker_retransmits().take(i + 1));
            i = i + 1;
        }
        assert(self@.broker_retransmits().take(i as int) =~= self@.broker_retransmits());
        frames
    }

    /// Packets to re-send toward the client on thaw, in the order in which
    /// they were first sent.
    pub fn client_retransmits(&self) -> (frames: Vec<Vec<u8>>)
        requires
            replayable_entries(self@.b2c),
        ensures
            frames_view(frames@) == self@.client_retransmits(),
    {
        let mut frames: Vec<Vec<u8>> = Vec::new();
        let mut i: usize = 0;
        while i < self.b2c.len()
            invariant
                i <= self.b2c.len(),
                replayable_entries(self@.b2c),
                frames_view(frames@) == client_retransmits_of(self@.b2c.take(i as int)),
            decreases self.b2c.len() - i,
        {
            let entry = &self.b2c[i];
            assert(self@.b2c[i as int] == entry@);
            assert(self@.b2c.take(i + 1).drop_last() =~= self@.b2c.take(i as int));
            let ghost before = frames@;
            if entry.state == WindowState::B2CPublishSent {
                frames.push(with_dup(copy_bytes(&entry.raw)));
                assert(frames_view(frames@) =~= frames_view(before).push(marked_dup(entry.raw@)));
            }
            i = i + 1;
        }
        assert(self@.b2c.take(i as int) =~= self@.b2c);
        frames
    }

    /// Whether nothing is in flight in either direction.
    pub fn is_empty(&self) -> (empty: bool)
        ensures
            empty == (self@ == WindowsView::empty()),
    {
        let empty = self.c2b.is_empty() && self.b2c.is_empty();
        assert(empty == (self@ =~= WindowsView::empty())) by {
            assert(self@.c2b.len() == self.c2b.len());
            assert(self@.b2c.len() == self.b2c.len());
        }
        empty
    }

    /// Serialize into the session snapshot.
    pub fn snapshot(&self) -> (entries: Vec<WindowEntry>)
        ensures
            entries_view(entries@) == self@.snapshot(),
    {
        let mut entries: Vec<WindowEntry> = Vec::new();
        append_entries(&mut entries, &self.c2b);
        append_entries(&mut entries, &self.b2c);
        assert(entries_view(entries@) =~= self@.snapshot());
        entries
    }

    /// Restore from a session snapshot.
    pub fn from_snapshot(entries: Vec<WindowEntry>) -> (windows: Self)
        ensures
            windows.wf(),
            windows@ == WindowsView::from_snapshot(entries_view(entries@)),
            replayable_entries(entries_view(entries@)) ==> windows@.replayable(),
    {
        let ghost all = entries_view(entries@);
        let mut windows = Self::new();
        let mut i: usize = 0;
        assert(all.take(0) =~= Seq::<EntryView>::empty());
        while i < entries.len()
            invariant
                i <= entries.len(),
                all == entries_view(entries@),
                windows.wf(),
                windows@ == WindowsView::from_snapshot(all.take(i as int)),
                replayable_entries(all) ==> windows@.replayable(),
            decreases entries.len() - i,
        {
            let entry = &entries[i];
            assert(all[i as int] == entry@);
            assert(all.take(i + 1).drop_last() =~= all.take(i as int));
            let copy = WindowEntry {
                packet_id: entry.packet_id,
                state: entry.state,
                raw: copy_bytes(&entry.raw),
            };
            let ghost before = windows@;
            match copy.state {
                WindowState::C2BPublishSent | WindowState::C2BPubrelSent => vec_insert(
                    &mut windows.c2b,
                    copy,
                ),
                WindowState::B2CPublishSent | WindowState::B2CPubrecForwarded => vec_insert(
                    &mut windows.b2c,
                    copy,
                ),
            }
            proof {
                assert(copy@ == all[i as int]);
                lemma_with_restored_keeps_wf(before, all[i as int]);
            }
            i = i + 1;
        }
        assert(all.take(i as int) =~= all);
        windows
    }
}

fn append_entries(target: &mut Vec<WindowEntry>, source: &Vec<WindowEntry>)
    ensures
        entries_view(final(target)@) == entries_view(old(target)@) + entries_view(source@),
{
    let ghost before = entries_view(target@);
    let mut i: usize = 0;
    assert(entries_view(target@) =~= before + entries_view(source@).take(0));
    while i < source.len()
        invariant
            i <= source.len(),
            entries_view(target@) == before + entries_view(source@).take(i as int),
        decreases source.len() - i,
    {
        let entry = &source[i];
        let ghost so_far = target@;
        let copy = WindowEntry {
            packet_id: entry.packet_id,
            state: entry.state,
            raw: copy_bytes(&entry.raw),
        };
        assert(copy@ == entry@);
        target.push(copy);
        assert(entries_view(target@) =~= entries_view(so_far).push(entry@));
        assert(entries_view(target@) =~= before + entries_view(source@).take(i + 1));
        i = i + 1;
    }
    assert(entries_view(source@).take(i as int) =~= entries_view(source@));
}

/// Every entry of a window is in a state of the window's direction, and a
/// PUBLISH among them has a frame if `replayable` asks for it.
spec fn entry_ok(entry: EntryView, is_c2b: bool, replayable: bool) -> bool {
    entry.state.is_c2b() == is_c2b && (replayable && entry.state.is_publish_sent()
        ==> entry.raw.len() > 0)
}

spec fn window_ok(window: Seq<EntryView>, is_c2b: bool, replayable: bool) -> bool {
    distinct_ids(window) && forall|i: int|
        0 <= i < window.len() ==> entry_ok(#[trigger] window[i], is_c2b, replayable)
}

proof fn lemma_window_ok(windows: WindowsView, replayable: bool)
    ensures
        windows.wf() && (replayable ==> windows.replayable()) <==> window_ok(
            windows.c2b,
            true,
            replayable,
        ) && window_ok(windows.b2c, false, replayable),
{
    if window_ok(windows.c2b, true, replayable) && window_ok(windows.b2c, false, replayable) {
        assert forall|i: int| 0 <= i < windows.c2b.len() implies entry_ok(
            #[trigger] windows.c2b[i],
            true,
            replayable,
        ) by {}
        assert forall|i: int| 0 <= i < windows.b2c.len() implies entry_ok(
            #[trigger] windows.b2c[i],
            false,
            replayable,
        ) by {}
    }
}

proof fn lemma_with_entry_ok(
    window: Seq<EntryView>,
    entry: EntryView,
    is_c2b: bool,
    replayable: bool,
)
    requires
        window_ok(window, is_c2b, replayable),
        entry_ok(entry, is_c2b, replayable),
    ensures
        window_ok(with_entry(window, entry), is_c2b, replayable),
{
}

proof fn lemma_without_id_ok(window: Seq<EntryView>, id: u16, is_c2b: bool, replayable: bool)
    requires
        window_ok(window, is_c2b, replayable),
    ensures
        window_ok(without_id(window, id), is_c2b, replayable),
{
}

proof fn lemma_pubrec_ok(window: Seq<EntryView>, id: u16, replayable: bool)
    requires
        window_ok(window, false, replayable),
    ensures
        window_ok(with_state(window, id, WindowState::B2CPubrecForwarded), false, replayable),
{
}

proof fn lemma_with_restored_keeps_wf(windows: WindowsView, entry: EntryView)
    requires
        windows.wf(),
    ensures
        windows.with_restored(entry).wf(),
        windows.replayable() && (entry.state.is_publish_sent() ==> entry.raw.len() > 0)
            ==> windows.with_restored(entry).replayable(),
{
    let replayable = windows.replayable() && (entry.state.is_publish_sent() ==> entry.raw.len()
        > 0);
    lemma_window_ok(windows, replayable);
    if entry.state.is_c2b() {
        lemma_with_entry_ok(windows.c2b, entry, true, replayable);
    } else {
        lemma_with_entry_ok(windows.b2c, entry, false, replayable);
    }
    lemma_window_ok(windows.with_restored(entry), replayable);
}

proof fn lemma_frame_is_not_empty(packet: MqttPacketView)
    requires
        packet.delivery() is Publish || packet.delivery() is Release,
    ensures
        packet.frame().len() > 0,
{
}

/// Tracking a client packet keeps the windows in order.
pub proof fn lemma_after_c2b_keeps_wf(windows: WindowsView, packet: MqttPacketView)
    requires
        windows.wf(),
    ensures
        windows.after_c2b(packet).wf(),
        windows.replayable() ==> windows.after_c2b(packet).replayable(),
{
    let replayable = windows.replayable();
    lemma_window_ok(windows, replayable);
    match packet.delivery() {
        Delivery::Publish(publish) => {
            lemma_frame_is_not_empty(packet);
            lemma_with_entry_ok(
                windows.c2b,
                EntryView {
                    packet_id: publish.packet_id->0,
                    state: WindowState::C2BPublishSent,
                    raw: packet.frame(),
                },
                true,
                replayable,
            );
        },
        Delivery::Release(packet_id) => {
            lemma_with_entry_ok(
                windows.c2b,
                EntryView { packet_id, state: WindowState::C2BPubrelSent, raw: packet.frame() },
                true,
                replayable,
            );
        },
        Delivery::Received(packet_id) => {
            lemma_pubrec_ok(windows.b2c, packet_id, replayable);
        },
        Delivery::Ack(packet_id) => {
            lemma_without_id_ok(windows.b2c, packet_id, false, replayable);
        },
        Delivery::Complete(packet_id) => {
            lemma_without_id_ok(windows.b2c, packet_id, false, replayable);
        },
        Delivery::Unrelated => {},
    }
    lemma_window_ok(windows.after_c2b(packet), replayable);
}

/// Tracking a broker packet keeps the windows in order.
pub proof fn lemma_after_b2c_keeps_wf(windows: WindowsView, packet: MqttPacketView)
    requires
        windows.wf(),
    ensures
        windows.after_b2c(packet).wf(),
        windows.replayable() ==> windows.after_b2c(packet).replayable(),
{
    let replayable = windows.replayable();
    lemma_window_ok(windows, replayable);
    match packet.delivery() {
        Delivery::Publish(publish) => {
            lemma_frame_is_not_empty(packet);
            lemma_with_entry_ok(
                windows.b2c,
                EntryView {
                    packet_id: publish.packet_id->0,
                    state: WindowState::B2CPublishSent,
                    raw: packet.frame(),
                },
                false,
                replayable,
            );
        },
        Delivery::Ack(packet_id) => {
            lemma_without_id_ok(windows.c2b, packet_id, true, replayable);
        },
        Delivery::Complete(packet_id) => {
            lemma_without_id_ok(windows.c2b, packet_id, true, replayable);
        },
        _ => {},
    }
    lemma_window_ok(windows.after_b2c(packet), replayable);
}

proof fn lemma_index_of(window: Seq<EntryView>, i: int)
    requires
        distinct_ids(window),
        0 <= i < window.len(),
    ensures
        has_id(window, window[i].packet_id),
        index_of(window, window[i].packet_id) == i,
{
    assert(window[i].packet_id == window[i].packet_id);
    let j = index_of(window, window[i].packet_id);
    assert(0 <= j < window.len() && window[j].packet_id == window[i].packet_id);
}

proof fn lemma_prefix_restored(windows: WindowsView, n: int)
    requires
        windows.wf(),
        0 <= n <= windows.snapshot().len(),
    ensures
        WindowsView::from_snapshot(windows.snapshot().take(n)) == (if n <= windows.c2b.len() {
            WindowsView { c2b: windows.c2b.take(n), b2c: Seq::empty() }
        } else {
            WindowsView { c2b: windows.c2b, b2c: windows.b2c.take(n - windows.c2b.len()) }
        }),
    decreases n,
{
    let all = windows.snapshot();
    let k = windows.c2b.len() as int;
    if n == 0 {
        assert(windows.c2b.take(0) =~= Seq::empty());
    } else {
        lemma_prefix_restored(windows, n - 1);
        assert(all.take(n).drop_last() =~= all.take(n - 1));
        let entry = all[n - 1];
        if n <= k {
            let before = windows.c2b.take(n - 1);
            assert(entry == windows.c2b[n - 1]);
            assert(!has_id(before, entry.packet_id));
            assert(before.push(entry) =~= windows.c2b.take(n));
        } else {
            let before = windows.b2c.take(n - 1 - k);
            assert(entry == windows.b2c[n - 1 - k]);
            assert(!has_id(before, entry.packet_id));
            assert(before.push(entry) =~= windows.b2c.take(n - k));
            assert(windows.c2b.take(k) =~= windows.c2b);
            if n - 1 == k {
                assert(before =~= Seq::empty());
            }
        }
    }
}

/// What is in flight survives a snapshot: restoring it gives back the same
/// entries, in the same order, in the same states.
pub proof fn law_snapshot_round_trip(windows: WindowsView)
    requires
        windows.wf(),
    ensures
        WindowsView::from_snapshot(windows.snapshot()) == windows,
{
    let n = windows.snapshot().len() as int;
    lemma_prefix_restored(windows, n);
    assert(windows.snapshot().take(n) =~= windows.snapshot());
    assert(windows.c2b.take(windows.c2b.len() as int) =~= windows.c2b);
    assert(windows.b2c.take(windows.b2c.len() as int) =~= windows.b2c);
}

/// A QoS0 message is never tracked, in either direction.
pub proof fn law_qos0_is_never_tracked(windows: WindowsView, packet: MqttPacketView)
    requires
        packet.delivery() matches Delivery::Publish(publish) && publish.qos == QoS::AtMostOnce,
    ensures
        windows.after_c2b(packet) == windows,
        windows.after_b2c(packet) == windows,
{
}

/// A message that is retransmitted is the same message with the duplicate flag
/// set; setting the flag again changes nothing.
pub proof fn law_retransmit_is_marked_duplicate(packet: MqttPacketView)
    requires
        packet.delivery() is Publish,
    ensures
        marked_dup(packet.frame()) == packet.marked_dup().frame(),
        marked_dup(marked_dup(packet.frame())) == marked_dup(packet.frame()),
{
    let publish = packet.delivery()->Publish_0;
    let first = publish_first_byte(publish.dup, publish.qos, publish.retain);
    let marked = publish_first_byte(true, publish.qos, publish.retain);
    let again = PublishView { dup: true, ..publish };
    assert(v3_publish_body(again) == v3_publish_body(publish));
    assert(v5_publish_body(again) == v5_publish_body(publish));
    assert(packet.frame()[0] == first);
    assert(0x30 <= first < 0x38 ==> first | DUP_FLAG == first + 8) by (bit_vector);
    assert(0x38 <= first < 0x40 ==> first | DUP_FLAG == first) by (bit_vector);
    assert((first | DUP_FLAG) | DUP_FLAG == first | DUP_FLAG) by (bit_vector);
    assert(first | DUP_FLAG == marked);
    let body = match packet {
        MqttPacketView::V3(_) => v3_publish_body(publish),
        MqttPacketView::V5(_) => v5_publish_body(publish),
    };
    assert(packet.frame() == seq![first] + body);
    assert(packet.marked_dup().frame() == seq![marked] + body);
    assert((seq![first] + body).update(0, marked) =~= seq![marked] + body);
    assert((seq![marked] + body).update(0, marked) =~= seq![marked] + body);
}

proof fn lemma_entry_then_without(window: Seq<EntryView>, entry: EntryView)
    requires
        distinct_ids(window),
    ensures
        without_id(with_entry(window, entry), entry.packet_id) == without_id(
            window,
            entry.packet_id,
        ),
{
    let after = with_entry(window, entry);
    assert(distinct_ids(after));
    if has_id(window, entry.packet_id) {
        let i = index_of(window, entry.packet_id);
        lemma_index_of(after, i);
        assert(after.remove(i) =~= window.remove(i));
    } else {
        lemma_index_of(after, window.len() as int);
        assert(after.remove(window.len() as int) =~= window);
    }
}

proof fn lemma_entry_twice(window: Seq<EntryView>, first: EntryView, second: EntryView)
    requires
        distinct_ids(window),
        first.packet_id == second.packet_id,
    ensures
        has_id(with_entry(window, first), first.packet_id),
        with_entry(with_entry(window, first), second) == with_entry(window, second),
{
    let after = with_entry(window, first);
    assert(distinct_ids(after));
    if has_id(window, first.packet_id) {
        let i = index_of(window, first.packet_id);
        lemma_index_of(after, i);
        assert(after.update(i, second) =~= window.update(i, second));
    } else {
        lemma_index_of(after, window.len() as int);
        assert(after.update(window.len() as int, second) =~= window.push(second));
    }
}

/// A message to the broker leaves the window when the broker ends its
/// delivery; nothing else changes.
pub proof fn law_broker_ack_ends_delivery(
    windows: WindowsView,
    message: MqttPacketView,
    ack: MqttPacketView,
    id: u16,
)
    requires
        windows.wf(),
        message.is_message(id),
        message.qos() != QoS::AtMostOnce,
        ack.delivery() == Delivery::Ack(id) || ack.delivery() == Delivery::Complete(id),
    ensures
        windows.after_c2b(message).after_b2c(ack) == windows.after_b2c(ack),
        !has_id(windows.c2b, id)
            ==> windows.after_c2b(message).after_b2c(ack) == windows,
{
    let entry = EntryView {
        packet_id: id,
        state: WindowState::C2BPublishSent,
        raw: message.frame(),
    };
    lemma_entry_then_without(windows.c2b, entry);
}

/// A message to the client leaves the window when the client ends its
/// delivery; nothing else changes.
pub proof fn law_client_ack_ends_delivery(
    windows: WindowsView,
    message: MqttPacketView,
    ack: MqttPacketView,
    id: u16,
)
    requires
        windows.wf(),
        message.is_message(id),
        message.qos() != QoS::AtMostOnce,
        ack.delivery() == Delivery::Ack(id) || ack.delivery() == Delivery::Complete(id),
    ensures
        windows.after_b2c(message).after_c2b(ack) == windows.after_c2b(ack),
        !has_id(windows.b2c, id)
            ==> windows.after_b2c(message).after_c2b(ack) == windows,
{
    let entry = EntryView {
        packet_id: id,
        state: WindowState::B2CPublishSent,
        raw: message.frame(),
    };
    lemma_entry_then_without(windows.b2c, entry);
}

/// The QoS2 handshake of a client's message, step by step: the broker's PUBREC
/// changes nothing, so the PUBLISH is still what is retransmitted; from the
/// client's PUBREL on, that PUBREL is; the broker's PUBCOMP ends it.
pub proof fn law_qos2_handshake_to_broker(
    windows: WindowsView,
    message: MqttPacketView,
    received: MqttPacketView,
    release: MqttPacketView,
    complete: MqttPacketView,
    id: u16,
)
    requires
        windows.wf(),
        message.is_message(id),
        message.qos() == QoS::ExactlyOnce,
        received.delivery() == Delivery::Received(id),
        release.delivery() == Delivery::Release(id),
        complete.delivery() == Delivery::Complete(id),
    ensures
        ({
            let sent = windows.after_c2b(message);
            let released = sent.after_b2c(received).after_c2b(release);
            &&& has_id(sent.c2b, id)
            &&& broker_retransmit(sent.c2b[index_of(sent.c2b, id)]) == marked_dup(message.frame())
            &&& sent.after_b2c(received) == sent
            &&& has_id(released.c2b, id)
            &&& broker_retransmit(released.c2b[index_of(released.c2b, id)]) == release.frame()
            &&& released.b2c == windows.b2c
            &&& released.c2b.len() == sent.c2b.len()
            &&& released.after_b2c(complete) == windows.after_b2c(complete)
            &&& !has_id(windows.c2b, id) ==> released.after_b2c(complete) == windows
        }),
{
    let first = EntryView {
        packet_id: id,
        state: WindowState::C2BPublishSent,
        raw: message.frame(),
    };
    let second = EntryView {
        packet_id: id,
        state: WindowState::C2BPubrelSent,
        raw: release.frame(),
    };
    lemma_entry_twice(windows.c2b, first, second);
    lemma_entry_twice(windows.c2b, second, second);
    lemma_entry_then_without(windows.c2b, second);
    let sent = windows.after_c2b(message);
    let released = sent.after_c2b(release);
    assert(distinct_ids(sent.c2b));
    assert(distinct_ids(released.c2b));
    let place = if has_id(windows.c2b, id) {
        index_of(windows.c2b, id)
    } else {
        windows.c2b.len() as int
    };
    lemma_index_of(sent.c2b, place);
    lemma_index_of(released.c2b, place);
}

/// Once the client's PUBREC went to the broker, the message is not sent to the
/// client again, though it stays in the window until PUBCOMP.
pub proof fn law_pubrec_stops_retransmission(
    windows: WindowsView,
    message: MqttPacketView,
    received: MqttPacketView,
    id: u16,
)
    requires
        windows.wf(),
        message.is_message(id),
        message.qos() == QoS::ExactlyOnce,
        received.delivery() == Delivery::Received(id),
        !has_id(windows.b2c, id),
    ensures
        ({
            let answered = windows.after_b2c(message).after_c2b(received);
            &&& windows.after_b2c(message).client_retransmits()
                == windows.client_retransmits().push(marked_dup(message.frame()))
            &&& answered.client_retransmits() == windows.client_retransmits()
            &&& has_id(answered.b2c, id)
        }),
{
    let sent = windows.after_b2c(message);
    let answered = sent.after_c2b(received);
    let place = windows.b2c.len() as int;
    assert(distinct_ids(sent.b2c));
    lemma_index_of(sent.b2c, place);
    assert(sent.b2c.drop_last() =~= windows.b2c);
    assert(answered.b2c.drop_last() =~= windows.b2c);
    assert(answered.b2c[place].packet_id == id);
}

/// Messages are retransmitted in the order in which they were first sent: one
/// with a fresh identifier goes behind those already in flight.
pub proof fn law_retransmission_keeps_order(
    windows: WindowsView,
    message: MqttPacketView,
    id: u16,
)
    requires
        windows.wf(),
        message.is_message(id),
        message.qos() != QoS::AtMostOnce,
    ensures
        !has_id(windows.c2b, id) ==> windows.after_c2b(
            message,
        ).broker_retransmits() == windows.broker_retransmits().push(marked_dup(message.frame())),
        !has_id(windows.b2c, id) ==> windows.after_b2c(
            message,
        ).client_retransmits() == windows.client_retransmits().push(marked_dup(message.frame())),
{
    if !has_id(windows.c2b, id) {
        assert(windows.after_c2b(message).broker_retransmits()
            =~= windows.broker_retransmits().push(marked_dup(message.frame())));
    }
    if !has_id(windows.b2c, id) {
        assert(windows.after_b2c(message).b2c.drop_last() =~= windows.b2c);
    }
}

proof fn lemma_ids(window: Seq<EntryView>, entry: EntryView, id: u16)
    requires
        distinct_ids(window),
    ensures
        has_id(window, id) ==> has_id(with_entry(window, entry), id),
        has_id(window, id) ==> has_id(with_state(window, entry.packet_id, entry.state), id),
        has_id(window, id) && id != entry.packet_id ==> has_id(
            without_id(window, entry.packet_id),
            id,
        ),
{
    if has_id(window, id) {
        let i = index_of(window, id);
        assert(window[i].packet_id == id);
        let placed = with_entry(window, entry);
        assert(placed[i].packet_id == id);
        let changed = with_state(window, entry.packet_id, entry.state);
        assert(changed[i].packet_id == id);
        if has_id(window, entry.packet_id) && id != entry.packet_id {
            let k = index_of(window, entry.packet_id);
            let left = window.remove(k);
            if i < k {
                assert(left[i].packet_id == id);
            } else {
                assert(left[i - 1].packet_id == id);
            }
        }
    }
}

/// A message stays in flight until its own delivery is ended: to the broker by
/// the broker's PUBACK or PUBCOMP, to the client by the client's.
pub proof fn law_in_flight_until_acknowledged(
    windows: WindowsView,
    packet: MqttPacketView,
    id: u16,
)
    requires
        windows.wf(),
    ensures
        has_id(windows.c2b, id) ==> has_id(windows.after_c2b(packet).c2b, id),
        has_id(windows.b2c, id) ==> has_id(windows.after_b2c(packet).b2c, id),
        has_id(windows.c2b, id) && !has_id(windows.after_b2c(packet).c2b, id)
            ==> packet.delivery() == Delivery::Ack(id) || packet.delivery() == Delivery::Complete(id),
        has_id(windows.b2c, id) && !has_id(windows.after_c2b(packet).b2c, id)
            ==> packet.delivery() == Delivery::Ack(id) || packet.delivery() == Delivery::Complete(id),
{
    match packet.delivery() {
        Delivery::Publish(publish) => {
            let sent = EntryView {
                packet_id: publish.packet_id->0,
                state: WindowState::C2BPublishSent,
                raw: packet.frame(),
            };
            lemma_ids(windows.c2b, sent, id);
            lemma_ids(
                windows.b2c,
                EntryView { state: WindowState::B2CPublishSent, ..sent },
                id,
            );
        },
        Delivery::Release(packet_id) => {
            lemma_ids(
                windows.c2b,
                EntryView { packet_id, state: WindowState::C2BPubrelSent, raw: packet.frame() },
                id,
            );
        },
        Delivery::Received(packet_id) => {
            lemma_ids(
                windows.b2c,
                EntryView {
                    packet_id,
                    state: WindowState::B2CPubrecForwarded,
                    raw: packet.frame(),
                },
                id,
            );
        },
        Delivery::Ack(packet_id) => {
            let ended = EntryView {
                packet_id,
                state: WindowState::C2BPublishSent,
                raw: packet.frame(),
            };
            lemma_ids(windows.c2b, ended, id);
            lemma_ids(windows.b2c, ended, id);
        },
        Delivery::Complete(packet_id) => {
            let ended = EntryView {
                packet_id,
                state: WindowState::C2BPublishSent,
                raw: packet.frame(),
            };
            lemma_ids(windows.c2b, ended, id);
            lemma_ids(windows.b2c, ended, id);
        },
        Delivery::Unrelated => {},
    }
}

proof fn lemma_filter_all(window: Seq<EntryView>, pred: spec_fn(EntryView) -> bool)
    requires
        forall|i: int| 0 <= i < window.len() ==> pred(#[trigger] window[i]),
    ensures
        window.filter(pred) == window,
    decreases window.len(),
{
    reveal(Seq::filter);
    if window.len() > 0 {
        let head = window.drop_last();
        assert forall|i: int| 0 <= i < head.len() implies pred(#[trigger] head[i]) by {
            assert(head[i] == window[i]);
        }
        lemma_filter_all(head, pred);
        assert(pred(window[window.len() - 1]));
        assert(head.push(window.last()) =~= window);
    }
}

proof fn lemma_without_id_filters(window: Seq<EntryView>, id: u16)
    requires
        distinct_ids(window),
    ensures
        without_id(window, id) == window.filter(|e: EntryView| e.packet_id != id),
    decreases window.len(),
{
    reveal(Seq::filter);
    let others = |e: EntryView| e.packet_id != id;
    if window.len() > 0 {
        let head = window.drop_last();
        let last = window[window.len() - 1];
        assert(forall|i: int| 0 <= i < head.len() ==> #[trigger] head[i] == window[i]);
        if last.packet_id == id {
            lemma_index_of(window, window.len() - 1);
            assert forall|i: int| 0 <= i < head.len() implies others(#[trigger] head[i]) by {
                assert(window[i].packet_id != window[window.len() - 1].packet_id);
            }
            lemma_filter_all(head, others);
            assert(window.remove(window.len() - 1) =~= head);
        } else {
            lemma_without_id_filters(head, id);
            if has_id(window, id) {
                let i = index_of(window, id);
                assert(head[i].packet_id == id);
                lemma_index_of(head, i);
                assert(window.remove(i) =~= head.remove(i).push(last));
            } else {
                assert(!has_id(head, id)) by {
                    if has_id(head, id) {
                        let i = index_of(head, id);
                        assert(window[i].packet_id == id);
                    }
                }
                assert(head.push(last) =~= window);
            }
        }
    }
}

/// When the delivery of one message ends, every other message stays in flight as
/// it is and where it is among the others; the other direction is not touched.
/// What is sent again afterwards is what was to be sent again before, without that
/// message.
pub proof fn law_ending_a_delivery_leaves_the_others(
    windows: WindowsView,
    packet: MqttPacketView,
    id: u16,
)
    requires
        windows.wf(),
        packet.delivery() == Delivery::Ack(id) || packet.delivery() == Delivery::Complete(id),
    ensures
        windows.after_b2c(packet).c2b == windows.c2b.filter(|e: EntryView| e.packet_id != id),
        windows.after_b2c(packet).b2c == windows.b2c,
        windows.after_c2b(packet).b2c == windows.b2c.filter(|e: EntryView| e.packet_id != id),
        windows.after_c2b(packet).c2b == windows.c2b,
        forall|i: int|
            0 <= i < windows.c2b.len() && (#[trigger] windows.c2b[i]).packet_id == id
                ==> windows.after_b2c(packet).broker_retransmits()
                == windows.broker_retransmits().remove(i),
        (forall|i: int| 0 <= i < windows.c2b.len() ==> (#[trigger] windows.c2b[i]).packet_id != id)
            ==> windows.after_b2c(packet) == windows,
        (forall|i: int| 0 <= i < windows.b2c.len() ==> (#[trigger] windows.b2c[i]).packet_id != id)
            ==> windows.after_c2b(packet) == windows,
{
    let others = |e: EntryView| e.packet_id != id;
    lemma_without_id_filters(windows.c2b, id);
    lemma_without_id_filters(windows.b2c, id);
    assert forall|i: int|
        0 <= i < windows.c2b.len() && (#[trigger] windows.c2b[i]).packet_id == id implies
        windows.after_b2c(packet).broker_retransmits() == windows.broker_retransmits().remove(
        i,
    ) by {
        lemma_index_of(windows.c2b, i);
        assert(windows.after_b2c(packet).broker_retransmits()
            =~= windows.broker_retransmits().remove(i));
    }
    if forall|i: int| 0 <= i < windows.c2b.len() ==> (#[trigger] windows.c2b[i]).packet_id != id {
        lemma_filter_all(windows.c2b, others);
    }
    if forall|i: int| 0 <= i < windows.b2c.len() ==> (#[trigger] windows.b2c[i]).packet_id != id {
        lemma_filter_all(windows.b2c, others);
    }
}

/// Whether one entry came into a window: in the place of the one with its
/// identifier, or else behind all others, which stay as they are.
pub open spec fn is_placed(before: Seq<EntryView>, after: Seq<EntryView>, entry: EntryView) -> bool {
    &&& forall|i: int|
        0 <= i < before.len() ==> #[trigger] after[i] == (if before[i].packet_id
            == entry.packet_id {
            entry
        } else {
            before[i]
        })
    &&& if exists|i: int|
        0 <= i < before.len() && (#[trigger] before[i]).packet_id == entry.packet_id {
        after.len() == before.len()
    } else {
        after.len() == before.len() + 1 && after[before.len() as int] == entry
    }
}

proof fn lemma_with_entry_is_placed(window: Seq<EntryView>, entry: EntryView)
    requires
        distinct_ids(window),
    ensures
        is_placed(window, with_entry(window, entry), entry),
{
    if has_id(window, entry.packet_id) {
        let k = index_of(window, entry.packet_id);
        assert(forall|i: int|
            0 <= i < window.len() && i != k ==> (#[trigger] window[i]).packet_id
                != window[k].packet_id);
    }
}

/// A QoS1/2 message is in flight from the moment it is forwarded: as the PUBLISH
/// that it is, in the place of one with its identifier, or else behind all others.
/// Nothing else changes, in either direction.
pub proof fn law_a_message_takes_its_place(windows: WindowsView, message: MqttPacketView, id: u16)
    requires
        windows.wf(),
        message.is_message(id),
        message.qos() != QoS::AtMostOnce,
    ensures
        is_placed(
            windows.c2b,
            windows.after_c2b(message).c2b,
            EntryView {
                packet_id: id,
                state: WindowState::C2BPublishSent,
                raw: message.frame(),
            },
        ),
        windows.after_c2b(message).b2c == windows.b2c,
        is_placed(
            windows.b2c,
            windows.after_b2c(message).b2c,
            EntryView {
                packet_id: id,
                state: WindowState::B2CPublishSent,
                raw: message.frame(),
            },
        ),
        windows.after_b2c(message).c2b == windows.c2b,
{
    let entry = EntryView {
        packet_id: id,
        state: WindowState::C2BPublishSent,
        raw: message.frame(),
    };
    lemma_with_entry_is_placed(windows.c2b, entry);
    lemma_with_entry_is_placed(
        windows.b2c,
        EntryView { state: WindowState::B2CPublishSent, ..entry },
    );
}

/// The middle of a QoS2 delivery: a PUBREL of the client takes the place of the
/// message that it releases, if there is one; a PUBREC of the client marks the
/// message that it answers, and no more than that; the broker's PUBREC and PUBREL,
/// and packets that have no part in a delivery, change nothing.
pub proof fn law_the_middle_of_a_delivery(windows: WindowsView, packet: MqttPacketView, id: u16)
    requires
        windows.wf(),
    ensures
        packet.delivery() == Delivery::Release(id) ==> {
            let after = windows.after_c2b(packet);
            &&& after.b2c == windows.b2c
            &&& after.c2b.len() == windows.c2b.len()
            &&& forall|i: int|
                0 <= i < windows.c2b.len() ==> #[trigger] after.c2b[i] == (
                if windows.c2b[i].packet_id == id {
                    EntryView {
                        packet_id: id,
                        state: WindowState::C2BPubrelSent,
                        raw: packet.frame(),
                    }
                } else {
                    windows.c2b[i]
                })
            &&& windows.after_b2c(packet) == windows
        },
        packet.delivery() == Delivery::Received(id) ==> {
            let after = windows.after_c2b(packet);
            &&& after.c2b == windows.c2b
            &&& after.b2c.len() == windows.b2c.len()
            &&& forall|i: int|
                0 <= i < windows.b2c.len() ==> #[trigger] after.b2c[i] == (
                if windows.b2c[i].packet_id == id {
                    EntryView {
                        packet_id: id,
                        state: WindowState::B2CPubrecForwarded,
                        raw: windows.b2c[i].raw,
                    }
                } else {
                    windows.b2c[i]
                })
            &&& windows.after_b2c(packet) == windows
        },
        packet.delivery() is Unrelated ==> windows.after_c2b(packet) == windows
            && windows.after_b2c(packet) == windows,
{
    if packet.delivery() == Delivery::Release(id) {
        lemma_with_entry_is_placed(
            windows.c2b,
            EntryView { packet_id: id, state: WindowState::C2BPubrelSent, raw: packet.frame() },
        );
        if !has_id(windows.c2b, id) {
            assert(forall|i: int|
                0 <= i < windows.c2b.len() ==> (#[trigger] windows.c2b[i]).packet_id != id);
        }
    }
    if packet.delivery() == Delivery::Received(id) && has_id(windows.b2c, id) {
        let k = index_of(windows.b2c, id);
        assert(forall|i: int|
            0 <= i < windows.b2c.len() && i != k ==> (#[trigger] windows.b2c[i]).packet_id
                != windows.b2c[k].packet_id);
    }
}

/// Everything in flight to the broker is sent to it again, in its order: a PUBLISH
/// with the duplicate flag, bit 3 of its first byte, and a PUBREL as it is. To the
/// client every PUBLISH that it has not answered is sent again, in order and with
/// that flag, and nothing else.
pub proof fn law_what_is_sent_again(windows: WindowsView)
    ensures
        windows.broker_retransmits().len() == windows.c2b.len(),
        forall|i: int|
            0 <= i < windows.c2b.len() ==> ({
                let frame = #[trigger] windows.broker_retransmits()[i];
                let entry = windows.c2b[i];
                &&& entry.state != WindowState::C2BPublishSent ==> frame == entry.raw
                &&& entry.state == WindowState::C2BPublishSent && entry.raw.len() > 0 ==> frame
                    == seq![entry.raw[0] | 0x08u8] + entry.raw.skip(1)
            }),
        windows.client_retransmits().len() == windows.b2c.filter(
            |e: EntryView| e.state == WindowState::B2CPublishSent,
        ).len(),
        forall|i: int|
            0 <= i < windows.client_retransmits().len() ==> ({
                let frame = #[trigger] windows.client_retransmits()[i];
                let entry = windows.b2c.filter(
                    |e: EntryView| e.state == WindowState::B2CPublishSent,
                )[i];
                entry.raw.len() > 0 ==> frame == seq![entry.raw[0] | 0x08u8] + entry.raw.skip(1)
            }),
{
    assert forall|i: int| 0 <= i < windows.c2b.len() implies ({
        let frame = #[trigger] windows.broker_retransmits()[i];
        let entry = windows.c2b[i];
        &&& entry.state != WindowState::C2BPublishSent ==> frame == entry.raw
        &&& entry.state == WindowState::C2BPublishSent && entry.raw.len() > 0 ==> frame == seq![
            entry.raw[0] | 0x08u8,
        ] + entry.raw.skip(1)
    }) by {
        let entry = windows.c2b[i];
        assert(entry.raw.len() > 0 ==> marked_dup(entry.raw) =~= seq![entry.raw[0] | 0x08u8]
            + entry.raw.skip(1));
    }
    lemma_client_retransmits(windows.b2c);
    let sent = |e: EntryView| e.state == WindowState::B2CPublishSent;
    let unanswered = windows.b2c.filter(sent);
    assert forall|i: int| 0 <= i < windows.client_retransmits().len() implies ({
        let frame = #[trigger] windows.client_retransmits()[i];
        let entry = unanswered[i];
        entry.raw.len() > 0 ==> frame == seq![entry.raw[0] | 0x08u8] + entry.raw.skip(1)
    }) by {
        let entry = unanswered[i];
        assert(entry.raw.len() > 0 ==> marked_dup(entry.raw) =~= seq![entry.raw[0] | 0x08u8]
            + entry.raw.skip(1));
    }
}

proof fn lemma_client_retransmits(window: Seq<EntryView>)
    ensures
        client_retransmits_of(window) == window.filter(
            |e: EntryView| e.state == WindowState::B2CPublishSent,
        ).map_values(|e: EntryView| marked_dup(e.raw)),
    decreases window.len(),
{
    reveal(Seq::filter);
    let sent = |e: EntryView| e.state == WindowState::B2CPublishSent;
    let mark = |e: EntryView| marked_dup(e.raw);
    if window.len() > 0 {
        lemma_client_retransmits(window.drop_last());
        assert(window.drop_last().filter(sent).push(window.last()).map_values(mark)
            =~= window.drop_last().filter(sent).map_values(mark).push(mark(window.last())));
    } else {
        assert(window.filter(sent).map_values(mark) =~= Seq::empty());
    }
}

/// A snapshot lists what is in flight to the broker, in order, and behind it what
/// is in flight to the client, in order.
pub proof fn law_a_snapshot_lists_both_directions(windows: WindowsView)
    ensures
        windows.snapshot().len() == windows.c2b.len() + windows.b2c.len(),
        windows.snapshot().take(windows.c2b.len() as int) == windows.c2b,
        windows.snapshot().skip(windows.c2b.len() as int) == windows.b2c,
{
    assert(windows.snapshot().take(windows.c2b.len() as int) =~= windows.c2b);
    assert(windows.snapshot().skip(windows.c2b.len() as int) =~= windows.b2c);
}

/// Whether a state is that of a message on its way to the broker.
spec fn heads_for_broker(state: WindowState) -> bool {
    match state {
        WindowState::C2BPublishSent => true,
        WindowState::C2BPubrelSent => true,
        WindowState::B2CPublishSent => false,
        WindowState::B2CPubrecForwarded => false,
    }
}

/// Each entry of a snapshot goes back into its own direction, in order, as it is:
/// another entry of a snapshot touches nothing but its own place.
pub proof fn law_restoring_sorts_by_direction(entries: Seq<EntryView>, entry: EntryView)
    ensures
        ({
            let before = WindowsView::from_snapshot(entries);
            let after = WindowsView::from_snapshot(entries.push(entry));
            match entry.state {
                WindowState::C2BPublishSent | WindowState::C2BPubrelSent => is_placed(
                    before.c2b,
                    after.c2b,
                    entry,
                ) && after.b2c == before.b2c,
                WindowState::B2CPublishSent | WindowState::B2CPubrecForwarded => is_placed(
                    before.b2c,
                    after.b2c,
                    entry,
                ) && after.c2b == before.c2b,
            }
        }),
        WindowsView::from_snapshot(Seq::empty()) == (WindowsView {
            c2b: Seq::empty(),
            b2c: Seq::empty(),
        }),
{
    assert(entries.push(entry).drop_last() =~= entries);
    lemma_restored_wf(entries);
    let before = WindowsView::from_snapshot(entries);
    if heads_for_broker(entry.state) {
        lemma_with_entry_is_placed(before.c2b, entry);
    } else {
        lemma_with_entry_is_placed(before.b2c, entry);
    }
}

proof fn lemma_restored_wf(entries: Seq<EntryView>)
    ensures
        WindowsView::from_snapshot(entries).wf(),
    decreases entries.len(),
{
    if entries.len() > 0 {
        lemma_restored_wf(entries.drop_last());
        lemma_with_restored_keeps_wf(
            WindowsView::from_snapshot(entries.drop_last()),
            entries.last(),
        );
    }
}

/// Only a packet whose frame has to be kept needs an encoding: a QoS1/2 message,
/// and the PUBREL of a message that is in flight.
pub proof fn law_what_can_be_tracked(windows: WindowsView, packet: MqttPacketView)
    ensures
        packet.encodable() ==> windows.admits_c2b(packet),
        !packet.encodable() ==> (windows.admits_c2b(packet) <==> match packet.delivery() {
            Delivery::Publish(publish) => publish.qos == QoS::AtMostOnce,
            Delivery::Release(id) => forall|i: int|
                0 <= i < windows.c2b.len() ==> (#[trigger] windows.c2b[i]).packet_id != id,
            _ => true,
        }),
{
}

} // verus!
