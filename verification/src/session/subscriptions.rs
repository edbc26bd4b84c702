//! The session's subscription table, tracked from the packet flow and
//! re-issued toward the broker on reconnect or thaw.

use vstd::prelude::*;

use crate::packet::{MqttPacket, MqttPacketView};
use crate::registry::{subscriptions_view, SubscriptionEntry, SubscriptionView};
use crate::types::{ProtocolVersion, QoS};
use crate::v3;
use crate::v5;
use crate::v5::{RetainHandling, SubscriptionOptions};

verus! {

/// Packet identifier of a re-SUBSCRIBE: proxy-internal, unrelated to any
/// client-visible identifier.
pub const RESUBSCRIBE_PACKET_ID: u16 = 1;

/// The session's active subscriptions, oldest first.
#[derive(Debug)]
pub struct Subscriptions(Vec<SubscriptionEntry>);

impl View for Subscriptions {
    type V = Seq<SubscriptionView>;

    closed spec fn view(&self) -> Seq<SubscriptionView> {
        subscriptions_view(self.0@)
    }
}

/// Whether the first entry of a topic filter is at an index.
pub open spec fn is_first(table: Seq<SubscriptionView>, topic_filter: Seq<char>, i: int) -> bool {
    &&& 0 <= i < table.len()
    &&& table[i].topic_filter == topic_filter
    &&& forall|j: int| 0 <= j < i ==> (#[trigger] table[j]).topic_filter != topic_filter
}

/// The table after a subscription: the options of a known topic filter are
/// replaced, a new one goes last.
pub open spec fn upserted(
    table: Seq<SubscriptionView>,
    topic_filter: Seq<char>,
    options: u8,
) -> Seq<SubscriptionView> {
    let entry = SubscriptionView { topic_filter, options };
    if exists|i: int| is_first(table, topic_filter, i) {
        table.update(choose|i: int| is_first(table, topic_filter, i), entry)
    } else {
        table.push(entry)
    }
}

/// The table without a topic filter.
pub open spec fn removed(table: Seq<SubscriptionView>, topic_filter: Seq<char>) -> Seq<
    SubscriptionView,
>
    decreases table.len(),
{
    if table.len() == 0 {
        table
    } else {
        let rest = removed(table.drop_last(), topic_filter);
        if table.last().topic_filter == topic_filter {
            rest
        } else {
            rest.push(table.last())
        }
    }
}

/// The table after several subscriptions, in order.
pub open spec fn all_upserted(
    table: Seq<SubscriptionView>,
    filters: Seq<SubscriptionView>,
) -> Seq<SubscriptionView>
    decreases filters.len(),
{
    if filters.len() == 0 {
        table
    } else {
        let last = filters.last();
        upserted(all_upserted(table, filters.drop_last()), last.topic_filter, last.options)
    }
}

/// The table without several topic filters.
pub open spec fn all_removed(table: Seq<SubscriptionView>, filters: Seq<Seq<char>>) -> Seq<
    SubscriptionView,
>
    decreases filters.len(),
{
    if filters.len() == 0 {
        table
    } else {
        removed(all_removed(table, filters.drop_last()), filters.last())
    }
}

/// The byte that stands for subscription options: QoS in bits 0-1, no_local in
/// bit 2, retain-as-published in bit 3, retain-handling in bits 4-5.
pub open spec fn options_byte(options: SubscriptionOptions) -> u8 {
    (options.qos.level() + (if options.no_local {
        4int
    } else {
        0
    }) + (if options.retain_as_published {
        8int
    } else {
        0
    }) + 16 * options.retain_handling.level()) as u8
}

/// The QoS in a subscription options byte.
pub open spec fn byte_qos(byte: u8) -> QoS {
    match QoS::of_level(byte % 4) {
        Some(qos) => qos,
        None => QoS::AtMostOnce,
    }
}

/// The options that a byte stands for.
pub open spec fn byte_options(byte: u8) -> SubscriptionOptions {
    SubscriptionOptions {
        qos: byte_qos(byte),
        no_local: (byte / 4) % 2 == 1,
        retain_as_published: (byte / 8) % 2 == 1,
        retain_handling: match RetainHandling::of_level(byte / 16) {
            Some(handling) => handling,
            None => RetainHandling::AtSubscribe,
        },
    }
}

/// The subscriptions that a version 3 SUBSCRIBE packet asks for.
pub open spec fn v3_filters(filters: Seq<(Seq<char>, QoS)>) -> Seq<SubscriptionView> {
    filters.map_values(
        |f: (Seq<char>, QoS)| SubscriptionView { topic_filter: f.0, options: f.1.level() },
    )
}

/// The subscriptions that a version 5 SUBSCRIBE packet asks for.
pub open spec fn v5_filters(filters: Seq<(Seq<char>, SubscriptionOptions)>) -> Seq<
    SubscriptionView,
> {
    filters.map_values(
        |f: (Seq<char>, SubscriptionOptions)|
            SubscriptionView { topic_filter: f.0, options: options_byte(f.1) },
    )
}

/// The table after a packet from the client: SUBSCRIBE and UNSUBSCRIBE change
/// it, no other packet does.
pub open spec fn after_packet(
    table: Seq<SubscriptionView>,
    packet: MqttPacketView,
) -> Seq<SubscriptionView> {
    match packet {
        MqttPacketView::V3(v3::PacketView::Subscribe { topic_filters, .. }) => all_upserted(
            table,
            v3_filters(topic_filters),
        ),
        MqttPacketView::V3(v3::PacketView::Unsubscribe { topic_filters, .. }) => all_removed(
            table,
            topic_filters,
        ),
        MqttPacketView::V5(v5::PacketView::Subscribe(subscribe)) => all_upserted(
            table,
            v5_filters(subscribe.topic_filters),
        ),
        MqttPacketView::V5(v5::PacketView::Unsubscribe { topic_filters, .. }) => all_removed(
            table,
            topic_filters,
        ),
        _ => table,
    }
}

/// Whether a client packet may change the table.
pub open spec fn changes_table(packet: MqttPacketView) -> bool {
    match packet {
        MqttPacketView::V3(packet) => packet is Subscribe || packet is Unsubscribe,
        MqttPacketView::V5(packet) => packet is Subscribe || packet is Unsubscribe,
    }
}

/// Whether a client packet may change the table: such a packet has to wait while
/// a broker is being asked for it.
pub fn changes_subscriptions(packet: &MqttPacket) -> (changes: bool)
    ensures
        changes == changes_table(packet@),
{
    match packet {
        MqttPacket::V3(v3::Packet::Subscribe { .. }) => true,
        MqttPacket::V3(v3::Packet::Unsubscribe { .. }) => true,
        MqttPacket::V5(v5::Packet::Subscribe(_)) => true,
        MqttPacket::V5(v5::Packet::Unsubscribe { .. }) => true,
        _ => false,
    }
}

/// The SUBSCRIBE packet that asks a broker for the whole table; none for an
/// empty one.
pub open spec fn resubscribe(table: Seq<SubscriptionView>, version: ProtocolVersion) -> Option<
    MqttPacketView,
> {
    if table.len() == 0 {
        None
    } else {
        Some(
            match version {
                ProtocolVersion::MQTT3 => MqttPacketView::V3(
                    v3::PacketView::Subscribe {
                        packet_id: RESUBSCRIBE_PACKET_ID,
                        topic_filters: table.map_values(
                            |e: SubscriptionView| (e.topic_filter, byte_qos(e.options)),
                        ),
                    },
                ),
                ProtocolVersion::MQTT5 => MqttPacketView::V5(
                    v5::PacketView::Subscribe(
                        v5::SubscribeView {
                            packet_id: RESUBSCRIBE_PACKET_ID,
                            id: None,
                            user_properties: Seq::empty(),
                            topic_filters: table.map_values(
                                |e: SubscriptionView| (e.topic_filter, byte_options(e.options)),
                            ),
                        },
                    ),
                ),
            },
        )
    }
}

fn encode_options(options: SubscriptionOptions) -> (byte: u8)
    ensures
        byte == options_byte(options),
{
    let qos: u8 = options.qos.value();
    let no_local: u8 = if options.no_local {
        1
    } else {
        0
    };
    let retained: u8 = if options.retain_as_published {
        1
    } else {
        0
    };
    let handling: u8 = options.retain_handling.value();
    let byte: u8 = qos | no_local << 2 | retained << 3 | handling << 4;
    assert(byte == qos + 4 * no_local + 8 * retained + 16 * handling) by (bit_vector)
        requires
            byte == qos | no_local << 2 | retained << 3 | handling << 4,
            qos <= 2,
            no_local <= 1,
            retained <= 1,
            handling <= 2,
    ;
    byte
}

fn decode_qos(byte: u8) -> (qos: QoS)
    ensures
        qos == byte_qos(byte),
{
    assert(byte & 0x03 == byte % 4) by (bit_vector);
    match QoS::from_value(byte & 0x03) {
        Some(qos) => qos,
        None => QoS::AtMostOnce,
    }
}

fn decode_options(byte: u8) -> (options: SubscriptionOptions)
    ensures
        options == byte_options(byte),
{
    assert((byte & 0x04 != 0) == ((byte / 4) % 2 == 1)) by (bit_vector);
    assert((byte & 0x08 != 0) == ((byte / 8) % 2 == 1)) by (bit_vector);
    assert(byte >> 4 == byte / 16) by (bit_vector);
    SubscriptionOptions {
        qos: decode_qos(byte),
        no_local: byte & 0x04 != 0,
        retain_as_published: byte & 0x08 != 0,
        retain_handling: match RetainHandling::from_value(byte >> 4) {
            Some(handling) => handling,
            None => RetainHandling::AtSubscribe,
        },
    }
}

impl Subscriptions {
    /// A table without subscriptions.
    pub fn new() -> (table: Self)
        ensures
            table@ == Seq::<SubscriptionView>::empty(),
    {
        let table = Subscriptions(Vec::new());
        assert(table@ =~= Seq::<SubscriptionView>::empty());
        table
    }

    /// The table of a snapshot.
    pub fn from_entries(entries: Vec<SubscriptionEntry>) -> (table: Self)
        ensures
            table@ == subscriptions_view(entries@),
    {
        Subscriptions(entries)
    }

    /// The table for a snapshot.
    pub fn entries(&self) -> (entries: Vec<SubscriptionEntry>)
        ensures
            subscriptions_view(entries@) == self@,
    {
        let mut entries: Vec<SubscriptionEntry> = Vec::new();
        let mut i: usize = 0;
        while i < self.0.len()
            invariant
                i <= self.0.len(),
                subscriptions_view(entries@) == self@.take(i as int),
            decreases self.0.len() - i,
        {
            let ghost before = entries@;
            let entry = &self.0[i];
            assert(self@[i as int] == entry@);
            entries.push(
                SubscriptionEntry {
                    topic_filter: entry.topic_filter.clone(),
                    options: entry.options,
                },
            );
            assert(subscriptions_view(entries@) =~= subscriptions_view(before).push(entry@));
            assert(subscriptions_view(entries@) =~= self@.take(i + 1));
            i = i + 1;
        }
        assert(self@.take(i as int) =~= self@);
        entries
    }

    /// Whether the client has no subscription.
    pub fn is_empty(&self) -> (empty: bool)
        ensures
            empty == (self@.len() == 0),
    {
        self.0.is_empty()
    }

    /// Record a subscription; re-subscribing replaces the options.
    pub fn upsert(&mut self, topic_filter: &String, options: u8)
        ensures
            final(self)@ == upserted(old(self)@, topic_filter@, options),
    {
        let ghost before = self@;
        let mut i: usize = 0;
        while i < self.0.len()
            invariant
                i <= self.0.len(),
                self@ == before,
                before == old(self)@,
                forall|j: int| 0 <= j < i ==> (#[trigger] before[j]).topic_filter != topic_filter@,
            decreases self.0.len() - i,
        {
            assert(before[i as int] == self.0@[i as int]@);
            if self.0[i].topic_filter == *topic_filter {
                proof {
                    assert(is_first(before, topic_filter@, i as int));
                    lemma_first_is_unique(before, topic_filter@, i as int);
                }
                self.0[i].options = options;
                assert(self@ =~= before.update(
                    i as int,
                    SubscriptionView { topic_filter: topic_filter@, options },
                ));
                return ;
            }
            i = i + 1;
        }
        assert(forall|j: int| !is_first(before, topic_filter@, j));
        self.0.push(SubscriptionEntry { topic_filter: topic_filter.clone(), options });
        assert(self@ =~= before.push(SubscriptionView { topic_filter: topic_filter@, options }));
    }

    /// Forget a subscription.
    pub fn remove(&mut self, topic_filter: &String)
        ensures
            final(self)@ == removed(old(self)@, topic_filter@),
    {
        let ghost before = self@;
        let mut kept: Vec<SubscriptionEntry> = Vec::new();
        let mut i: usize = 0;
        assert(before.take(0) =~= Seq::empty());
        while i < self.0.len()
            invariant
                i <= self.0.len(),
                self@ == before,
                subscriptions_view(kept@) == removed(before.take(i as int), topic_filter@),
            decreases self.0.len() - i,
        {
            let entry = &self.0[i];
            assert(before[i as int] == entry@);
            assert(before.take(i + 1).drop_last() =~= before.take(i as int));
            if entry.topic_filter != *topic_filter {
                let ghost so_far = kept@;
                kept.push(
                    SubscriptionEntry {
                        topic_filter: entry.topic_filter.clone(),
                        options: entry.options,
                    },
                );
                assert(subscriptions_view(kept@) =~= subscriptions_view(so_far).push(entry@));
            }
            i = i + 1;
        }
        assert(before.take(i as int) =~= before);
        self.0 = kept;
    }

    fn remove_all(&mut self, filters: &Vec<String>)
        ensures
            final(self)@ == all_removed(old(self)@, filters@.map_values(|f: String| f@)),
    {
        let ghost before = self@;
        let ghost all = filters@.map_values(|f: String| f@);
        let mut i: usize = 0;
        assert(all.take(0) =~= Seq::empty());
        while i < filters.len()
            invariant
                i <= filters.len(),
                all == filters@.map_values(|f: String| f@),
                self@ == all_removed(before, all.take(i as int)),
            decreases filters.len() - i,
        {
            assert(all.take(i + 1).drop_last() =~= all.take(i as int));
            self.remove(&filters[i]);
            i = i + 1;
        }
        assert(all.take(i as int) =~= all);
    }

    /// Track a client→broker packet.
    pub fn track(&mut self, packet: &MqttPacket)
        ensures
            final(self)@ == after_packet(old(self)@, packet@),
    {
        let ghost before = self@;
        match packet {
            MqttPacket::V3(v3::Packet::Subscribe { topic_filters, .. }) => {
                let ghost all = v3_filters(
                    topic_filters@.map_values(|f: (String, QoS)| (f.0@, f.1)),
                );
                let mut i: usize = 0;
                assert(all.take(0) =~= Seq::empty());
                while i < topic_filters.len()
                    invariant
                        i <= topic_filters.len(),
                        all == v3_filters(
                            topic_filters@.map_values(|f: (String, QoS)| (f.0@, f.1)),
                        ),
                        self@ == all_upserted(before, all.take(i as int)),
                    decreases topic_filters.len() - i,
                {
                    assert(all.take(i + 1).drop_last() =~= all.take(i as int));
                    let filter = &topic_filters[i];
                    self.upsert(&filter.0, filter.1.value());
                    i = i + 1;
                }
                assert(all.take(i as int) =~= all);
            },
            MqttPacket::V3(v3::Packet::Unsubscribe { topic_filters, .. }) => self.remove_all(
                topic_filters,
            ),
            MqttPacket::V5(v5::Packet::Subscribe(subscribe)) => {
                let ghost all = v5_filters(subscribe@.topic_filters);
                let mut i: usize = 0;
                assert(all.take(0) =~= Seq::empty());
                while i < subscribe.topic_filters.len()
                    invariant
                        i <= subscribe.topic_filters.len(),
                        all == v5_filters(subscribe@.topic_filters),
                        self@ == all_upserted(before, all.take(i as int)),
                    decreases subscribe.topic_filters.len() - i,
                {
                    assert(all.take(i + 1).drop_last() =~= all.take(i as int));
                    let filter = &subscribe.topic_filters[i];
                    self.upsert(&filter.0, encode_options(filter.1));
                    i = i + 1;
                }
                assert(all.take(i as int) =~= all);
            },
            MqttPacket::V5(v5::Packet::Unsubscribe { topic_filters, .. }) => self.remove_all(
                topic_filters,
            ),
            _ => {},
        }
    }

    /// Build the re-SUBSCRIBE packet for thaw, or None if there are no
    /// subscriptions.
    pub fn resubscribe_packet(&self, version: ProtocolVersion) -> (packet: Option<MqttPacket>)
        ensures
            match packet {
                Some(packet) => resubscribe(self@, version) == Some(packet@),
                None => resubscribe(self@, version) is None,
            },
    {
        if self.0.is_empty() {
            return None;
        }
        let packet = match version {
            ProtocolVersion::MQTT3 => {
                let mut topic_filters: Vec<(String, QoS)> = Vec::new();
                let mut i: usize = 0;
                while i < self.0.len()
                    invariant
                        i <= self.0.len(),
                        topic_filters.len() == i,
                        forall|j: int|
                            0 <= j < i ==> (#[trigger] topic_filters@[j]).0@
                                == self@[j].topic_filter && topic_filters@[j].1 == byte_qos(
                                self@[j].options,
                            ),
                    decreases self.0.len() - i,
                {
                    let entry = &self.0[i];
                    assert(self@[i as int] == entry@);
                    topic_filters.push((entry.topic_filter.clone(), decode_qos(entry.options)));
                    i = i + 1;
                }
                MqttPacket::V3(
                    v3::Packet::Subscribe { packet_id: RESUBSCRIBE_PACKET_ID, topic_filters },
                )
            },
            ProtocolVersion::MQTT5 => {
                let mut topic_filters: Vec<(String, SubscriptionOptions)> = Vec::new();
                let mut i: usize = 0;
                while i < self.0.len()
                    invariant
                        i <= self.0.len(),
                        topic_filters.len() == i,
                        forall|j: int|
                            0 <= j < i ==> (#[trigger] topic_filters@[j]).0@
                                == self@[j].topic_filter && topic_filters@[j].1 == byte_options(
                                self@[j].options,
                            ),
                    decreases self.0.len() - i,
                {
                    let entry = &self.0[i];
                    assert(self@[i as int] == entry@);
                    topic_filters.push((entry.topic_filter.clone(), decode_options(entry.options)));
                    i = i + 1;
                }
                MqttPacket::V5(
                    v5::Packet::Subscribe(
                        v5::Subscribe {
                            packet_id: RESUBSCRIBE_PACKET_ID,
                            id: None,
                            user_properties: Vec::new(),
                            topic_filters,
                        },
                    ),
                )
            },
        };
        assert(packet@ =~~= resubscribe(self@, version)->0);
        Some(packet)
    }
}

proof fn lemma_first_is_unique(table: Seq<SubscriptionView>, topic_filter: Seq<char>, i: int)
    requires
        is_first(table, topic_filter, i),
    ensures
        forall|j: int| is_first(table, topic_filter, j) ==> i == j,
{
}

/// The byte kept for a subscription stands for its options and no others.
pub proof fn law_options_round_trip(options: SubscriptionOptions)
    ensures
        byte_options(options_byte(options)) == options,
        byte_qos(options_byte(options)) == options.qos,
        byte_qos(options.qos.level()) == options.qos,
{
}

/// No topic filter is listed twice, and every options byte stands for options
/// of the protocol version.
pub open spec fn table_ok(table: Seq<SubscriptionView>, version: ProtocolVersion) -> bool {
    &&& forall|i: int, j: int|
        0 <= i < j < table.len() ==> (#[trigger] table[i]).topic_filter != (
        #[trigger] table[j]).topic_filter
    &&& forall|i: int| 0 <= i < table.len() ==> byte_ok((#[trigger] table[i]).options, version)
}

/// The byte stands for options of the protocol version.
pub open spec fn byte_ok(byte: u8, version: ProtocolVersion) -> bool {
    match version {
        ProtocolVersion::MQTT3 => byte == byte_qos(byte).level(),
        ProtocolVersion::MQTT5 => byte == options_byte(byte_options(byte)),
    }
}

proof fn lemma_upserted_ok(
    table: Seq<SubscriptionView>,
    entry: SubscriptionView,
    version: ProtocolVersion,
)
    requires
        table_ok(table, version),
        byte_ok(entry.options, version),
    ensures
        table_ok(upserted(table, entry.topic_filter, entry.options), version),
{
    let topic_filter = entry.topic_filter;
    if !exists|i: int| is_first(table, topic_filter, i) {
        assert forall|i: int| 0 <= i < table.len() implies (#[trigger] table[i]).topic_filter
            != topic_filter by {
            lemma_no_first(table, topic_filter, i);
        }
    }
}

proof fn lemma_no_first(table: Seq<SubscriptionView>, topic_filter: Seq<char>, i: int)
    requires
        0 <= i < table.len(),
        !exists|j: int| is_first(table, topic_filter, j),
    ensures
        table[i].topic_filter != topic_filter,
    decreases i,
{
    if table[i].topic_filter == topic_filter {
        assert forall|j: int| 0 <= j < i implies (#[trigger] table[j]).topic_filter
            != topic_filter by {
            lemma_no_first(table, topic_filter, j);
        }
        assert(is_first(table, topic_filter, i));
    }
}

proof fn lemma_all_upserted_ok(
    table: Seq<SubscriptionView>,
    filters: Seq<SubscriptionView>,
    version: ProtocolVersion,
)
    requires
        table_ok(table, version),
        forall|i: int| 0 <= i < filters.len() ==> byte_ok((#[trigger] filters[i]).options, version),
    ensures
        table_ok(all_upserted(table, filters), version),
    decreases filters.len(),
{
    if filters.len() > 0 {
        lemma_all_upserted_ok(table, filters.drop_last(), version);
        lemma_upserted_ok(
            all_upserted(table, filters.drop_last()),
            filters[filters.len() - 1],
            version,
        );
    }
}

proof fn lemma_removed_elements(table: Seq<SubscriptionView>, topic_filter: Seq<char>)
    ensures
        forall|i: int|
            0 <= i < removed(table, topic_filter).len() ==> (#[trigger] removed(
                table,
                topic_filter,
            )[i]).topic_filter != topic_filter && table.contains(removed(table, topic_filter)[i]),
    decreases table.len(),
{
    if table.len() > 0 {
        let head = table.drop_last();
        lemma_removed_elements(head, topic_filter);
        let after = removed(table, topic_filter);
        assert forall|i: int| 0 <= i < after.len() implies (#[trigger] after[i]).topic_filter
            != topic_filter && table.contains(after[i]) by {
            let rest = removed(head, topic_filter);
            if i < rest.len() {
                assert(after[i] == rest[i]);
                let j = choose|j: int| 0 <= j < head.len() && head[j] == rest[i];
                assert(table[j] == after[i]);
            } else {
                assert(after[i] == table[table.len() - 1]);
            }
        }
    }
}

proof fn lemma_removed_ok(
    table: Seq<SubscriptionView>,
    topic_filter: Seq<char>,
    version: ProtocolVersion,
)
    requires
        table_ok(table, version),
    ensures
        table_ok(removed(table, topic_filter), version),
    decreases table.len(),
{
    if table.len() > 0 {
        let head = table.drop_last();
        lemma_removed_ok(head, topic_filter, version);
        lemma_removed_elements(head, topic_filter);
        let rest = removed(head, topic_filter);
        let last = table[table.len() - 1];
        assert forall|i: int| 0 <= i < rest.len() implies (#[trigger] rest[i]).topic_filter
            != last.topic_filter by {
            let j = choose|j: int| 0 <= j < head.len() && head[j] == rest[i];
            assert(table[j] == rest[i]);
        }
    }
}

proof fn lemma_all_removed_ok(
    table: Seq<SubscriptionView>,
    filters: Seq<Seq<char>>,
    version: ProtocolVersion,
)
    requires
        table_ok(table, version),
    ensures
        table_ok(all_removed(table, filters), version),
    decreases filters.len(),
{
    if filters.len() > 0 {
        lemma_all_removed_ok(table, filters.drop_last(), version);
        lemma_removed_ok(all_removed(table, filters.drop_last()), filters.last(), version);
    }
}

/// No packet of the session's version lists a topic filter twice or leaves a
/// byte that stands for no options.
pub proof fn law_tracking_keeps_table_ok(
    table: Seq<SubscriptionView>,
    packet: MqttPacketView,
)
    requires
        table_ok(table, packet.version()),
    ensures
        table_ok(after_packet(table, packet), packet.version()),
{
    match packet {
        MqttPacketView::V3(v3::PacketView::Subscribe { topic_filters, .. }) => {
            lemma_all_upserted_ok(table, v3_filters(topic_filters), packet.version());
        },
        MqttPacketView::V3(v3::PacketView::Unsubscribe { topic_filters, .. }) => {
            lemma_all_removed_ok(table, topic_filters, packet.version());
        },
        MqttPacketView::V5(v5::PacketView::Subscribe(subscribe)) => {
            let filters = v5_filters(subscribe.topic_filters);
            assert forall|i: int| 0 <= i < filters.len() implies byte_ok(
                (#[trigger] filters[i]).options,
                ProtocolVersion::MQTT5,
            ) by {
                law_options_round_trip(subscribe.topic_filters[i].1);
            }
            lemma_all_upserted_ok(table, filters, packet.version());
        },
        MqttPacketView::V5(v5::PacketView::Unsubscribe { topic_filters, .. }) => {
            lemma_all_removed_ok(table, topic_filters, packet.version());
        },
        _ => {},
    }
}

proof fn lemma_distinct_upserts(table: Seq<SubscriptionView>, version: ProtocolVersion)
    requires
        table_ok(table, version),
    ensures
        all_upserted(Seq::empty(), table) == table,
    decreases table.len(),
{
    if table.len() > 0 {
        let head = table.drop_last();
        lemma_distinct_upserts(head, version);
        let last = table[table.len() - 1];
        assert(forall|i: int| !is_first(head, last.topic_filter, i));
        assert(head.push(last) =~= table);
    }
}

/// A broker that had forgotten everything knows every subscription again,
/// with its options and in its place, after the re-SUBSCRIBE packet.
pub proof fn law_resubscribe_restores_table(
    table: Seq<SubscriptionView>,
    version: ProtocolVersion,
)
    requires
        table_ok(table, version),
        table.len() > 0,
    ensures
        resubscribe(table, version) matches Some(packet) && after_packet(Seq::empty(), packet)
            == table,
{
    lemma_distinct_upserts(table, version);
    let packet = resubscribe(table, version)->0;
    match packet {
        MqttPacketView::V3(v3::PacketView::Subscribe { topic_filters, .. }) => {
            assert(v3_filters(topic_filters) =~= table);
        },
        MqttPacketView::V5(v5::PacketView::Subscribe(subscribe)) => {
            assert(v5_filters(subscribe.topic_filters) =~= table);
        },
        _ => {},
    }
}

/// Subscribing to a topic filter again replaces its options in place, and
/// unsubscribing forgets it.
pub proof fn law_last_subscription_counts(
    table: Seq<SubscriptionView>,
    topic_filter: Seq<char>,
    first: u8,
    second: u8,
)
    ensures
        upserted(upserted(table, topic_filter, first), topic_filter, second) == upserted(
            table,
            topic_filter,
            second,
        ),
        removed(upserted(table, topic_filter, first), topic_filter) == removed(
            table,
            topic_filter,
        ),
        forall|i: int|
            0 <= i < removed(table, topic_filter).len() ==> (#[trigger] removed(
                table,
                topic_filter,
            )[i]).topic_filter != topic_filter,
{
    let after = upserted(table, topic_filter, first);
    lemma_removed_elements(table, topic_filter);
    if exists|i: int| is_first(table, topic_filter, i) {
        let i = choose|i: int| is_first(table, topic_filter, i);
        assert(is_first(after, topic_filter, i));
        lemma_first_is_unique(after, topic_filter, i);
        assert(after.update(i, SubscriptionView { topic_filter, options: second })
            =~= table.update(i, SubscriptionView { topic_filter, options: second }));
        lemma_removed_after_update(table, i, first);
    } else {
        let n = table.len() as int;
        assert forall|i: int| 0 <= i < n implies (#[trigger] table[i]).topic_filter
            != topic_filter by {
            lemma_no_first(table, topic_filter, i);
        }
        assert(is_first(after, topic_filter, n));
        lemma_first_is_unique(after, topic_filter, n);
        assert(after.update(n, SubscriptionView { topic_filter, options: second })
            =~= table.push(SubscriptionView { topic_filter, options: second }));
        assert(after.drop_last() =~= table);
    }
}

proof fn lemma_removed_after_update(table: Seq<SubscriptionView>, i: int, options: u8)
    requires
        0 <= i < table.len(),
    ensures
        removed(
            table.update(i, SubscriptionView { topic_filter: table[i].topic_filter, options }),
            table[i].topic_filter,
        ) == removed(table, table[i].topic_filter),
    decreases table.len(),
{
    let entry = SubscriptionView { topic_filter: table[i].topic_filter, options };
    let after = table.update(i, entry);
    if i < table.len() - 1 {
        lemma_removed_after_update(table.drop_last(), i, options);
        assert(after.drop_last() =~= table.drop_last().update(i, entry));
    } else {
        assert(after.drop_last() =~= table.drop_last());
    }
}

/// No topic filter is listed twice.
pub open spec fn distinct_filters(table: Seq<SubscriptionView>) -> bool {
    forall|i: int, j: int|
        0 <= i < j < table.len() ==> (#[trigger] table[i]).topic_filter != (
        #[trigger] table[j]).topic_filter
}

/// Whether one subscription came into a table: in the place of the one with its
/// topic filter, or else behind all others, which stay as they are.
pub open spec fn is_entered(
    before: Seq<SubscriptionView>,
    after: Seq<SubscriptionView>,
    entry: SubscriptionView,
) -> bool {
    &&& forall|i: int|
        0 <= i < before.len() ==> #[trigger] after[i] == (if before[i].topic_filter
            == entry.topic_filter {
            entry
        } else {
            before[i]
        })
    &&& if exists|i: int|
        0 <= i < before.len() && (#[trigger] before[i]).topic_filter == entry.topic_filter {
        after.len() == before.len()
    } else {
        after.len() == before.len() + 1 && after[before.len() as int] == entry
    }
}

proof fn lemma_upserted_is_entered(table: Seq<SubscriptionView>, entry: SubscriptionView)
    requires
        distinct_filters(table),
    ensures
        is_entered(table, upserted(table, entry.topic_filter, entry.options), entry),
        distinct_filters(upserted(table, entry.topic_filter, entry.options)),
{
    let topic_filter = entry.topic_filter;
    if exists|i: int| is_first(table, topic_filter, i) {
        let k = choose|i: int| is_first(table, topic_filter, i);
        assert(table[k].topic_filter == topic_filter);
        assert(forall|i: int|
            0 <= i < table.len() && i != k ==> (#[trigger] table[i]).topic_filter
                != table[k].topic_filter);
    } else {
        assert forall|i: int| 0 <= i < table.len() implies (#[trigger] table[i]).topic_filter
            != topic_filter by {
            lemma_no_first(table, topic_filter, i);
        }
    }
}

/// The SUBSCRIBE packet of version 3 for some topic filters.
pub open spec fn v3_subscribe(packet_id: u16, topic_filters: Seq<(Seq<char>, QoS)>) -> MqttPacketView {
    MqttPacketView::V3(v3::PacketView::Subscribe { packet_id, topic_filters })
}

/// The SUBSCRIBE packet of version 5 for some topic filters.
pub open spec fn v5_subscribe(
    packet_id: u16,
    id: Option<u32>,
    user_properties: Seq<(Seq<char>, Seq<char>)>,
    topic_filters: Seq<(Seq<char>, SubscriptionOptions)>,
) -> MqttPacketView {
    MqttPacketView::V5(
        v5::PacketView::Subscribe(
            v5::SubscribeView { packet_id, id, user_properties, topic_filters },
        ),
    )
}

/// What is kept of the options of a version 5 subscription: the QoS in the two low
/// bits, then one bit each for no-local and retain-as-published, then two for the
/// handling of retained messages, and nothing above.
pub proof fn law_options_are_kept_bit_by_bit(options: SubscriptionOptions)
    ensures
        ({
            let byte = options_byte(options);
            &&& byte < 64
            &&& byte % 4 == (match options.qos {
                QoS::AtMostOnce => 0int,
                QoS::AtLeastOnce => 1,
                QoS::ExactlyOnce => 2,
            })
            &&& (byte / 4) % 2 == 1 <==> options.no_local
            &&& (byte / 8) % 2 == 1 <==> options.retain_as_published
            &&& byte / 16 == (match options.retain_handling {
                RetainHandling::AtSubscribe => 0int,
                RetainHandling::AtSubscribeNew => 1,
                RetainHandling::NoAtSubscribe => 2,
            })
        }),
{
}

/// A SUBSCRIBE packet for one more topic filter enters that one behind all that the
/// packet without it enters: with its QoS in version 3, with its options in
/// version 5. One for no topic filter enters nothing.
pub proof fn law_subscribing_enters_each_filter(
    table: Seq<SubscriptionView>,
    packet_id: u16,
    id: Option<u32>,
    user_properties: Seq<(Seq<char>, Seq<char>)>,
    v3_topics: Seq<(Seq<char>, QoS)>,
    v3_topic: (Seq<char>, QoS),
    v5_topics: Seq<(Seq<char>, SubscriptionOptions)>,
    v5_topic: (Seq<char>, SubscriptionOptions),
)
    requires
        distinct_filters(table),
    ensures
        after_packet(table, v3_subscribe(packet_id, Seq::empty())) == table,
        after_packet(table, v5_subscribe(packet_id, id, user_properties, Seq::empty())) == table,
        is_entered(
            after_packet(table, v3_subscribe(packet_id, v3_topics)),
            after_packet(table, v3_subscribe(packet_id, v3_topics.push(v3_topic))),
            SubscriptionView { topic_filter: v3_topic.0, options: v3_topic.1.level() },
        ),
        is_entered(
            after_packet(table, v5_subscribe(packet_id, id, user_properties, v5_topics)),
            after_packet(
                table,
                v5_subscribe(packet_id, id, user_properties, v5_topics.push(v5_topic)),
            ),
            SubscriptionView { topic_filter: v5_topic.0, options: options_byte(v5_topic.1) },
        ),
{
    lemma_all_upserted(table, v3_filters(v3_topics));
    lemma_all_upserted(table, v5_filters(v5_topics));
    assert(v3_filters(v3_topics.push(v3_topic)).drop_last() =~= v3_filters(v3_topics));
    assert(v5_filters(v5_topics.push(v5_topic)).drop_last() =~= v5_filters(v5_topics));
    lemma_upserted_is_entered(
        all_upserted(table, v3_filters(v3_topics)),
        v3_filters(v3_topics.push(v3_topic)).last(),
    );
    lemma_upserted_is_entered(
        all_upserted(table, v5_filters(v5_topics)),
        v5_filters(v5_topics.push(v5_topic)).last(),
    );
}

/// Whether a table is another with some subscriptions made: each of them is there,
/// as it was asked for last; those of other topic filters are as they were; none
/// left its place, and none came from nowhere.
pub open spec fn has_subscribed(
    before: Seq<SubscriptionView>,
    after: Seq<SubscriptionView>,
    asked: Seq<SubscriptionView>,
) -> bool {
    &&& before.len() <= after.len()
    &&& forall|i: int|
        0 <= i < before.len() ==> (#[trigger] after[i]).topic_filter == before[i].topic_filter
    &&& forall|i: int|
        0 <= i < before.len() ==> #[trigger] after[i] == before[i] || exists|k: int|
            0 <= k < asked.len() && (#[trigger] asked[k]).topic_filter == before[i].topic_filter
    &&& forall|k: int|
        0 <= k < asked.len() && (forall|j: int|
            k < j < asked.len() ==> (#[trigger] asked[j]).topic_filter != asked[k].topic_filter)
            ==> after.contains(#[trigger] asked[k])
    &&& forall|i: int|
        before.len() <= i < after.len() ==> exists|k: int|
            0 <= k < asked.len() && #[trigger] asked[k] == #[trigger] after[i]
    &&& distinct_filters(after)
}

proof fn lemma_all_upserted(table: Seq<SubscriptionView>, asked: Seq<SubscriptionView>)
    requires
        distinct_filters(table),
    ensures
        has_subscribed(table, all_upserted(table, asked), asked),
        distinct_filters(all_upserted(table, asked)),
    decreases asked.len(),
{
    if asked.len() > 0 {
        let head = asked.drop_last();
        let last = asked[asked.len() - 1];
        lemma_all_upserted(table, head);
        let before = all_upserted(table, head);
        let after = all_upserted(table, asked);
        lemma_upserted_is_entered(before, last);
        assert(forall|k: int| 0 <= k < head.len() ==> #[trigger] head[k] == asked[k]);
        assert forall|i: int| 0 <= i < table.len() implies #[trigger] after[i] == table[i]
            || exists|k: int|
            0 <= k < asked.len() && (#[trigger] asked[k]).topic_filter == table[i].topic_filter by {
            if after[i] != table[i] {
                if before[i] != table[i] {
                    let k = choose|k: int|
                        0 <= k < head.len() && (#[trigger] head[k]).topic_filter
                            == table[i].topic_filter;
                    assert(asked[k].topic_filter == table[i].topic_filter);
                } else {
                    assert(asked[asked.len() - 1].topic_filter == table[i].topic_filter);
                }
            }
        }
        assert forall|k: int|
            0 <= k < asked.len() && (forall|j: int|
                k < j < asked.len() ==> (#[trigger] asked[j]).topic_filter
                    != asked[k].topic_filter) implies after.contains(#[trigger] asked[k]) by {
            if k < head.len() {
                assert(asked[asked.len() - 1].topic_filter != asked[k].topic_filter);
                assert(head[k] == asked[k]);
                assert forall|j: int| k < j < head.len() implies (#[trigger] head[j]).topic_filter
                    != head[k].topic_filter by {
                    assert(asked[j].topic_filter != asked[k].topic_filter);
                }
                assert(before.contains(head[k]));
                let i = choose|i: int| 0 <= i < before.len() && before[i] == head[k];
                assert(after[i] == asked[k]);
            } else if exists|i: int|
                0 <= i < before.len() && (#[trigger] before[i]).topic_filter == last.topic_filter {
                let i = choose|i: int|
                    0 <= i < before.len() && (#[trigger] before[i]).topic_filter
                        == last.topic_filter;
                assert(after[i] == last);
            } else {
                assert(after[before.len() as int] == last);
            }
        }
        assert forall|i: int| table.len() <= i < after.len() implies exists|k: int|
            0 <= k < asked.len() && #[trigger] asked[k] == #[trigger] after[i] by {
            if i < before.len() && before[i].topic_filter != last.topic_filter {
                let k = choose|k: int| 0 <= k < head.len() && #[trigger] head[k] == before[i];
                assert(asked[k] == after[i]);
            } else {
                assert(asked[asked.len() - 1] == after[i]);
            }
        }
    }
}

/// After a SUBSCRIBE packet of either version each of its topic filters is in the
/// table, with the QoS or the options that it asks for last, and nothing else has
/// changed.
pub proof fn law_subscribe_is_recorded(table: Seq<SubscriptionView>, packet: MqttPacketView)
    requires
        distinct_filters(table),
    ensures
        packet matches MqttPacketView::V3(v3::PacketView::Subscribe { topic_filters, .. })
            ==> has_subscribed(
            table,
            after_packet(table, packet),
            topic_filters.map_values(
                |f: (Seq<char>, QoS)|
                    SubscriptionView {
                        topic_filter: f.0,
                        options: match f.1 {
                            QoS::AtMostOnce => 0u8,
                            QoS::AtLeastOnce => 1u8,
                            QoS::ExactlyOnce => 2u8,
                        },
                    },
            ),
        ),
        packet matches MqttPacketView::V5(v5::PacketView::Subscribe(subscribe)) ==> has_subscribed(
            table,
            after_packet(table, packet),
            subscribe.topic_filters.map_values(
                |f: (Seq<char>, SubscriptionOptions)|
                    SubscriptionView { topic_filter: f.0, options: options_byte(f.1) },
            ),
        ),
{
    match packet {
        MqttPacketView::V3(v3::PacketView::Subscribe { topic_filters, .. }) => {
            lemma_all_upserted(table, v3_filters(topic_filters));
            assert(v3_filters(topic_filters) =~= topic_filters.map_values(
                |f: (Seq<char>, QoS)|
                    SubscriptionView {
                        topic_filter: f.0,
                        options: match f.1 {
                            QoS::AtMostOnce => 0u8,
                            QoS::AtLeastOnce => 1u8,
                            QoS::ExactlyOnce => 2u8,
                        },
                    },
            ));
        },
        MqttPacketView::V5(v5::PacketView::Subscribe(subscribe)) => {
            lemma_all_upserted(table, v5_filters(subscribe.topic_filters));
            assert(v5_filters(subscribe.topic_filters) =~= subscribe.topic_filters.map_values(
                |f: (Seq<char>, SubscriptionOptions)|
                    SubscriptionView { topic_filter: f.0, options: options_byte(f.1) },
            ));
        },
        _ => {},
    }
}

proof fn lemma_removed_filters(table: Seq<SubscriptionView>, topic_filter: Seq<char>)
    ensures
        removed(table, topic_filter) == table.filter(
            |e: SubscriptionView| e.topic_filter != topic_filter,
        ),
    decreases table.len(),
{
    reveal(Seq::filter);
    if table.len() > 0 {
        lemma_removed_filters(table.drop_last(), topic_filter);
    }
}

proof fn lemma_filter_twice(
    table: Seq<SubscriptionView>,
    first: spec_fn(SubscriptionView) -> bool,
    second: spec_fn(SubscriptionView) -> bool,
    both: spec_fn(SubscriptionView) -> bool,
)
    requires
        forall|e: SubscriptionView| #[trigger] both(e) <==> first(e) && second(e),
    ensures
        table.filter(first).filter(second) == table.filter(both),
    decreases table.len(),
{
    reveal(Seq::filter);
    if table.len() > 0 {
        let head = table.drop_last();
        let last = table.last();
        lemma_filter_twice(head, first, second, both);
        assert(both(last) <==> first(last) && second(last));
        if first(last) {
            assert(head.filter(first).push(last).drop_last() =~= head.filter(first));
        }
    }
}

proof fn lemma_all_removed_filters(table: Seq<SubscriptionView>, filters: Seq<Seq<char>>)
    ensures
        all_removed(table, filters) == table.filter(
            |e: SubscriptionView| !filters.contains(e.topic_filter),
        ),
    decreases filters.len(),
{
    let kept = |e: SubscriptionView| !filters.contains(e.topic_filter);
    if filters.len() > 0 {
        let head = filters.drop_last();
        let last = filters[filters.len() - 1];
        lemma_all_removed_filters(table, head);
        let before = |e: SubscriptionView| !head.contains(e.topic_filter);
        let now = |e: SubscriptionView| e.topic_filter != last;
        lemma_removed_filters(all_removed(table, head), last);
        assert forall|e: SubscriptionView| #[trigger] kept(e) <==> before(e) && now(e) by {
            if head.contains(e.topic_filter) {
                let i = choose|i: int| 0 <= i < head.len() && head[i] == e.topic_filter;
                assert(filters[i] == e.topic_filter);
            }
            if filters.contains(e.topic_filter) {
                let i = choose|i: int| 0 <= i < filters.len() && filters[i] == e.topic_filter;
                if i < head.len() {
                    assert(head[i] == e.topic_filter);
                }
            }
        }
        lemma_filter_twice(table, before, now, kept);
    } else {
        lemma_filter_keeps_all(table, kept);
    }
}

proof fn lemma_filter_keeps_all(
    table: Seq<SubscriptionView>,
    pred: spec_fn(SubscriptionView) -> bool,
)
    requires
        forall|e: SubscriptionView| #[trigger] pred(e),
    ensures
        table.filter(pred) == table,
    decreases table.len(),
{
    reveal(Seq::filter);
    if table.len() > 0 {
        lemma_filter_keeps_all(table.drop_last(), pred);
        assert(pred(table.last()));
        assert(table.drop_last().push(table.last()) =~= table);
    }
}

/// After an UNSUBSCRIBE packet of either version the table is what it was, in its
/// order, without the topic filters of the packet.
pub proof fn law_unsubscribe_is_recorded(table: Seq<SubscriptionView>, packet: MqttPacketView)
    ensures
        packet matches MqttPacketView::V3(v3::PacketView::Unsubscribe { topic_filters, .. })
            ==> after_packet(table, packet) == table.filter(
            |e: SubscriptionView| !topic_filters.contains(e.topic_filter),
        ),
        packet matches MqttPacketView::V5(v5::PacketView::Unsubscribe { topic_filters, .. })
            ==> after_packet(table, packet) == table.filter(
            |e: SubscriptionView| !topic_filters.contains(e.topic_filter),
        ),
{
    match packet {
        MqttPacketView::V3(v3::PacketView::Unsubscribe { topic_filters, .. }) => {
            lemma_all_removed_filters(table, topic_filters);
        },
        MqttPacketView::V5(v5::PacketView::Unsubscribe { topic_filters, .. }) => {
            lemma_all_removed_filters(table, topic_filters);
        },
        _ => {},
    }
}

/// No other packet than SUBSCRIBE and UNSUBSCRIBE changes the table, and these are
/// the packets that may.
pub proof fn law_only_subscriptions_change_the_table(
    table: Seq<SubscriptionView>,
    packet: MqttPacketView,
)
    ensures
        changes_table(packet) <==> match packet {
            MqttPacketView::V3(v3::PacketView::Subscribe { .. }) => true,
            MqttPacketView::V3(v3::PacketView::Unsubscribe { .. }) => true,
            MqttPacketView::V5(v5::PacketView::Subscribe(_)) => true,
            MqttPacketView::V5(v5::PacketView::Unsubscribe { .. }) => true,
            _ => false,
        },
        !changes_table(packet) ==> after_packet(table, packet) == table,
{
}

/// The re-SUBSCRIBE packet of a version asks for every subscription of the table, in
/// its order, with the QoS or the options that are kept for it, under the packet
/// identifier 1; there is none exactly for an empty table.
pub proof fn law_resubscribe_asks_for_the_table(
    table: Seq<SubscriptionView>,
    version: ProtocolVersion,
)
    ensures
        resubscribe(table, version) is None <==> table.len() == 0,
        resubscribe(table, version) matches Some(packet) ==> packet.version() == version,
        resubscribe(table, version) matches Some(
            MqttPacketView::V3(v3::PacketView::Subscribe { packet_id, topic_filters }),
        ) ==> {
            &&& packet_id == 1
            &&& topic_filters.len() == table.len()
            &&& forall|i: int|
                0 <= i < table.len() ==> (#[trigger] topic_filters[i]).0 == table[i].topic_filter
                    && (table[i].options <= 2 ==> topic_filters[i].1.level() == table[i].options)
        },
        resubscribe(table, version) matches Some(
            MqttPacketView::V5(v5::PacketView::Subscribe(subscribe)),
        ) ==> {
            &&& subscribe.packet_id == 1
            &&& subscribe.id is None
            &&& subscribe.user_properties.len() == 0
            &&& subscribe.topic_filters.len() == table.len()
            &&& forall|i: int|
                0 <= i < table.len() ==> (#[trigger] subscribe.topic_filters[i]).0
                    == table[i].topic_filter && (forall|options: SubscriptionOptions|
                    #[trigger] options_byte(options) == table[i].options
                        ==> subscribe.topic_filters[i].1 == options)
        },
        resubscribe(table, version) matches Some(MqttPacketView::V3(packet)) ==> packet is Subscribe,
        resubscribe(table, version) matches Some(MqttPacketView::V5(packet)) ==> packet is Subscribe,
{
    assert forall|options: SubscriptionOptions| true implies byte_options(
        #[trigger] options_byte(options),
    ) == options by {
        law_options_round_trip(options);
    }
}

/// How the re-SUBSCRIBE packet reads what is kept for a subscription, whatever byte that
/// is: the QoS from the two low bits, at most once where they name none; in version 5 also
/// no-local and retain-as-published from a bit each, and the handling of retained messages
/// from the rest, at subscribe where it names none.
pub proof fn law_resubscribe_reads_what_is_kept(
    table: Seq<SubscriptionView>,
    version: ProtocolVersion,
    i: int,
)
    requires
        0 <= i < table.len(),
    ensures
        ({
            let byte = table[i].options;
            let qos = if byte % 4 == 1 {
                QoS::AtLeastOnce
            } else if byte % 4 == 2 {
                QoS::ExactlyOnce
            } else {
                QoS::AtMostOnce
            };
            &&& resubscribe(table, version) matches Some(
                MqttPacketView::V3(v3::PacketView::Subscribe { topic_filters, .. }),
            ) ==> topic_filters[i] == (table[i].topic_filter, qos)
            &&& resubscribe(table, version) matches Some(
                MqttPacketView::V5(v5::PacketView::Subscribe(subscribe)),
            ) ==> subscribe.topic_filters[i] == (
                table[i].topic_filter,
                SubscriptionOptions {
                    qos,
                    no_local: (byte / 4) % 2 == 1,
                    retain_as_published: (byte / 8) % 2 == 1,
                    retain_handling: if byte / 16 == 1 {
                        RetainHandling::AtSubscribeNew
                    } else if byte / 16 == 2 {
                        RetainHandling::NoAtSubscribe
                    } else {
                        RetainHandling::AtSubscribe
                    },
                },
            )
        }),
{
}

/// A subscription to a topic filter that is in the table, however often, changes the
/// first entry of that topic filter and no other.
pub proof fn law_subscribing_again_changes_the_first(
    table: Seq<SubscriptionView>,
    packet_id: u16,
    id: Option<u32>,
    user_properties: Seq<(Seq<char>, Seq<char>)>,
    topic_filter: Seq<char>,
    qos: QoS,
    options: SubscriptionOptions,
    i: int,
)
    requires
        0 <= i < table.len(),
        table[i].topic_filter == topic_filter,
        forall|j: int| 0 <= j < i ==> (#[trigger] table[j]).topic_filter != topic_filter,
    ensures
        after_packet(table, v3_subscribe(packet_id, seq![(topic_filter, qos)])) == table.update(
            i,
            SubscriptionView { topic_filter, options: qos.level() },
        ),
        after_packet(
            table,
            v5_subscribe(packet_id, id, user_properties, seq![(topic_filter, options)]),
        ) == table.update(i, SubscriptionView { topic_filter, options: options_byte(options) }),
{
    let v3_asked = v3_filters(seq![(topic_filter, qos)]);
    let v5_asked = v5_filters(seq![(topic_filter, options)]);
    assert(v3_asked.drop_last() =~= Seq::empty());
    assert(v5_asked.drop_last() =~= Seq::empty());
    assert(all_upserted(table, Seq::empty()) == table);
    assert(is_first(table, topic_filter, i));
    let k = choose|k: int| is_first(table, topic_filter, k);
    assert(k == i) by {
        if k < i {
            assert(table[k].topic_filter != topic_filter);
        } else if i < k {
            assert(table[i].topic_filter != topic_filter);
        }
    }
}

} // verus!
