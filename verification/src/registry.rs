//! Session registry: tracks live sessions so a shed can freeze them, collect
//! their snapshots, and either resume them (upgrade failed) or let them die
//! with the process after a successful handoff.

use std::collections::HashMap;

use vstd::prelude::*;

use crate::window::{entries_view, EntryView, WindowEntry};

verus! {

broadcast use vstd::std_specs::hash::group_hash_axioms;

/// How long a session may take to freeze, in seconds.
pub const FREEZE_REPLY_TIMEOUT_SECS: u64 = 5;

/// One subscription the client made, retained for re-SUBSCRIBE on thaw.
#[derive(Clone, Debug)]
pub struct SubscriptionEntry {
    pub topic_filter: String,
    /// SUBSCRIBE options byte: QoS in bits 0-1; v5 adds no_local (bit 2),
    /// retain-as-published (bit 3), retain-handling (bits 4-5).
    pub options: u8,
}

/// Mathematical counterpart of [`SubscriptionEntry`].
#[verifier::ext_equal]
pub struct SubscriptionView {
    pub topic_filter: Seq<char>,
    pub options: u8,
}

impl View for SubscriptionEntry {
    type V = SubscriptionView;

    open spec fn view(&self) -> SubscriptionView {
        SubscriptionView { topic_filter: self.topic_filter@, options: self.options }
    }
}

/// The subscriptions of a list.
pub open spec fn subscriptions_view(entries: Seq<SubscriptionEntry>) -> Seq<SubscriptionView> {
    entries.map_values(|e: SubscriptionEntry| e@)
}

/// A PUBLISH that was acknowledged to the client while the broker was
/// unreachable, awaiting delivery.
#[derive(Clone, Debug)]
pub struct BufferedPublish {
    pub packet_id: u16,
    pub raw: Vec<u8>,
    pub qos: u8,
}

/// Mathematical counterpart of [`BufferedPublish`].
#[verifier::ext_equal]
pub struct BufferedView {
    pub packet_id: u16,
    pub raw: Seq<u8>,
    pub qos: u8,
}

impl View for BufferedPublish {
    type V = BufferedView;

    open spec fn view(&self) -> BufferedView {
        BufferedView { packet_id: self.packet_id, raw: self.raw@, qos: self.qos }
    }
}

/// The buffered messages of a list.
pub open spec fn buffered_view(entries: Seq<BufferedPublish>) -> Seq<BufferedView> {
    entries.map_values(|e: BufferedPublish| e@)
}

/// Per-session state at a packet boundary.
/// `version` is the MQTT protocol level (4 = v3.1.1, 5 = v5.0).
#[derive(Clone, Debug)]
pub struct SessionSnapshot {
    pub version: u8,
    /// Raw re-encoded CONNECT packet, replayed toward the broker on thaw
    /// (with the clean bit cleared so the broker resumes the session).
    pub connect_raw: Vec<u8>,
    /// Undelivered bytes from the client, still frame-aligned.
    pub client_buf: Vec<u8>,
    /// Undelivered bytes from the broker, still frame-aligned.
    pub broker_buf: Vec<u8>,
    /// QoS1/2 packets forwarded but not yet acknowledged end-to-end.
    pub windows: Vec<WindowEntry>,
    /// Active subscriptions, re-issued toward the broker on thaw.
    pub subscriptions: Vec<SubscriptionEntry>,
    /// Publishes acknowledged to the client and not yet sent to the broker.
    pub buffered: Vec<BufferedPublish>,
}

/// Mathematical counterpart of [`SessionSnapshot`].
#[verifier::ext_equal]
pub struct SnapshotView {
    pub version: u8,
    pub connect_raw: Seq<u8>,
    pub client_buf: Seq<u8>,
    pub broker_buf: Seq<u8>,
    pub windows: Seq<EntryView>,
    pub subscriptions: Seq<SubscriptionView>,
    pub buffered: Seq<BufferedView>,
}

impl View for SessionSnapshot {
    type V = SnapshotView;

    open spec fn view(&self) -> SnapshotView {
        SnapshotView {
            version: self.version,
            connect_raw: self.connect_raw@,
            client_buf: self.client_buf@,
            broker_buf: self.broker_buf@,
            windows: entries_view(self.windows@),
            subscriptions: subscriptions_view(self.subscriptions@),
            buffered: buffered_view(self.buffered@),
        }
    }
}

/// Everything the next process generation needs to adopt a session.
/// `client_fd` travels out-of-band (SCM_RIGHTS) during a real shed.
#[derive(Debug)]
pub struct FrozenSession {
    pub id: u64,
    pub snapshot: SessionSnapshot,
    pub client_fd: i32,
}

/// Mathematical counterpart of [`FrozenSession`].
#[verifier::ext_equal]
pub struct FrozenView {
    pub id: u64,
    pub snapshot: SnapshotView,
    pub client_fd: i32,
}

impl View for FrozenSession {
    type V = FrozenView;

    open spec fn view(&self) -> FrozenView {
        FrozenView { id: self.id, snapshot: self.snapshot@, client_fd: self.client_fd }
    }
}

/// What came of asking a session to freeze.
#[derive(Debug)]
pub enum FreezeAnswer {
    /// The session froze.
    Frozen(FrozenSession),
    /// The session had ended already.
    Ended,
    /// The session died while freezing.
    Died,
    /// The session did not freeze in time.
    TimedOut,
}

/// The result of freezing all sessions: the collected snapshots plus what is
/// needed to resume or terminate the frozen sessions.
pub struct FreezeBatch<R> {
    pub frozen: Vec<FrozenSession>,
    resumes: HashMap<u64, R>,
}

/// Mathematical counterpart of [`FreezeBatch`].
#[verifier::ext_equal]
pub struct BatchView<R> {
    pub frozen: Seq<FrozenView>,
    pub resumes: Map<u64, R>,
}

/// The sessions of a list.
pub open spec fn frozen_view(frozen: Seq<FrozenSession>) -> Seq<FrozenView> {
    frozen.map_values(|f: FrozenSession| f@)
}

/// The pairs of a list.
pub open spec fn resumed_view<R>(resumed: Seq<(R, FrozenSession)>) -> Seq<(R, FrozenView)> {
    resumed.map_values(|r: (R, FrozenSession)| (r.0, r.1@))
}

impl<R> View for FreezeBatch<R> {
    type V = BatchView<R>;

    closed spec fn view(&self) -> BatchView<R> {
        BatchView { frozen: frozen_view(self.frozen@), resumes: self.resumes@ }
    }
}

impl<R> BatchView<R> {
    /// The batch after one session answered: only one that froze is part of it.
    pub open spec fn collected(self, id: u64, resume: R, answer: FreezeAnswer) -> BatchView<R> {
        match answer {
            FreezeAnswer::Frozen(session) => BatchView {
                frozen: self.frozen.push(session@),
                resumes: self.resumes.insert(id, resume),
            },
            _ => self,
        }
    }

    /// Who is to be resumed with which session, from an index on.
    pub open spec fn resumed(self, from: int) -> Seq<(R, FrozenView)>
        decreases self.frozen.len() - from,
    {
        if from < 0 || from >= self.frozen.len() {
            Seq::empty()
        } else {
            let session = self.frozen[from];
            if self.resumes.dom().contains(session.id) {
                let rest = BatchView { resumes: self.resumes.remove(session.id), ..self };
                seq![(self.resumes[session.id], session)] + rest.resumed(from + 1)
            } else {
                self.resumed(from + 1)
            }
        }
    }

    /// Every frozen session can be resumed, and is listed once.
    pub open spec fn wf(self) -> bool {
        &&& forall|i: int|
            0 <= i < self.frozen.len() ==> self.resumes.dom().contains(
                (#[trigger] self.frozen[i]).id,
            )
        &&& forall|i: int, j: int|
            0 <= i < j < self.frozen.len() ==> (#[trigger] self.frozen[i]).id != (
            #[trigger] self.frozen[j]).id
    }
}

impl<R> FreezeBatch<R> {
    /// A batch without sessions.
    pub fn new() -> (batch: Self)
        ensures
            batch@ == (BatchView { frozen: Seq::empty(), resumes: Map::<u64, R>::empty() }),
    {
        let batch = FreezeBatch { frozen: Vec::new(), resumes: HashMap::new() };
        assert(batch@.frozen =~= Seq::empty());
        batch
    }

    /// Take in the answer of one session. Sessions that die mid-freeze or fail
    /// to freeze in time are skipped.
    pub fn collect(&mut self, id: u64, resume: R, answer: FreezeAnswer)
        ensures
            final(self)@ == old(self)@.collected(id, resume, answer),
            answer matches FreezeAnswer::Frozen(session) ==> final(self)@.frozen == old(
                self,
            )@.frozen.push(session@) && final(self)@.resumes == old(self)@.resumes.insert(
                id,
                resume,
            ),
            !(answer is Frozen) ==> final(self)@ == old(self)@,
    {
        match answer {
            FreezeAnswer::Frozen(session) => {
                let ghost before = self@;
                self.frozen.push(session);
                let _ = self.resumes.insert(id, resume);
                assert(self@.frozen =~= before.frozen.push(session@));
            },
            _ => {},
        }
    }

    /// Roll back the freeze: each session gets its snapshot buffers back and
    /// resumes normal operation. Used when an upgrade fails.
    pub fn resume_all(self) -> (resumed: Vec<(R, FrozenSession)>)
        ensures
            resumed_view(resumed@) == self@.resumed(0),
    {
        self.resume_skipping(0)
    }

    /// Let go of the batch once every session was handed over: nobody is
    /// resumed, and the sessions terminate.
    pub fn finish(self) -> (resumed: Vec<(R, FrozenSession)>)
        ensures
            resumed_view(resumed@) == Seq::<(R, FrozenView)>::empty(),
            resumed_view(resumed@) == self@.resumed(self@.frozen.len() as int),
    {
        let total: usize = self.frozen.len();
        self.resume_skipping(total)
    }

    /// Resume all sessions except the first `sent`, which were already handed
    /// to the child (their resume channels are dropped so they terminate).
    pub fn resume_skipping(self, sent: usize) -> (resumed: Vec<(R, FrozenSession)>)
        ensures
            resumed_view(resumed@) == self@.resumed(sent as int),
    {
        let ghost batch = self@;
        let FreezeBatch { mut frozen, mut resumes } = self;
        let mut resumed: Vec<(R, FrozenSession)> = Vec::new();
        if sent >= frozen.len() {
            assert(resumed_view(resumed@) =~= batch.resumed(sent as int));
            return resumed;
        }
        let total: usize = frozen.len();
        let mut i: usize = sent;
        let mut rest = frozen.split_off(sent);
        let ghost all = rest@;
        assert(forall|k: int| 0 <= k < all.len() ==> (#[trigger] all[k])@ == batch.frozen[sent + k]);
        assert(resumed_view(resumed@) =~= Seq::empty());
        assert(Seq::empty() + batch.resumed(sent as int) =~= batch.resumed(sent as int));
        while rest.len() > 0
            invariant
                sent <= i <= total,
                batch.frozen.len() == total,
                batch.frozen.len() == sent + all.len(),
                rest@ == all.skip(i - sent),
                forall|k: int|
                    0 <= k < all.len() ==> (#[trigger] all[k])@ == batch.frozen[sent + k],
                resumed_view(resumed@) + (BatchView { resumes: resumes@, ..batch }).resumed(
                    i as int,
                ) == batch.resumed(sent as int),
            decreases rest.len(),
        {
            let ghost now = BatchView { resumes: resumes@, ..batch };
            let ghost before = resumed@;
            let session = rest.remove(0);
            assert(session@ == batch.frozen[i as int]);
            assert(rest@ =~= all.skip(i + 1 - sent));
            let id: u64 = session.id;
            match resumes.remove(&id) {
                Some(resume) => {
                    resumed.push((resume, session));
                    assert(resumed_view(resumed@) =~= resumed_view(before).push(
                        (resume, session@),
                    ));
                    let ghost later = BatchView { resumes: resumes@, ..batch };
                    assert(later.resumes =~= now.resumes.remove(id));
                    assert(resumed_view(resumed@) + later.resumed(i + 1) =~= resumed_view(before)
                        + now.resumed(i as int));
                },
                None => {
                    assert(resumes@ =~= now.resumes);
                },
            }
            i = i + 1;
        }
        assert(resumed_view(resumed@) + (BatchView { resumes: resumes@, ..batch }).resumed(
            i as int,
        ) =~= resumed_view(resumed@));
        resumed
    }
}

/// Live sessions, each with what it takes to control it.
pub struct SessionRegistry<T> {
    sessions: HashMap<u64, T>,
    next_id: u64,
}

/// Mathematical counterpart of [`SessionRegistry`].
#[verifier::ext_equal]
pub struct RegistryView<T> {
    pub sessions: Map<u64, T>,
    pub next_id: u64,
}

impl<T> View for SessionRegistry<T> {
    type V = RegistryView<T>;

    closed spec fn view(&self) -> RegistryView<T> {
        RegistryView { sessions: self.sessions@, next_id: self.next_id }
    }
}

impl<T> RegistryView<T> {
    /// The registry with one more session.
    pub open spec fn registered(self, control: T) -> RegistryView<T> {
        RegistryView {
            sessions: self.sessions.insert(self.next_id, control),
            next_id: if self.next_id == u64::MAX {
                0
            } else {
                (self.next_id + 1) as u64
            },
        }
    }

    /// The registry without a session.
    pub open spec fn unregistered(self, id: u64) -> RegistryView<T> {
        RegistryView { sessions: self.sessions.remove(id), ..self }
    }

    /// Every identifier in use was given out before the next one.
    pub open spec fn wf(self) -> bool {
        &&& self.sessions.dom().finite()
        &&& forall|id: u64| #[trigger] self.sessions.dom().contains(id) ==> id < self.next_id
    }
}

impl<T> SessionRegistry<T> {
    /// A registry without sessions.
    pub fn new() -> (registry: Self)
        ensures
            registry@ == (RegistryView { sessions: Map::<u64, T>::empty(), next_id: 0 }),
            registry@.wf(),
    {
        SessionRegistry { sessions: HashMap::new(), next_id: 0 }
    }

    /// Add a session; its identifier is returned.
    pub fn register(&mut self, control: T) -> (id: u64)
        ensures
            id == old(self)@.next_id,
            final(self)@ == old(self)@.registered(control),
    {
        let id: u64 = self.next_id;
        self.next_id = if id == u64::MAX {
            0
        } else {
            id + 1
        };
        let _ = self.sessions.insert(id, control);
        id
    }

    /// Remove a session.
    pub fn unregister(&mut self, id: u64)
        ensures
            final(self)@ == old(self)@.unregistered(id),
    {
        let ghost before = self@;
        let _ = self.sessions.remove(&id);
        assert(self@.sessions =~= before.sessions.remove(id));
    }

    /// Number of live sessions.
    pub fn count(&self) -> (count: usize)
        ensures
            count == self@.sessions.len(),
    {
        self.sessions.len()
    }

    /// The identifiers of all live sessions, each once, in no particular order.
    pub fn session_ids(&self) -> (ids: Vec<u64>)
        ensures
            ids@.to_set() == self@.sessions.dom(),
            ids@.no_duplicates(),
    {
        let mut ids: Vec<u64> = Vec::new();
        for id in it: self.sessions.keys()
            invariant
                ids@ == it.seq().unref().take(it.index()),
                it.index() == it.seq().len() ==> ids@ == it.seq().unref(),
                it.seq().unref().to_set() == self.sessions@.dom(),
                it.seq().no_duplicates(),
        {
            ids.push(*id);
            assert(ids@ =~= it.seq().unref().take(it.index() + 1));
        }
        ids
    }

    /// What it takes to control a session.
    pub fn control(&self, id: u64) -> (control: Option<&T>)
        ensures
            match control {
                Some(control) => self@.sessions.dom().contains(id) && *control
                    == self@.sessions[id],
                None => !self@.sessions.dom().contains(id),
            },
    {
        self.sessions.get(&id)
    }
}

/// How far a session has come: it is registered, and thus migratable, from the
/// moment at which the broker's answer has reached the client until it ends.
#[derive(Clone, Copy, Debug, PartialEq, Eq, Structural)]
pub enum Stage {
    /// The client has no answer yet.
    Opening,
    /// The session is registered under an identifier.
    Live(u64),
    /// The session is over.
    Ended,
}

impl Stage {
    /// The stage and the registry once the broker's answer has reached the
    /// client.
    pub open spec fn after_answer<T>(self, registry: RegistryView<T>, control: T) -> (
        Stage,
        RegistryView<T>,
    ) {
        match self {
            Stage::Opening => (Stage::Live(registry.next_id), registry.registered(control)),
            _ => (self, registry),
        }
    }

    /// The stage and the registry once the session has ended, for whatever
    /// reason.
    pub open spec fn after_end<T>(self, registry: RegistryView<T>) -> (Stage, RegistryView<T>) {
        match self {
            Stage::Live(id) => (Stage::Ended, registry.unregistered(id)),
            _ => (Stage::Ended, registry),
        }
    }

    /// The broker's answer has reached the client: register the session.
    pub fn on_answer<T>(&mut self, registry: &mut SessionRegistry<T>, control: T)
        ensures
            (*final(self), final(registry)@) == old(self).after_answer(old(registry)@, control),
    {
        match *self {
            Stage::Opening => {
                *self = Stage::Live(registry.register(control));
            },
            _ => {},
        }
    }

    /// The session has ended: remove it, if it was registered.
    pub fn on_end<T>(&mut self, registry: &mut SessionRegistry<T>)
        ensures
            (*final(self), final(registry)@) == old(self).after_end(old(registry)@),
    {
        match *self {
            Stage::Live(id) => {
                registry.unregister(id);
            },
            _ => {},
        }
        *self = Stage::Ended;
    }
}

/// Identifiers are not given out twice until they run out: a new session takes
/// no other's place, and no other session is affected when it goes.
pub proof fn law_registered_ids_are_fresh<T>(registry: RegistryView<T>, control: T)
    requires
        registry.wf(),
        registry.next_id < u64::MAX,
    ensures
        !registry.sessions.dom().contains(registry.next_id),
        registry.registered(control).wf(),
        registry.registered(control).sessions.dom().contains(registry.next_id),
        registry.registered(control).sessions[registry.next_id] == control,
        registry.registered(control).unregistered(registry.next_id).sessions == registry.sessions,
{
    assert(registry.registered(control).unregistered(registry.next_id).sessions
        =~= registry.sessions);
}

/// A session that comes and goes leaves the registry as it was, whether or not
/// the broker ever answered it: the same sessions, and as many. It is registered
/// only once it has been answered, and is then one more.
pub proof fn law_sessions_leave_no_trace<T>(registry: RegistryView<T>, control: T)
    requires
        registry.wf(),
        registry.next_id < u64::MAX,
    ensures
        ({
            let (live, during) = Stage::Opening.after_answer(registry, control);
            let (ended, after) = live.after_end(during);
            let (refused, never) = Stage::Opening.after_end(registry);
            &&& live == Stage::Live(registry.next_id)
            &&& during.wf()
            &&& during.sessions.dom().contains(registry.next_id)
            &&& during.sessions.len() == registry.sessions.len() + 1
            &&& ended == Stage::Ended && refused == Stage::Ended
            &&& after.sessions == registry.sessions
            &&& after.sessions.len() == registry.sessions.len()
            &&& never == registry
        }),
{
    law_registered_ids_are_fresh(registry, control);
    assert(registry.registered(control).sessions.dom() =~= registry.sessions.dom().insert(
        registry.next_id,
    ));
}

/// A session stays registered while others come and go.
pub proof fn law_registered_until_ended<T>(
    registry: RegistryView<T>,
    id: u64,
    other: u64,
    control: T,
)
    requires
        registry.wf(),
        registry.next_id < u64::MAX,
        registry.sessions.dom().contains(id),
        other != id,
    ensures
        ({
            let joined = Stage::Opening.after_answer(registry, control).1;
            let left = Stage::Live(other).after_end(registry).1;
            &&& joined.wf() && left.wf()
            &&& joined.sessions.dom().contains(id) && joined.sessions[id] == registry.sessions[id]
            &&& left.sessions.dom().contains(id) && left.sessions[id] == registry.sessions[id]
        }),
{
}

/// Collecting the answer of another session under its own identifier keeps the
/// batch in order.
pub proof fn law_collected_sessions_can_be_resumed<R>(
    batch: BatchView<R>,
    id: u64,
    resume: R,
    answer: FreezeAnswer,
)
    requires
        batch.wf(),
        answer matches FreezeAnswer::Frozen(session) ==> session@.id == id,
        forall|i: int| 0 <= i < batch.frozen.len() ==> (#[trigger] batch.frozen[i]).id != id,
    ensures
        batch.collected(id, resume, answer).wf(),
{
}

/// A rollback gives every session that was not handed over back to itself, in
/// order, and resumes none that was.
pub proof fn law_rollback_resumes_the_rest<R>(batch: BatchView<R>, sent: int)
    requires
        batch.wf(),
        0 <= sent <= batch.frozen.len(),
    ensures
        batch.resumed(sent).len() == batch.frozen.len() - sent,
        forall|k: int|
            0 <= k < batch.frozen.len() - sent ==> #[trigger] batch.resumed(sent)[k] == (
                batch.resumes[batch.frozen[sent + k].id],
                batch.frozen[sent + k],
            ),
{
    lemma_resumed(batch, batch.resumes, sent);
}

proof fn lemma_resumed<R>(batch: BatchView<R>, resumes: Map<u64, R>, from: int)
    requires
        0 <= from <= batch.frozen.len(),
        forall|i: int|
            from <= i < batch.frozen.len() ==> resumes.dom().contains(
                (#[trigger] batch.frozen[i]).id,
            ),
        forall|i: int, j: int|
            0 <= i < j < batch.frozen.len() ==> (#[trigger] batch.frozen[i]).id != (
            #[trigger] batch.frozen[j]).id,
    ensures
        ({
            let resumed = (BatchView { resumes, ..batch }).resumed(from);
            &&& resumed.len() == batch.frozen.len() - from
            &&& forall|k: int|
                0 <= k < batch.frozen.len() - from ==> #[trigger] resumed[k] == (
                    resumes[batch.frozen[from + k].id],
                    batch.frozen[from + k],
                )
        }),
    decreases batch.frozen.len() - from,
{
    if from < batch.frozen.len() {
        let id = batch.frozen[from].id;
        lemma_resumed(batch, resumes.remove(id), from + 1);
        let now = BatchView { resumes, ..batch };
        let rest = (BatchView { resumes: resumes.remove(id), ..batch }).resumed(from + 1);
        assert(now.resumed(from) == seq![(resumes[id], batch.frozen[from])] + rest);
        assert forall|k: int| 0 <= k < batch.frozen.len() - from implies #[trigger] now.resumed(
            from,
        )[k] == (resumes[batch.frozen[from + k].id], batch.frozen[from + k]) by {
            if k > 0 {
                assert(now.resumed(from)[k] == rest[k - 1]);
                assert(batch.frozen[from + 1 + (k - 1)] == batch.frozen[from + k]);
            }
        }
    }
}

/// A batch after several sessions answered, each with its identifier and what it
/// takes to resume it.
pub open spec fn after_answers<R>(
    batch: BatchView<R>,
    answers: Seq<(u64, R, FreezeAnswer)>,
) -> BatchView<R>
    decreases answers.len(),
{
    if answers.len() == 0 {
        batch
    } else {
        let last = answers.last();
        after_answers(batch, answers.drop_last()).collected(last.0, last.1, last.2)
    }
}

/// The sessions that froze are those of the batch, all of them and in the order in
/// which they answered, whatever they carry; each can be resumed with what came
/// with its answer, and nobody else can.
pub proof fn law_every_session_that_froze_is_collected<R>(
    batch: BatchView<R>,
    answers: Seq<(u64, R, FreezeAnswer)>,
)
    ensures
        after_answers(batch, answers).frozen == batch.frozen + answers.filter(
            |a: (u64, R, FreezeAnswer)| a.2 is Frozen,
        ).map_values(|a: (u64, R, FreezeAnswer)| a.2->Frozen_0@),
        forall|i: int|
            #![trigger answers[i]]
            0 <= i < answers.len() && answers[i].2 is Frozen ==> after_answers(
                batch,
                answers,
            ).resumes.dom().contains(answers[i].0),
        forall|i: int|
            #![trigger answers[i]]
            0 <= i < answers.len() && answers[i].2 is Frozen && (forall|j: int|
                #![trigger answers[j]]
                i < j < answers.len() ==> answers[j].0 != answers[i].0) ==> after_answers(
                batch,
                answers,
            ).resumes[answers[i].0] == answers[i].1,
        forall|id: u64| #[trigger]
            after_answers(batch, answers).resumes.dom().contains(id)
                ==> batch.resumes.dom().contains(id) || exists|i: int|
                #![trigger answers[i]]
                0 <= i < answers.len() && answers[i].2 is Frozen && answers[i].0 == id,
    decreases answers.len(),
{
    reveal(Seq::filter);
    let froze = |a: (u64, R, FreezeAnswer)| a.2 is Frozen;
    let carried = |a: (u64, R, FreezeAnswer)| a.2->Frozen_0@;
    let after = after_answers(batch, answers);
    if answers.len() > 0 {
        let head = answers.drop_last();
        let last = answers.last();
        law_every_session_that_froze_is_collected(batch, head);
        assert(forall|i: int| 0 <= i < head.len() ==> head[i] == answers[i]);
        assert(answers[answers.len() - 1] == last);
        let before = after_answers(batch, head);
        if froze(last) {
            assert(head.filter(froze).push(last).map_values(carried) =~= head.filter(
                froze,
            ).map_values(carried).push(carried(last)));
            assert(after.frozen =~= batch.frozen + answers.filter(froze).map_values(carried));
        }
        assert forall|i: int|
            #![trigger answers[i]]
            0 <= i < answers.len() && answers[i].2 is Frozen && (forall|j: int|
                #![trigger answers[j]]
                i < j < answers.len() ==> answers[j].0
                    != answers[i].0) implies after.resumes[answers[i].0] == answers[i].1 by {
            if i < head.len() {
                assert(answers[answers.len() - 1].0 != answers[i].0);
                assert forall|j: int| #![trigger head[j]] i < j < head.len() implies head[j].0
                    != head[i].0 by {
                    assert(answers[j].0 != answers[i].0);
                }
                assert(before.resumes[head[i].0] == head[i].1);
            }
        }
        assert forall|id: u64| #[trigger] after.resumes.dom().contains(id) implies
            batch.resumes.dom().contains(id) || exists|i: int|
            #![trigger answers[i]]
            0 <= i < answers.len() && answers[i].2 is Frozen && answers[i].0 == id by {
            if before.resumes.dom().contains(id) {
                if !batch.resumes.dom().contains(id) {
                    let i = choose|i: int|
                        #![trigger head[i]]
                        0 <= i < head.len() && head[i].2 is Frozen && head[i].0 == id;
                    assert(answers[i] == head[i]);
                }
            } else {
                assert(answers[answers.len() - 1].0 == id);
            }
        }
    } else {
        assert(answers.filter(froze).map_values(carried) =~= Seq::empty());
        assert(batch.frozen + Seq::empty() =~= batch.frozen);
    }
}

/// Every session that froze under its own identifier is either handed over or
/// gets itself back: of a batch that is rolled back after some were handed over,
/// the others are resumed, in order, each with what came with its answer.
pub proof fn law_no_frozen_session_is_lost<R>(answers: Seq<(u64, R, FreezeAnswer)>, sent: int)
    requires
        forall|i: int|
            #![trigger answers[i]]
            0 <= i < answers.len() ==> (answers[i].2 matches FreezeAnswer::Frozen(session)
                ==> session@.id == answers[i].0),
        forall|i: int, j: int|
            #![trigger answers[i], answers[j]]
            0 <= i < j < answers.len() ==> answers[i].0 != answers[j].0,
        0 <= sent <= answers.filter(|a: (u64, R, FreezeAnswer)| a.2 is Frozen).len(),
    ensures
        ({
            let empty = BatchView { frozen: Seq::empty(), resumes: Map::<u64, R>::empty() };
            let froze = answers.filter(|a: (u64, R, FreezeAnswer)| a.2 is Frozen);
            after_answers(empty, answers).resumed(sent) == froze.skip(sent).map_values(
                |a: (u64, R, FreezeAnswer)| (a.1, a.2->Frozen_0@),
            )
        }),
{
    let empty = BatchView { frozen: Seq::empty(), resumes: Map::<u64, R>::empty() };
    let is_frozen = |a: (u64, R, FreezeAnswer)| a.2 is Frozen;
    let froze = answers.filter(is_frozen);
    let carried = |a: (u64, R, FreezeAnswer)| a.2->Frozen_0@;
    let batch = after_answers(empty, answers);
    law_every_session_that_froze_is_collected(empty, answers);
    assert(empty.frozen + froze.map_values(carried) =~= froze.map_values(carried));
    lemma_answers_make_a_batch(answers);
    law_rollback_resumes_the_rest(batch, sent);
    let expected = froze.skip(sent).map_values(
        |a: (u64, R, FreezeAnswer)| (a.1, a.2->Frozen_0@),
    );
    assert forall|k: int| 0 <= k < expected.len() implies #[trigger] batch.resumed(sent)[k]
        == expected[k] by {
        let answer = froze[sent + k];
        broadcast use vstd::seq_lib::group_filter_ensures;

        assert(froze.contains(answer));
        lemma_filtered_is_in(answers, is_frozen, sent + k);
        let i = choose|i: int| 0 <= i < answers.len() && answers[i] == answer;
        assert(is_frozen(froze[sent + k]));
        assert(batch.frozen[sent + k] == carried(answer));
        assert(answers[i].2 is Frozen);
        assert forall|j: int| #![trigger answers[j]] i < j < answers.len() implies answers[j].0
            != answers[i].0 by {}
        assert(batch.resumes[answers[i].0] == answers[i].1);
    }
    assert(batch.resumed(sent) =~= expected);
}

proof fn lemma_filtered_is_in<A>(all: Seq<A>, pred: spec_fn(A) -> bool, k: int)
    requires
        0 <= k < all.filter(pred).len(),
    ensures
        exists|i: int| 0 <= i < all.len() && #[trigger] all[i] == all.filter(pred)[k],
    decreases all.len(),
{
    reveal(Seq::filter);
    if all.len() > 0 {
        let head = all.drop_last();
        if k < head.filter(pred).len() {
            lemma_filtered_is_in(head, pred, k);
            let i = choose|i: int| 0 <= i < head.len() && #[trigger] head[i] == head.filter(pred)[k];
            assert(all[i] == head[i]);
        } else {
            assert(all[all.len() - 1] == all.filter(pred)[k]);
        }
    }
}

proof fn lemma_answers_make_a_batch<R>(answers: Seq<(u64, R, FreezeAnswer)>)
    requires
        forall|i: int|
            #![trigger answers[i]]
            0 <= i < answers.len() ==> (answers[i].2 matches FreezeAnswer::Frozen(session)
                ==> session@.id == answers[i].0),
        forall|i: int, j: int|
            #![trigger answers[i], answers[j]]
            0 <= i < j < answers.len() ==> answers[i].0 != answers[j].0,
    ensures
        after_answers(
            (BatchView { frozen: Seq::empty(), resumes: Map::<u64, R>::empty() }),
            answers,
        ).wf(),
        forall|k: int|
            0 <= k < after_answers(
                (BatchView { frozen: Seq::empty(), resumes: Map::<u64, R>::empty() }),
                answers,
            ).frozen.len() ==> exists|i: int|
                0 <= i < answers.len() && (#[trigger] answers[i]).0 == (#[trigger] after_answers(
                    (BatchView { frozen: Seq::empty(), resumes: Map::<u64, R>::empty() }),
                    answers,
                ).frozen[k]).id,
    decreases answers.len(),
{
    let empty = BatchView { frozen: Seq::empty(), resumes: Map::<u64, R>::empty() };
    if answers.len() > 0 {
        let head = answers.drop_last();
        let last = answers[answers.len() - 1];
        assert(forall|i: int| 0 <= i < head.len() ==> #[trigger] head[i] == answers[i]);
        lemma_answers_make_a_batch(head);
        let before = after_answers(empty, head);
        let after = after_answers(empty, answers);
        assert forall|k: int| 0 <= k < before.frozen.len() implies (
        #[trigger] before.frozen[k]).id != last.0 by {
            let i = choose|i: int| 0 <= i < head.len() && (#[trigger] head[i]).0 == before.frozen[k].id;
            assert(answers[i].0 != answers[answers.len() - 1].0);
        }
        law_collected_sessions_can_be_resumed(before, last.0, last.1, last.2);
        assert forall|k: int| 0 <= k < after.frozen.len() implies exists|i: int|
            0 <= i < answers.len() && (#[trigger] answers[i]).0 == (#[trigger] after.frozen[k]).id by {
            if k < before.frozen.len() {
                let i = choose|i: int|
                    0 <= i < head.len() && (#[trigger] head[i]).0 == before.frozen[k].id;
                assert(answers[i].0 == after.frozen[k].id);
            } else {
                assert(answers[answers.len() - 1].0 == after.frozen[k].id);
            }
        }
    }
}

/// A new session gets the next identifier, the next one after that another; the
/// other sessions keep theirs. A session that goes takes nobody with it.
pub proof fn law_registry_changes_one_session<T>(
    registry: RegistryView<T>,
    control: T,
    id: u64,
    other: u64,
)
    ensures
        ({
            let joined = registry.registered(control);
            &&& joined.sessions.dom().contains(registry.next_id)
            &&& joined.sessions[registry.next_id] == control
            &&& other != registry.next_id ==> (joined.sessions.dom().contains(other)
                <==> registry.sessions.dom().contains(other))
            &&& other != registry.next_id && registry.sessions.dom().contains(other)
                ==> joined.sessions[other] == registry.sessions[other]
            &&& joined.next_id != registry.next_id
            &&& registry.next_id < u64::MAX ==> joined.next_id == registry.next_id + 1
        }),
        ({
            let left = registry.unregistered(id);
            &&& !left.sessions.dom().contains(id)
            &&& other != id ==> (left.sessions.dom().contains(other)
                <==> registry.sessions.dom().contains(other))
            &&& other != id && registry.sessions.dom().contains(other) ==> left.sessions[other]
                == registry.sessions[other]
            &&& left.next_id == registry.next_id
        }),
        ({
            let (stage, during) = Stage::Opening.after_answer(registry, control);
            &&& stage == Stage::Live(registry.next_id)
            &&& during == registry.registered(control)
            &&& Stage::Live(id).after_answer(registry, control) == (Stage::Live(id), registry)
            &&& Stage::Ended.after_answer(registry, control) == (Stage::Ended, registry)
            &&& Stage::Live(id).after_end(registry) == (Stage::Ended, registry.unregistered(id))
            &&& Stage::Opening.after_end(registry) == (Stage::Ended, registry)
            &&& Stage::Ended.after_end(registry) == (Stage::Ended, registry)
        }),
{
}

/// Of a batch with sessions that nobody can resume, those are left out, and they alone: all
/// other sessions that were not handed over are resumed, in order, each with what it takes.
pub proof fn law_rollback_leaves_out_nobody_else<R>(batch: BatchView<R>, sent: int)
    requires
        0 <= sent <= batch.frozen.len(),
        forall|i: int, j: int|
            0 <= i < j < batch.frozen.len() ==> (#[trigger] batch.frozen[i]).id != (
            #[trigger] batch.frozen[j]).id,
    ensures
        batch.resumed(sent) == batch.frozen.skip(sent).filter(
            |s: FrozenView| batch.resumes.dom().contains(s.id),
        ).map_values(|s: FrozenView| (batch.resumes[s.id], s)),
        batch.resumed(batch.frozen.len() as int).len() == 0,
{
    lemma_resumed_filters(batch, batch.resumes, sent);
}

proof fn lemma_resumed_filters<R>(batch: BatchView<R>, resumes: Map<u64, R>, from: int)
    requires
        0 <= from <= batch.frozen.len(),
        forall|i: int, j: int|
            0 <= i < j < batch.frozen.len() ==> (#[trigger] batch.frozen[i]).id != (
            #[trigger] batch.frozen[j]).id,
    ensures
        (BatchView { resumes, ..batch }).resumed(from) == batch.frozen.skip(from).filter(
            |s: FrozenView| resumes.dom().contains(s.id),
        ).map_values(|s: FrozenView| (resumes[s.id], s)),
    decreases batch.frozen.len() - from,
{
    let can = |s: FrozenView| resumes.dom().contains(s.id);
    let pair = |s: FrozenView| (resumes[s.id], s);
    let all = batch.frozen.skip(from);
    if from < batch.frozen.len() {
        let first = batch.frozen[from];
        let later = batch.frozen.skip(from + 1);
        assert(all =~= seq![first] + later);
        lemma_filter_first(first, later, can);
        let left = if can(first) {
            resumes.remove(first.id)
        } else {
            resumes
        };
        lemma_resumed_filters(batch, left, from + 1);
        let still = |s: FrozenView| left.dom().contains(s.id);
        assert forall|i: int| 0 <= i < later.len() implies still(#[trigger] later[i]) == can(
            later[i],
        ) by {
            assert(later[i] == batch.frozen[from + 1 + i]);
            assert(batch.frozen[from].id != batch.frozen[from + 1 + i].id);
        }
        lemma_filter_same(later, still, can);
        let kept = later.filter(can);
        assert forall|k: int| 0 <= k < kept.len() implies left[(#[trigger] kept[k]).id]
            == resumes[kept[k].id] by {
            lemma_filtered_is_in(later, can, k);
            let i = choose|i: int| 0 <= i < later.len() && #[trigger] later[i] == kept[k];
            assert(later[i] == batch.frozen[from + 1 + i]);
            assert(batch.frozen[from].id != batch.frozen[from + 1 + i].id);
        }
        assert(kept.map_values(|s: FrozenView| (left[s.id], s)) =~= kept.map_values(pair));
        if can(first) {
            assert((seq![first] + kept).map_values(pair) =~= seq![pair(first)] + kept.map_values(
                pair,
            ));
        }
    } else {
        reveal(Seq::filter);
        assert(all =~= Seq::empty());
        assert(all.filter(can).map_values(pair) =~= Seq::empty());
    }
}

proof fn lemma_filter_first<A>(first: A, later: Seq<A>, pred: spec_fn(A) -> bool)
    ensures
        (seq![first] + later).filter(pred) == (if pred(first) {
            seq![first] + later.filter(pred)
        } else {
            later.filter(pred)
        }),
    decreases later.len(),
{
    reveal(Seq::filter);
    let all = seq![first] + later;
    if later.len() > 0 {
        let head = later.drop_last();
        lemma_filter_first(first, head, pred);
        assert(all.drop_last() =~= seq![first] + head);
        assert(all.last() == later.last());
        assert((seq![first] + head.filter(pred)).push(later.last()) =~= seq![first]
            + head.filter(pred).push(later.last()));
    } else {
        assert(all =~= seq![first]);
        assert(all.drop_last() =~= Seq::empty());
        assert(all.drop_last().filter(pred) =~= Seq::empty());
        assert(seq![first] + later.filter(pred) =~= seq![first]);
        assert(Seq::empty().push(first) =~= seq![first]);
    }
}

proof fn lemma_filter_same<A>(all: Seq<A>, first: spec_fn(A) -> bool, second: spec_fn(A) -> bool)
    requires
        forall|i: int| 0 <= i < all.len() ==> first(#[trigger] all[i]) == second(all[i]),
    ensures
        all.filter(first) == all.filter(second),
    decreases all.len(),
{
    reveal(Seq::filter);
    if all.len() > 0 {
        let head = all.drop_last();
        assert forall|i: int| 0 <= i < head.len() implies first(#[trigger] head[i]) == second(
            head[i],
        ) by {
            assert(head[i] == all[i]);
        }
        lemma_filter_same(head, first, second);
        assert(first(all[all.len() - 1]) == second(all[all.len() - 1]));
    }
}

/// A session that is asked to freeze has five seconds to answer.
pub proof fn law_how_long_freezing_may_take()
    ensures
        FREEZE_REPLY_TIMEOUT_SECS == 5,
{
}

} // verus!
