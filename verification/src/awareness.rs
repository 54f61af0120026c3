//! The awareness service: who is present, who attends to what, and for how
//! long.

use vstd::prelude::*;

use crate::caller::Actor;
use crate::lists::{first_problem, lemma_filter_next, lemma_first_problem_grows, or_else, reports};
use crate::semantic_targets::{
    gesture, gesture_over, id_problem, message_problem, normalize_message, normalized_message,
    participant_from_actor, participant_of, ref_views, target_views, validate_id, Attention,
    AttentionMode, AttentionView, Participant, ParticipantKind, ParticipantView, RefView,
    SemanticTarget, SemanticTargetRef, TargetView, ACTIVE_LEASE_MS, MAX_ATTENTION_TARGETS,
    PRESENCE_LEASE_MS,
};
use crate::text::{
    before, blank, concat3, concat5, copy_texts, debug_quote, debug_text, decimal, is_blank,
    list_contains, opt_text, same, text_before, texts, to_decimal,
};

verus! {

// What the surface says of a target.

/// What the surface says of one target.
#[derive(Debug, PartialEq, Eq)]
pub enum Lookup {
    Found(SemanticTarget),
    Missing,
    Failed(String),
}

/// A lookup in contracts.
pub enum LookupView {
    Found(TargetView),
    Missing,
    Failed(Seq<char>),
}

impl View for Lookup {
    type V = LookupView;

    open spec fn view(&self) -> LookupView {
        match self {
            Lookup::Found(target) => LookupView::Found(target@),
            Lookup::Missing => LookupView::Missing,
            Lookup::Failed(message) => LookupView::Failed(message@),
        }
    }
}

/// What a surface that only knows a phrase for an id says of a target: the phrase
/// is both its label and its description.
pub fn semantic_target(target: &SemanticTargetRef, resolved: Result<Option<String>, String>) -> (
    lookup: Lookup)
    ensures
        lookup@ == (match resolved {
            Ok(Some(phrase)) => LookupView::Found(
                TargetView {
                    target: target@,
                    label: phrase@,
                    description: phrase@,
                    spatial: false,
                },
            ),
            Ok(None) => LookupView::Missing,
            Err(message) => LookupView::Failed(message@),
        }),
{
    match resolved {
        Ok(Some(phrase)) => Lookup::Found(SemanticTarget::new(target.copy(), &phrase, &phrase)),
        Ok(None) => Lookup::Missing,
        Err(message) => Lookup::Failed(message),
    }
}

/// What a surface says of a target: what its state says, and nothing where the
/// target is in none of the surface's own namespaces.
pub fn resolve_semantic_target(
    namespaces: &Vec<String>,
    target: &SemanticTargetRef,
    answer: Lookup,
) -> (lookup: Lookup)
    ensures
        lookup@ == (if texts(namespaces@).contains(target@.extension_id) {
            answer@
        } else {
            LookupView::Missing
        }),
{
    if crate::text::list_contains(namespaces, &target.extension_id) {
        answer
    } else {
        Lookup::Missing
    }
}

/// What the surface says of each target at one moment. A target that is not
/// listed does not exist.
pub struct Directory {
    entries: Vec<(SemanticTargetRef, Lookup)>,
}

impl View for Directory {
    type V = Seq<(RefView, LookupView)>;

    closed spec fn view(&self) -> Seq<(RefView, LookupView)> {
        Seq::new(self.entries@.len(), |i: int| (self.entries@[i].0@, self.entries@[i].1@))
    }
}

/// What a directory says of one target.
pub open spec fn answer(directory: Seq<(RefView, LookupView)>, target: RefView) -> LookupView
    decreases directory.len(),
{
    if directory.len() == 0 {
        LookupView::Missing
    } else if directory[0].0 == target {
        directory[0].1
    } else {
        answer(directory.skip(1), target)
    }
}

impl Directory {
    /// A directory without targets.
    pub fn new() -> (directory: Directory)
        ensures
            directory@ == Seq::<(RefView, LookupView)>::empty(),
    {
        let directory: Directory = Directory { entries: Vec::new() };
        proof {
            assert(directory@ =~= Seq::<(RefView, LookupView)>::empty());
        }
        directory
    }

    /// Adds what the surface says of a target.
    pub fn insert(&mut self, target: SemanticTargetRef, lookup: Lookup)
        ensures
            final(self)@ == old(self)@.push((target@, lookup@)),
    {
        let ghost before = self@;
        self.entries.push((target, lookup));
        proof {
            assert(self@ =~= before.push((target@, lookup@)));
        }
    }

    /// What the directory says of a target, where it lists it.
    pub fn lookup(&self, target: &SemanticTargetRef) -> (result: Option<&Lookup>)
        ensures
            match result {
                Some(lookup) => lookup@ == answer(self@, target@),
                None => answer(self@, target@) is Missing,
            },
    {
        let mut i: usize = 0;
        proof {
            assert(self@.skip(0) =~= self@);
        }
        while i < self.entries.len()
            invariant
                i <= self.entries@.len(),
                self@.len() == self.entries@.len(),
                answer(self@, target@) == answer(self@.skip(i as int), target@),
            decreases self.entries@.len() - i,
        {
            proof {
                assert(self@.skip(i as int)[0] == self@[i as int]);
                assert(self@.skip(i as int).skip(1) =~= self@.skip(i + 1));
            }
            if self.entries[i].0.is(target) {
                return Some(&self.entries[i].1);
            }
            i += 1;
        }
        None
    }
}

// Leases.

/// A moment some milliseconds on.
pub open spec fn later(now: u64, lease: u64) -> u64 {
    if now + lease > u64::MAX {
        u64::MAX
    } else {
        (now + lease) as u64
    }
}

/// What is left of a lease.
pub open spec fn left_of(until: u64, now: u64) -> u64 {
    if until > now {
        (until - now) as u64
    } else {
        0
    }
}

/// A participant, what they attend to, and until when.
pub struct LeasedAttention {
    participant: Participant,
    attention: Option<Attention>,
    active_until: u64,
    present_until: u64,
    sequence: u64,
}

/// A lease in contracts.
#[verifier::ext_equal]
pub struct RecordView {
    pub participant: ParticipantView,
    pub attention: Option<AttentionView>,
    pub active_until: u64,
    pub present_until: u64,
    pub sequence: u64,
}

pub open spec fn opt_attention(attention: Option<Attention>) -> Option<AttentionView> {
    match attention {
        Some(attention) => Some(attention@),
        None => None,
    }
}

impl View for LeasedAttention {
    type V = RecordView;

    closed spec fn view(&self) -> RecordView {
        RecordView {
            participant: self.participant@,
            attention: opt_attention(self.attention),
            active_until: self.active_until,
            present_until: self.present_until,
            sequence: self.sequence,
        }
    }
}

pub open spec fn record_views(records: Seq<LeasedAttention>) -> Seq<RecordView> {
    Seq::new(records.len(), |i: int| records[i]@)
}

/// The records with one more, in the place of the same participant's own.
pub open spec fn put(records: Seq<RecordView>, record: RecordView) -> Seq<RecordView>
    decreases records.len(),
{
    if records.len() == 0 {
        records.push(record)
    } else if records.last().participant.is(record.participant) {
        records.drop_last().push(record)
    } else if records.last().participant.before(record.participant) {
        records.push(record)
    } else {
        put(records.drop_last(), record).push(records.last())
    }
}

/// A participant's own record.
pub open spec fn record_of(records: Seq<RecordView>, participant: ParticipantView) -> Option<
    RecordView,
>
    decreases records.len(),
{
    if records.len() == 0 {
        None
    } else if records.last().participant.is(participant) {
        Some(records.last())
    } else {
        record_of(records.drop_last(), participant)
    }
}

/// Which records are of other participants.
pub open spec fn of_others(participant: ParticipantView) -> spec_fn(RecordView) -> bool {
    |record: RecordView| !record.participant.is(participant)
}

/// Which records are of participants who are present.
pub open spec fn is_present(now: u64) -> spec_fn(RecordView) -> bool {
    |record: RecordView| record.present_until > now
}

/// The targets that still exist, in order, as they are now.
pub open spec fn survivors(
    targets: Seq<TargetView>,
    directory: Seq<(RefView, LookupView)>,
) -> Seq<TargetView>
    decreases targets.len(),
{
    if targets.len() == 0 {
        Seq::empty()
    } else {
        let rest = survivors(targets.drop_last(), directory);
        match answer(directory, targets.last().target) {
            LookupView::Found(found) => if found.target == targets.last().target {
                rest.push(found)
            } else {
                rest
            },
            _ => rest,
        }
    }
}

/// A record with only the targets that still exist. Where none does, the
/// participant is merely present.
pub open spec fn refreshed(
    record: RecordView,
    directory: Seq<(RefView, LookupView)>,
    now: u64,
) -> RecordView {
    match record.attention {
        None => record,
        Some(attention) => {
            let left = survivors(attention.targets(), directory);
            if left.len() == 0 {
                RecordView { attention: None, active_until: now, ..record }
            } else {
                RecordView {
                    attention: Some(gesture(attention.mode, left, attention.message)),
                    ..record
                }
            }
        },
    }
}

/// The records of those who are present, with the targets that still exist.
pub open spec fn cleaned(
    records: Seq<RecordView>,
    directory: Seq<(RefView, LookupView)>,
    now: u64,
) -> Seq<RecordView> {
    records.filter(is_present(now)).map_values(
        |record: RecordView| refreshed(record, directory, now),
    )
}

// Snapshots.

/// One participant, as browsers and agents are shown them.
#[derive(Debug, PartialEq, Eq)]
pub struct ParticipantAwareness {
    pub participant: Participant,
    /// `active` or `present`.
    pub status: &'static str,
    pub present: bool,
    pub active: bool,
    pub active_for_ms: u64,
    pub present_for_ms: u64,
    pub attention: Option<Attention>,
}

/// One participant's awareness in contracts.
#[verifier::ext_equal]
pub struct AwarenessView {
    pub participant: ParticipantView,
    pub status: Seq<char>,
    pub present: bool,
    pub active: bool,
    pub active_for_ms: u64,
    pub present_for_ms: u64,
    pub attention: Option<AttentionView>,
}

impl View for ParticipantAwareness {
    type V = AwarenessView;

    open spec fn view(&self) -> AwarenessView {
        AwarenessView {
            participant: self.participant@,
            status: self.status@,
            present: self.present,
            active: self.active,
            active_for_ms: self.active_for_ms,
            present_for_ms: self.present_for_ms,
            attention: opt_attention(self.attention),
        }
    }
}

pub open spec fn awareness_views(list: Seq<ParticipantAwareness>) -> Seq<AwarenessView> {
    Seq::new(list.len(), |i: int| list[i]@)
}

impl RecordView {
    /// Whether the participant attends to something now.
    pub open spec fn active(self, now: u64) -> bool {
        self.active_until > now && self.attention is Some
    }

    /// The participant, as browsers and agents are shown them.
    pub open spec fn shown(self, now: u64) -> AwarenessView {
        AwarenessView {
            participant: self.participant,
            status: if self.active(now) {
                "active"@
            } else {
                "present"@
            },
            present: true,
            active: self.active(now),
            active_for_ms: left_of(self.active_until, now),
            present_for_ms: left_of(self.present_until, now),
            attention: if self.active(now) {
                self.attention
            } else {
                None
            },
        }
    }
}

/// The whole of the awareness at one moment.
#[derive(Debug, PartialEq, Eq)]
pub struct AttentionSnapshot {
    pub schema_version: u32,
    /// A reminder that this state authorizes nothing.
    pub authority: &'static str,
    pub durable: bool,
    pub participants: Vec<ParticipantAwareness>,
}

/// A snapshot in contracts.
#[verifier::ext_equal]
pub struct SnapshotView {
    pub schema_version: u32,
    pub authority: Seq<char>,
    pub durable: bool,
    pub participants: Seq<AwarenessView>,
}

impl View for AttentionSnapshot {
    type V = SnapshotView;

    open spec fn view(&self) -> SnapshotView {
        SnapshotView {
            schema_version: self.schema_version,
            authority: self.authority@,
            durable: self.durable,
            participants: awareness_views(self.participants@),
        }
    }
}

/// Which records are active.
pub open spec fn is_active(now: u64) -> spec_fn(RecordView) -> bool {
    |record: RecordView| record.active(now)
}

/// Which records are not.
pub open spec fn is_idle(now: u64) -> spec_fn(RecordView) -> bool {
    |record: RecordView| !record.active(now)
}

/// The participants as they are shown: those who attend to something first.
pub open spec fn shown_order(records: Seq<RecordView>, now: u64) -> Seq<AwarenessView> {
    (records.filter(is_active(now)) + records.filter(is_idle(now))).map_values(
        |record: RecordView| record.shown(now),
    )
}

/// The snapshot of some records.
pub open spec fn snapshot_of(records: Seq<RecordView>, now: u64) -> SnapshotView {
    SnapshotView {
        schema_version: 1,
        authority: "context_only"@,
        durable: false,
        participants: shown_order(records, now),
    }
}

/// Which gestures are asked for.
pub enum Sought<'a> {
    Any,
    Matching { mode: AttentionMode, extension_id: &'a str },
}

/// Which gestures are asked for, in contracts.
pub enum SoughtView {
    Any,
    Matching { mode: AttentionMode, extension_id: Seq<char> },
}

impl SoughtView {
    pub open spec fn admits(self, attention: AttentionView) -> bool {
        match self {
            SoughtView::Any => true,
            SoughtView::Matching { mode, extension_id } => attention.mode == mode
                && attention.target.target.extension_id == extension_id,
        }
    }
}

impl<'a> View for Sought<'a> {
    type V = SoughtView;

    open spec fn view(&self) -> SoughtView {
        match self {
            Sought::Any => SoughtView::Any,
            Sought::Matching { mode, extension_id } => SoughtView::Matching {
                mode: *mode,
                extension_id: extension_id@,
            },
        }
    }
}

/// Whether a record is a live gesture of the kind of participant asked for.
pub open spec fn sought_in(
    record: RecordView,
    kind: ParticipantKind,
    sought: SoughtView,
    now: u64,
) -> bool {
    &&& record.participant.kind == kind
    &&& record.active_until > now
    &&& record.attention matches Some(attention) && sought.admits(attention)
}

/// The newest live gesture of one kind of participant.
pub open spec fn newest(
    records: Seq<RecordView>,
    kind: ParticipantKind,
    sought: SoughtView,
    now: u64,
) -> Option<RecordView>
    decreases records.len(),
{
    if records.len() == 0 {
        None
    } else {
        let best = newest(records.drop_last(), kind, sought, now);
        let last = records.last();
        if sought_in(last, kind, sought, now) && (best matches Some(other) ==> last.sequence
            >= other.sequence) {
            Some(last)
        } else {
            best
        }
    }
}

// The service.

/// The awareness service.
pub struct SemanticTargetService {
    namespaces: Vec<String>,
    sequence: u64,
    human_sequence: u64,
    awareness: Vec<LeasedAttention>,
    current_participant: Participant,
}

/// The service in contracts.
#[verifier::ext_equal]
pub struct ServiceView {
    /// The extensions whose targets are known, in order.
    pub namespaces: Seq<Seq<char>>,
    /// How many gestures there have been.
    pub sequence: u64,
    /// The revision of the people's gestures.
    pub human_sequence: u64,
    pub records: Seq<RecordView>,
    /// Who calls the action that runs.
    pub current: ParticipantView,
}

impl View for SemanticTargetService {
    type V = ServiceView;

    closed spec fn view(&self) -> ServiceView {
        ServiceView {
            namespaces: texts(self.namespaces@),
            sequence: self.sequence,
            human_sequence: self.human_sequence,
            records: record_views(self.awareness@),
            current: self.current_participant@,
        }
    }
}

/// Whether the records stand in order, each participant once.
pub open spec fn in_order(records: Seq<RecordView>) -> bool {
    forall|i: int, j: int|
        0 <= i < j < records.len() ==> (#[trigger] records[i]).participant.before(
            (#[trigger] records[j]).participant,
        )
}

/// A sorted list of texts with one more.
pub open spec fn insert_text(sorted: Seq<Seq<char>>, text: Seq<char>) -> Seq<Seq<char>>
    decreases sorted.len(),
{
    if sorted.len() == 0 || !text_before(text, sorted.last()) {
        sorted.push(text)
    } else {
        insert_text(sorted.drop_last(), text).push(sorted.last())
    }
}

/// Texts in order.
pub open spec fn sorted_texts(list: Seq<Seq<char>>) -> Seq<Seq<char>>
    decreases list.len(),
{
    if list.len() == 0 {
        Seq::empty()
    } else {
        insert_text(sorted_texts(list.drop_last()), list.last())
    }
}

/// Why the namespace at one place is not accepted.
pub open spec fn namespace_problem(namespaces: Seq<Seq<char>>, i: int) -> Option<Seq<char>> {
    or_else(
        id_problem("semantic target namespace"@, namespaces[i]),
        if namespaces.take(i).contains(namespaces[i]) {
            Some(
                "semantic target namespace "@ + debug_text(namespaces[i])
                    + " is registered more than once"@,
            )
        } else {
            None
        },
    )
}

/// Why some namespaces are not accepted.
pub open spec fn namespaces_problem(namespaces: Seq<Seq<char>>) -> Option<Seq<char>> {
    first_problem(namespaces.len(), |i: int| namespace_problem(namespaces, i))
}

/// What resolving a target gives.
pub open spec fn resolution(
    namespaces: Seq<Seq<char>>,
    directory: Seq<(RefView, LookupView)>,
    target: RefView,
) -> Result<TargetView, Seq<char>> {
    if target.problem() is Some {
        Err(target.problem()->0)
    } else if !namespaces.contains(target.extension_id) {
        Err(
            "semantic target namespace "@ + debug_text(target.extension_id)
                + " is not registered"@,
        )
    } else {
        match answer(directory, target) {
            LookupView::Failed(message) => Err(message),
            LookupView::Missing => Err(
                "semantic target "@ + target.extension_id + ":"@ + target.target_id
                    + " does not exist"@,
            ),
            LookupView::Found(found) => if found.target != target {
                Err(
                    "semantic target resolver for "@ + debug_text(target.extension_id)
                        + " returned a different id"@,
                )
            } else if blank(found.label) || blank(found.description) {
                Err(
                    "semantic target "@ + target.extension_id + ":"@ + target.target_id
                        + " resolved without label and description"@,
                )
            } else {
                Ok(found)
            },
        }
    }
}

/// What resolving a set of targets gives: each once, in order, or the first
/// failure.
pub open spec fn resolutions(
    namespaces: Seq<Seq<char>>,
    directory: Seq<(RefView, LookupView)>,
    refs: Seq<RefView>,
) -> Result<Seq<TargetView>, Seq<char>>
    decreases refs.len(),
{
    if refs.len() == 0 {
        Ok(Seq::empty())
    } else {
        match resolutions(namespaces, directory, refs.drop_last()) {
            Err(message) => Err(message),
            Ok(done) => if refs.drop_last().contains(refs.last()) {
                Ok(done)
            } else {
                match resolution(namespaces, directory, refs.last()) {
                    Err(message) => Err(message),
                    Ok(target) => Ok(done.push(target)),
                }
            },
        }
    }
}

proof fn lemma_resolutions_fail(
    namespaces: Seq<Seq<char>>,
    directory: Seq<(RefView, LookupView)>,
    refs: Seq<RefView>,
    n: int,
)
    requires
        0 <= n <= refs.len(),
        resolutions(namespaces, directory, refs.take(n)) is Err,
    ensures
        resolutions(namespaces, directory, refs) == resolutions(
            namespaces,
            directory,
            refs.take(n),
        ),
    decreases refs.len() - n,
{
    if n == refs.len() {
        assert(refs.take(n) =~= refs);
    } else {
        assert(refs.take(n + 1).drop_last() =~= refs.take(n));
        lemma_resolutions_fail(namespaces, directory, refs, n + 1);
    }
}

/// Why a gesture is not accepted.
pub open spec fn gesture_problem(
    service: ServiceView,
    participant: ParticipantView,
    refs: Seq<RefView>,
    message: Option<Seq<char>>,
    directory: Seq<(RefView, LookupView)>,
) -> Option<Seq<char>> {
    if participant.problem() is Some {
        participant.problem()
    } else if message_problem(message) is Some {
        message_problem(message)
    } else if refs.len() == 0 {
        Some("attention needs at least one semantic target"@)
    } else if refs.len() > 200 {
        Some(
            "attention carries "@ + decimal(refs.len())
                + " targets, more than the 200 a single gesture may hold"@,
        )
    } else {
        match resolutions(service.namespaces, directory, refs) {
            Err(message) => Some(message),
            Ok(_) => None,
        }
    }
}

/// The revision of the people's gestures, after one of some participant's.
pub open spec fn revision_after(revision: u64, kind: ParticipantKind) -> u64 {
    if kind is Human {
        if revision == u64::MAX {
            0
        } else {
            (revision + 1) as u64
        }
    } else {
        revision
    }
}

/// The service after an accepted gesture.
pub open spec fn attended(
    service: ServiceView,
    participant: ParticipantView,
    mode: AttentionMode,
    targets: Seq<TargetView>,
    message: Option<Seq<char>>,
    directory: Seq<(RefView, LookupView)>,
    now: u64,
) -> ServiceView {
    let sequence = (service.sequence + 1) as u64;
    let record = RecordView {
        participant,
        attention: Some(gesture(mode, targets, normalized_message(message))),
        active_until: later(now, ACTIVE_LEASE_MS),
        present_until: later(now, PRESENCE_LEASE_MS),
        sequence,
    };
    ServiceView {
        sequence,
        human_sequence: revision_after(service.human_sequence, participant.kind),
        records: cleaned(put(service.records, record), directory, now),
        ..service
    }
}

/// A participant's record after a heartbeat. What they hold stays as long as
/// they do, and what is brief lapses by itself.
pub open spec fn renewed(existing: Option<RecordView>, participant: ParticipantView, now: u64) -> RecordView {
    let live = match existing {
        Some(record) => if record.active_until > now {
            record.attention
        } else {
            None
        },
        None => None,
    };
    RecordView {
        participant,
        attention: live,
        active_until: if live matches Some(attention) && attention.mode.held() {
            later(now, PRESENCE_LEASE_MS)
        } else {
            match existing {
                Some(record) => if record.active_until > now {
                    record.active_until
                } else {
                    now
                },
                None => now,
            }
        },
        present_until: later(now, PRESENCE_LEASE_MS),
        sequence: match existing {
            Some(record) => record.sequence,
            None => 0,
        },
    }
}

/// The service after a heartbeat.
pub open spec fn presented(
    service: ServiceView,
    participant: ParticipantView,
    directory: Seq<(RefView, LookupView)>,
    now: u64,
) -> ServiceView {
    ServiceView {
        records: cleaned(
            put(
                service.records,
                renewed(record_of(service.records, participant), participant, now),
            ),
            directory,
            now,
        ),
        ..service
    }
}

/// The service after a participant let go of what they attended to.
pub open spec fn cleared(
    service: ServiceView,
    participant: ParticipantView,
    directory: Seq<(RefView, LookupView)>,
    now: u64,
) -> ServiceView {
    let sequence = (service.sequence + 1) as u64;
    let record = RecordView {
        participant,
        attention: None,
        active_until: now,
        present_until: later(now, PRESENCE_LEASE_MS),
        sequence,
    };
    ServiceView {
        sequence,
        human_sequence: revision_after(service.human_sequence, participant.kind),
        records: cleaned(put(service.records, record), directory, now),
        ..service
    }
}

/// The service after a participant left.
pub open spec fn departed(
    service: ServiceView,
    participant: ParticipantView,
    directory: Seq<(RefView, LookupView)>,
    now: u64,
) -> ServiceView {
    ServiceView {
        human_sequence: if record_of(service.records, participant) is Some {
            revision_after(service.human_sequence, participant.kind)
        } else {
            service.human_sequence
        },
        records: cleaned(service.records.filter(of_others(participant)), directory, now),
        ..service
    }
}

/// The names of the targets of some records, in order.
pub open spec fn refs_in(records: Seq<RecordView>) -> Seq<RefView>
    decreases records.len(),
{
    if records.len() == 0 {
        Seq::empty()
    } else {
        refs_in(records.drop_last()) + (match records.last().attention {
            Some(attention) => attention.targets().map_values(|target: TargetView| target.target),
            None => Seq::empty(),
        })
    }
}

/// What an accepted gesture gives: the targets that it carries, and what
/// everybody is shown then.
pub struct Attended {
    pub targets: Vec<SemanticTarget>,
    pub snapshot: AttentionSnapshot,
}

impl LeasedAttention {
    fn refresh(self, directory: &Directory, now: u64) -> (record: LeasedAttention)
        ensures
            record@ == refreshed(self@, directory@, now),
    {
        let LeasedAttention { participant, attention, active_until, present_until, sequence } =
            self;
        match attention {
            None => LeasedAttention {
                participant,
                attention: None,
                active_until,
                present_until,
                sequence,
            },
            Some(attention) => {
                let left: Vec<SemanticTarget> = surviving(&attention, directory);
                if left.len() == 0 {
                    return LeasedAttention {
                        participant,
                        attention: None,
                        active_until: now,
                        present_until,
                        sequence,
                    };
                }
                let attention: Attention = gesture_over(attention.mode, left, attention.message);
                LeasedAttention {
                    participant,
                    attention: Some(attention),
                    active_until,
                    present_until,
                    sequence,
                }
            },
        }
    }

    fn active(&self, now: u64) -> (active: bool)
        ensures
            active == self@.active(now),
    {
        self.active_until > now && self.attention.is_some()
    }

    fn show(&self, now: u64) -> (shown: ParticipantAwareness)
        ensures
            shown@ == self@.shown(now),
    {
        let active: bool = self.active(now);
        let attention: Option<Attention> = match &self.attention {
            Some(attention) => if active {
                Some(attention.copy())
            } else {
                None
            },
            None => None,
        };
        ParticipantAwareness {
            participant: self.participant.copy(),
            status: if active {
                "active"
            } else {
                "present"
            },
            present: true,
            active,
            active_for_ms: self.active_until.saturating_sub(now),
            present_for_ms: self.present_until.saturating_sub(now),
            attention,
        }
    }
}

/// The targets of a gesture that still exist.
fn surviving(attention: &Attention, directory: &Directory) -> (left: Vec<SemanticTarget>)
    ensures
        target_views(left@) == survivors(attention@.targets(), directory@),
{
    let targets: Vec<&SemanticTarget> = attention.targets();
    let ghost all = attention@.targets();
    let mut left: Vec<SemanticTarget> = Vec::new();
    let mut i: usize = 0;
    proof {
        assert(target_views(left@) =~= survivors(all.take(0), directory@));
    }
    while i < targets.len()
        invariant
            i <= targets@.len(),
            all == attention@.targets(),
            crate::semantic_targets::target_ref_views(targets@) == all,
            target_views(left@) == survivors(all.take(i as int), directory@),
        decreases targets@.len() - i,
    {
        let ghost before = left@;
        let target: &SemanticTarget = targets[i];
        proof {
            assert(target@ == crate::semantic_targets::target_ref_views(targets@)[i as int]);
            assert(all.take(i + 1).drop_last() =~= all.take(i as int));
            assert(all.take(i + 1).last() == target@);
        }
        match directory.lookup(&target.target) {
            Some(Lookup::Found(found)) => {
                if found.target.is(&target.target) {
                    left.push(found.copy());
                    proof {
                        assert(target_views(left@) =~= target_views(before).push(found@));
                    }
                }
            },
            _ => {},
        }
        i += 1;
    }
    proof {
        assert(all.take(i as int) =~= all);
    }
    left
}

/// Puts a record in the place of the same participant's own.
fn put_record(records: &mut Vec<LeasedAttention>, record: LeasedAttention)
    ensures
        record_views(final(records)@) == put(record_views(old(records)@), record@),
{
    let ghost all = record_views(records@);
    let mut i: usize = records.len();
    proof {
        assert(all.take(i as int) =~= all);
        assert(put(all.take(i as int), record@) + all.skip(i as int) =~= put(all, record@));
    }
    while i > 0 && !records[i - 1].participant.is(&record.participant) && !records[i
        - 1].participant.stands_before(&record.participant)
        invariant
            all == record_views(records@),
            i <= records@.len(),
            put(all, record@) == put(all.take(i as int), record@) + all.skip(i as int),
        decreases i,
    {
        proof {
            assert(records@[i - 1]@ == all[i - 1]);
            assert(all.take(i as int).drop_last() =~= all.take(i - 1));
            assert(all.take(i as int).last() == all[i - 1]);
            assert(put(all.take(i - 1), record@).push(all[i - 1]) + all.skip(i as int) =~= put(
                all.take(i - 1),
                record@,
            ) + all.skip(i - 1));
        }
        i -= 1;
    }
    if i > 0 && records[i - 1].participant.is(&record.participant) {
        proof {
            assert(records@[i - 1]@ == all[i - 1]);
            assert(all.take(i as int).last() == all[i - 1]);
        }
        records.set(i - 1, record);
        proof {
            assert(record_views(records@) =~= all.take(i as int).drop_last().push(record@)
                + all.skip(i as int));
        }
    } else {
        proof {
            if i > 0 {
                assert(records@[i - 1]@ == all[i - 1]);
                assert(all.take(i as int).last() == all[i - 1]);
            }
        }
        records.insert(i, record);
        proof {
            assert(record_views(records@) =~= all.take(i as int).push(record@) + all.skip(
                i as int,
            ));
        }
    }
}

/// Keeps those who are present, with the targets that still exist.
fn clean_records(records: Vec<LeasedAttention>, directory: &Directory, now: u64) -> (kept: Vec<
    LeasedAttention,
>)
    ensures
        record_views(kept@) == cleaned(record_views(records@), directory@, now),
{
    let ghost all = record_views(records@);
    let ghost keep = is_present(now);
    let ghost fresh = |record: RecordView| refreshed(record, directory@, now);
    let ghost mut done: int = 0;
    let mut rest: Vec<LeasedAttention> = records;
    let mut kept: Vec<LeasedAttention> = Vec::new();
    proof {
        reveal(Seq::filter);
        assert(all.skip(0) =~= all);
        assert(all.take(0).filter(keep) =~= Seq::empty());
        assert(record_views(kept@) =~= all.take(0).filter(keep).map_values(fresh));
    }
    while rest.len() > 0
        invariant
            0 <= done <= all.len(),
            done + rest@.len() == all.len(),
            record_views(rest@) == all.skip(done),
            keep == is_present(now),
            fresh == (|record: RecordView| refreshed(record, directory@, now)),
            record_views(kept@) == all.take(done).filter(keep).map_values(fresh),
        decreases rest@.len(),
    {
        let ghost before = rest@;
        let ghost earlier = kept@;
        let record: LeasedAttention = rest.remove(0);
        proof {
            assert(record_views(before)[0] == all.skip(done)[0]);
            assert(record@ == all[done]);
            assert(record_views(rest@) =~= record_views(before).skip(1));
            assert(all.skip(done).skip(1) =~= all.skip(done + 1));
            lemma_filter_next(all, keep, done);
        }
        if record.present_until > now {
            kept.push(record.refresh(directory, now));
            proof {
                assert(record_views(kept@) =~= record_views(earlier).push(fresh(all[done])));
                assert(all.take(done).filter(keep).push(all[done]).map_values(fresh)
                    =~= all.take(done).filter(keep).map_values(fresh).push(fresh(all[done])));
            }
        }
        proof {
            done = done + 1;
        }
    }
    proof {
        assert(all.take(done) =~= all);
    }
    kept
}

/// The participants as they are shown, those who attend to something first.
fn show_records(records: &Vec<LeasedAttention>, now: u64) -> (shown: Vec<ParticipantAwareness>)
    ensures
        awareness_views(shown@) == shown_order(record_views(records@), now),
{
    let ghost all = record_views(records@);
    let ghost show = |record: RecordView| record.shown(now);
    let mut shown: Vec<ParticipantAwareness> = Vec::new();
    let mut i: usize = 0;
    proof {
        reveal(Seq::filter);
        assert(awareness_views(shown@) =~= all.take(0).filter(is_active(now)).map_values(show));
    }
    while i < records.len()
        invariant
            i <= records@.len(),
            all == record_views(records@),
            show == (|record: RecordView| record.shown(now)),
            awareness_views(shown@) == all.take(i as int).filter(is_active(now)).map_values(show),
        decreases records@.len() - i,
    {
        let ghost before = shown@;
        proof {
            lemma_filter_next(all, is_active(now), i as int);
            assert(all[i as int] == records@[i as int]@);
        }
        if records[i].active(now) {
            shown.push(records[i].show(now));
            proof {
                assert(awareness_views(shown@) =~= awareness_views(before).push(show(all[i as int])));
                let kept = all.take(i as int).filter(is_active(now));
                assert(kept.push(all[i as int]).map_values(show) =~= kept.map_values(show).push(
                    show(all[i as int]),
                ));
            }
        }
        i += 1;
    }
    let ghost active = all.filter(is_active(now));
    proof {
        assert(all.take(i as int) =~= all);
    }
    let mut j: usize = 0;
    proof {
        assert(active + all.take(0).filter(is_idle(now)) =~= active) by {
            reveal(Seq::filter);
        }
    }
    while j < records.len()
        invariant
            j <= records@.len(),
            all == record_views(records@),
            active == all.filter(is_active(now)),
            show == (|record: RecordView| record.shown(now)),
            awareness_views(shown@) == (active + all.take(j as int).filter(
                is_idle(now),
            )).map_values(show),
        decreases records@.len() - j,
    {
        let ghost before = shown@;
        proof {
            lemma_filter_next(all, is_idle(now), j as int);
            assert(all[j as int] == records@[j as int]@);
        }
        if !records[j].active(now) {
            shown.push(records[j].show(now));
            proof {
                assert(awareness_views(shown@) =~= awareness_views(before).push(show(all[j as int])));
                let kept = active + all.take(j as int).filter(is_idle(now));
                assert(active + all.take(j as int).filter(is_idle(now)).push(all[j as int])
                    =~= kept.push(all[j as int]));
                assert(kept.push(all[j as int]).map_values(show) =~= kept.map_values(show).push(
                    show(all[j as int]),
                ));
            }
        }
        j += 1;
    }
    proof {
        assert(all.take(j as int) =~= all);
    }
    shown
}

/// Puts a text into a sorted list.
fn put_text(sorted: &mut Vec<String>, text: String)
    ensures
        texts(final(sorted)@) == insert_text(texts(old(sorted)@), text@),
{
    let ghost all = texts(sorted@);
    let mut i: usize = sorted.len();
    proof {
        assert(all.take(i as int) =~= all);
        assert(insert_text(all.take(i as int), text@) + all.skip(i as int) =~= insert_text(
            all,
            text@,
        ));
    }
    while i > 0 && before(&text, &sorted[i - 1])
        invariant
            all == texts(sorted@),
            i <= sorted@.len(),
            insert_text(all, text@) == insert_text(all.take(i as int), text@) + all.skip(
                i as int,
            ),
        decreases i,
    {
        proof {
            assert(all.take(i as int).drop_last() =~= all.take(i - 1));
            assert(all.take(i as int).last() == all[i - 1]);
            assert(insert_text(all.take(i - 1), text@).push(all[i - 1]) + all.skip(i as int)
                =~= insert_text(all.take(i - 1), text@) + all.skip(i - 1));
        }
        i -= 1;
    }
    proof {
        if i > 0 {
            assert(all.take(i as int).last() == sorted@[i - 1]@);
        }
    }
    sorted.insert(i, text);
    proof {
        assert(texts(sorted@) =~= all.take(i as int).push(text@) + all.skip(i as int));
    }
}

/// The service over some extensions before anything was asked of it.
pub open spec fn new_service(namespaces: Seq<Seq<char>>) -> ServiceView {
    ServiceView {
        namespaces: sorted_texts(namespaces),
        sequence: 0,
        human_sequence: 0,
        records: Seq::empty(),
        current: ParticipantView {
            id: "surface-agent"@,
            label: "Agent"@,
            kind: ParticipantKind::Agent,
        },
    }
}

impl SemanticTargetService {
    /// The service over some extensions. Each has to be named as an id, and
    /// once.
    pub fn new(namespaces: &Vec<String>) -> (result: Result<SemanticTargetService, String>)
        ensures
            reports(result, namespaces_problem(texts(namespaces@))),
            result matches Ok(service) ==> service@ == new_service(texts(namespaces@)),
    {
        let ghost all = texts(namespaces@);
        let ghost problem = |i: int| namespace_problem(all, i);
        let mut registered: Vec<String> = Vec::new();
        let mut i: usize = 0;
        proof {
            assert(texts(registered@) =~= sorted_texts(all.take(0)));
        }
        while i < namespaces.len()
            invariant
                i <= namespaces@.len(),
                all == texts(namespaces@),
                problem == (|i: int| namespace_problem(all, i)),
                first_problem(i as nat, problem) is None,
                texts(registered@) == sorted_texts(all.take(i as int)),
            decreases namespaces@.len() - i,
        {
            let namespace: &String = &namespaces[i];
            match validate_id("semantic target namespace", namespace) {
                Err(message) => {
                    proof {
                        assert(problem(i as int) == Some(message@));
                        lemma_first_problem_grows((i + 1) as nat, all.len(), problem);
                    }
                    return Err(message);
                },
                Ok(()) => {},
            }
            let known: bool = named_before(namespaces, i);
            if known {
                let message: String = concat3(
                    "semantic target namespace ",
                    &debug_quote(namespace),
                    " is registered more than once",
                );
                proof {
                    assert(problem(i as int) == Some(message@));
                    lemma_first_problem_grows((i + 1) as nat, all.len(), problem);
                }
                return Err(message);
            }
            proof {
                assert(problem(i as int) is None);
                assert(all.take(i + 1).drop_last() =~= all.take(i as int));
                assert(all.take(i + 1).last() == namespace@);
            }
            put_text(&mut registered, namespace.clone());
            i += 1;
        }
        proof {
            assert(all.take(i as int) =~= all);
        }
        let service: SemanticTargetService = SemanticTargetService {
            namespaces: registered,
            sequence: 0,
            human_sequence: 0,
            awareness: Vec::new(),
            current_participant: Participant::agent("surface-agent", "Agent"),
        };
        proof {
            assert(service@.records =~= Seq::empty());
        }
        Ok(service)
    }

    /// The extensions whose targets are known, in order.
    pub fn namespaces(&self) -> (namespaces: Vec<String>)
        ensures
            texts(namespaces@) == self@.namespaces,
    {
        copy_texts(&self.namespaces)
    }

    /// Notes who calls the action that is about to run.
    pub fn note_caller(&mut self, actor: &Actor)
        ensures
            final(self)@ == (ServiceView { current: participant_of(actor@), ..old(self)@ }),
    {
        self.current_participant = participant_from_actor(actor);
    }

    /// Who calls the action that runs.
    pub fn calling_participant(&self) -> (participant: Participant)
        ensures
            participant@ == self@.current,
    {
        self.current_participant.copy()
    }

    /// The revision of the people's gestures. An agent that waits for a change
    /// is not woken by its own.
    pub fn human_attention_revision(&self) -> (revision: u64)
        ensures
            revision == self@.human_sequence,
    {
        self.human_sequence
    }

    /// Whether another gesture can be counted.
    pub fn has_room(&self) -> (room: bool)
        ensures
            room == (self@.sequence < u64::MAX),
    {
        self.sequence < u64::MAX
    }

    /// The names of all targets that somebody attends to, in order: what a
    /// directory has to list for the service to be read.
    pub fn held_targets(&self) -> (refs: Vec<SemanticTargetRef>)
        ensures
            ref_views(refs@) == refs_in(self@.records),
    {
        let ghost all = self@.records;
        let mut refs: Vec<SemanticTargetRef> = Vec::new();
        let mut i: usize = 0;
        proof {
            assert(ref_views(refs@) =~= refs_in(all.take(0)));
        }
        while i < self.awareness.len()
            invariant
                i <= self.awareness@.len(),
                all == self@.records,
                ref_views(refs@) == refs_in(all.take(i as int)),
            decreases self.awareness@.len() - i,
        {
            proof {
                assert(all.take(i + 1).drop_last() =~= all.take(i as int));
                assert(all.take(i + 1).last() == self.awareness@[i as int]@);
            }
            match &self.awareness[i].attention {
                Some(attention) => {
                    push_refs(&mut refs, attention);
                },
                None => {
                    proof {
                        assert(ref_views(refs@) + Seq::<RefView>::empty() =~= ref_views(refs@));
                    }
                },
            }
            i += 1;
        }
        proof {
            assert(all.take(i as int) =~= all);
        }
        refs
    }

    /// Resolves one target by its exact name.
    pub fn resolve(&self, target: &SemanticTargetRef, directory: &Directory) -> (result: Result<
        SemanticTarget,
        String,
    >)
        ensures
            match result {
                Ok(found) => resolution(self@.namespaces, directory@, target@) == Ok::<
                    TargetView,
                    Seq<char>,
                >(found@),
                Err(message) => resolution(self@.namespaces, directory@, target@) == Err::<
                    TargetView,
                    Seq<char>,
                >(message@),
            },
    {
        match target.validate() {
            Ok(()) => {},
            Err(message) => {
                return Err(message);
            },
        }
        if !list_contains(&self.namespaces, &target.extension_id) {
            return Err(
                concat3(
                    "semantic target namespace ",
                    &debug_quote(&target.extension_id),
                    " is not registered",
                ),
            );
        }
        match directory.lookup(target) {
            Some(Lookup::Failed(message)) => Err(message.clone()),
            Some(Lookup::Found(found)) => {
                if !found.target.is(target) {
                    return Err(
                        concat3(
                            "semantic target resolver for ",
                            &debug_quote(&target.extension_id),
                            " returned a different id",
                        ),
                    );
                }
                if is_blank(&found.label) || is_blank(&found.description) {
                    return Err(
                        concat5(
                            "semantic target ",
                            &target.extension_id,
                            ":",
                            &target.target_id,
                            " resolved without label and description",
                        ),
                    );
                }
                Ok(found.copy())
            },
            _ => Err(
                concat5(
                    "semantic target ",
                    &target.extension_id,
                    ":",
                    &target.target_id,
                    " does not exist",
                ),
            ),
        }
    }

    fn resolve_all(&self, refs: &Vec<SemanticTargetRef>, directory: &Directory) -> (result: Result<
        Vec<SemanticTarget>,
        String,
    >)
        requires
            refs@.len() > 0,
        ensures
            match result {
                Ok(targets) => resolutions(self@.namespaces, directory@, ref_views(refs@)) == Ok::<
                    Seq<TargetView>,
                    Seq<char>,
                >(target_views(targets@)) && targets@.len() > 0,
                Err(message) => resolutions(self@.namespaces, directory@, ref_views(refs@)) == Err::<
                    Seq<TargetView>,
                    Seq<char>,
                >(message@),
            },
    {
        let ghost all = ref_views(refs@);
        let ghost names = self@.namespaces;
        let mut targets: Vec<SemanticTarget> = Vec::new();
        let mut i: usize = 0;
        proof {
            assert(target_views(targets@) =~= Seq::empty());
            assert(all.take(0) =~= Seq::empty());
        }
        while i < refs.len()
            invariant
                i <= refs@.len(),
                all == ref_views(refs@),
                names == self@.namespaces,
                resolutions(names, directory@, all.take(i as int)) == Ok::<
                    Seq<TargetView>,
                    Seq<char>,
                >(target_views(targets@)),
                i > 0 ==> targets@.len() > 0,
            decreases refs@.len() - i,
        {
            proof {
                assert(all.take(i + 1).drop_last() =~= all.take(i as int));
                assert(all.take(i + 1).last() == refs@[i as int]@);
            }
            let seen: bool = pointed_before(refs, i);
            if !seen {
                match self.resolve(&refs[i], directory) {
                    Ok(target) => {
                        let ghost before = targets@;
                        targets.push(target);
                        proof {
                            assert(target_views(targets@) =~= target_views(before).push(target@));
                        }
                    },
                    Err(message) => {
                        proof {
                            lemma_resolutions_fail(names, directory@, all, i + 1);
                        }
                        return Err(message);
                    },
                }
            }
            i += 1;
        }
        proof {
            assert(all.take(i as int) =~= all);
        }
        Ok(targets)
    }

    /// Cleans the records and shows them.
    fn publish(&mut self, directory: &Directory, now: u64) -> (snapshot: AttentionSnapshot)
        ensures
            final(self)@ == (ServiceView {
                records: cleaned(old(self)@.records, directory@, now),
                ..old(self)@
            }),
            snapshot@ == snapshot_of(final(self)@.records, now),
    {
        let mut records: Vec<LeasedAttention> = Vec::new();
        core::mem::swap(&mut records, &mut self.awareness);
        self.awareness = clean_records(records, directory, now);
        AttentionSnapshot {
            schema_version: 1,
            authority: "context_only",
            durable: false,
            participants: show_records(&self.awareness, now),
        }
    }

    fn position(&self, participant: &Participant) -> (result: Option<usize>)
        ensures
            match result {
                Some(i) => i < self.awareness@.len() && record_of(
                    self@.records,
                    participant@,
                ) == Some(self.awareness@[i as int]@),
                None => record_of(self@.records, participant@) is None,
            },
    {
        let ghost all = self@.records;
        let mut i: usize = self.awareness.len();
        proof {
            assert(all.take(i as int) =~= all);
        }
        while i > 0
            invariant
                all == self@.records,
                i <= self.awareness@.len(),
                record_of(all, participant@) == record_of(all.take(i as int), participant@),
            decreases i,
        {
            proof {
                assert(all.take(i as int).drop_last() =~= all.take(i - 1));
                assert(all.take(i as int).last() == self.awareness@[i - 1]@);
            }
            if self.awareness[i - 1].participant.is(participant) {
                return Some(i - 1);
            }
            i -= 1;
        }
        None
    }

    fn note_human_change(&mut self, kind: ParticipantKind)
        ensures
            final(self)@ == (ServiceView {
                human_sequence: revision_after(old(self)@.human_sequence, kind),
                ..old(self)@
            }),
    {
        if kind == ParticipantKind::Human {
            self.human_sequence = if self.human_sequence == u64::MAX {
                0
            } else {
                self.human_sequence + 1
            };
        }
    }

    /// A heartbeat: the participant is there. What they hold is renewed, and
    /// what is brief is not.
    pub fn present(&mut self, participant: Participant, directory: &Directory, now: u64) -> (result:
        Result<AttentionSnapshot, String>)
        ensures
            reports(result, participant@.problem()),
            match result {
                Ok(snapshot) => final(self)@ == presented(
                    old(self)@,
                    participant@,
                    directory@,
                    now,
                ) && snapshot@ == snapshot_of(final(self)@.records, now),
                Err(_) => final(self)@ == old(self)@,
            },
    {
        match participant.validate() {
            Ok(()) => {},
            Err(message) => {
                return Err(message);
            },
        }
        let ghost who = participant@;
        let record: LeasedAttention = match self.position(&participant) {
            Some(i) => {
                let existing: &LeasedAttention = &self.awareness[i];
                let live: bool = existing.active_until > now;
                let attention: Option<Attention> = match &existing.attention {
                    Some(attention) => if live {
                        Some(attention.copy())
                    } else {
                        None
                    },
                    None => None,
                };
                let holds: bool = match &attention {
                    Some(attention) => attention.mode.is_held(),
                    None => false,
                };
                LeasedAttention {
                    participant,
                    attention,
                    active_until: if holds {
                        now.saturating_add(PRESENCE_LEASE_MS)
                    } else if live {
                        existing.active_until
                    } else {
                        now
                    },
                    present_until: now.saturating_add(PRESENCE_LEASE_MS),
                    sequence: existing.sequence,
                }
            },
            None => LeasedAttention {
                participant,
                attention: None,
                active_until: now,
                present_until: now.saturating_add(PRESENCE_LEASE_MS),
                sequence: 0,
            },
        };
        proof {
            assert(record@ == renewed(record_of(old(self)@.records, who), who, now));
        }
        put_record(&mut self.awareness, record);
        Ok(self.publish(directory, now))
    }

    /// One gesture over a set of targets, in the order in which it was built.
    /// The whole set resolves before any of it counts.
    pub fn attend_many(
        &mut self,
        participant: Participant,
        mode: AttentionMode,
        target_refs: &Vec<SemanticTargetRef>,
        message: Option<String>,
        directory: &Directory,
        now: u64,
    ) -> (result: Result<Attended, String>)
        requires
            old(self)@.sequence < u64::MAX,
        ensures
            reports(
                result,
                gesture_problem(
                    old(self)@,
                    participant@,
                    ref_views(target_refs@),
                    opt_text(message),
                    directory@,
                ),
            ),
            match result {
                Ok(done) => {
                    &&& resolutions(old(self)@.namespaces, directory@, ref_views(target_refs@))
                        == Ok::<Seq<TargetView>, Seq<char>>(target_views(done.targets@))
                    &&& done.targets@.len() > 0
                    &&& final(self)@ == attended(
                        old(self)@,
                        participant@,
                        mode,
                        target_views(done.targets@),
                        opt_text(message),
                        directory@,
                        now,
                    )
                    &&& done.snapshot@ == snapshot_of(final(self)@.records, now)
                },
                Err(_) => final(self)@ == old(self)@,
            },
    {
        match participant.validate() {
            Ok(()) => {},
            Err(message) => {
                return Err(message);
            },
        }
        let message: Option<String> = match normalize_message(message) {
            Ok(message) => message,
            Err(message) => {
                return Err(message);
            },
        };
        if target_refs.len() == 0 {
            return Err("attention needs at least one semantic target".to_owned());
        }
        if target_refs.len() > MAX_ATTENTION_TARGETS {
            return Err(
                concat3(
                    "attention carries ",
                    &to_decimal(target_refs.len() as u64),
                    " targets, more than the 200 a single gesture may hold",
                ),
            );
        }
        let targets: Vec<SemanticTarget> = match self.resolve_all(target_refs, directory) {
            Ok(targets) => targets,
            Err(message) => {
                return Err(message);
            },
        };
        self.sequence = self.sequence + 1;
        let kind: ParticipantKind = participant.kind;
        let copies: Vec<SemanticTarget> = crate::semantic_targets::copy_targets(&targets);
        proof {
            assert(copies@.len() == target_views(copies@).len());
        }
        let record: LeasedAttention = LeasedAttention {
            participant,
            attention: Some(gesture_over(mode, copies, message)),
            active_until: now.saturating_add(ACTIVE_LEASE_MS),
            present_until: now.saturating_add(PRESENCE_LEASE_MS),
            sequence: self.sequence,
        };
        put_record(&mut self.awareness, record);
        let snapshot: AttentionSnapshot = self.publish(directory, now);
        self.note_human_change(kind);
        Ok(Attended { targets, snapshot })
    }

    /// A gesture over one target.
    pub fn attend(
        &mut self,
        participant: Participant,
        mode: AttentionMode,
        target_ref: SemanticTargetRef,
        message: Option<String>,
        directory: &Directory,
        now: u64,
    ) -> (result: Result<SemanticTarget, String>)
        requires
            old(self)@.sequence < u64::MAX,
        ensures
            reports(
                result,
                gesture_problem(
                    old(self)@,
                    participant@,
                    Seq::empty().push(target_ref@),
                    opt_text(message),
                    directory@,
                ),
            ),
            match result {
                Ok(target) => {
                    &&& resolution(old(self)@.namespaces, directory@, target_ref@) == Ok::<
                        TargetView,
                        Seq<char>,
                    >(target@)
                    &&& final(self)@ == attended(
                        old(self)@,
                        participant@,
                        mode,
                        Seq::empty().push(target@),
                        opt_text(message),
                        directory@,
                        now,
                    )
                },
                Err(_) => final(self)@ == old(self)@,
            },
    {
        let mut refs: Vec<SemanticTargetRef> = Vec::new();
        refs.push(target_ref);
        proof {
            assert(ref_views(refs@) =~= Seq::empty().push(target_ref@));
        }
        match self.attend_many(participant, mode, &refs, message, directory, now) {
            Ok(done) => {
                let mut targets: Vec<SemanticTarget> = done.targets;
                proof {
                    reveal_with_fuel(resolutions, 2);
                    assert(ref_views(refs@).drop_last() =~= Seq::empty());
                    assert(target_views(targets@).len() == 1);
                    assert(target_views(targets@) =~= Seq::empty().push(targets@[0]@));
                    assert(target_views(targets@)[0] == targets@[0]@);
                }
                Ok(targets.remove(0))
            },
            Err(message) => Err(message),
        }
    }

    /// Lets go of what a participant attends to. They stay present.
    pub fn clear(&mut self, participant: Participant, directory: &Directory, now: u64) -> (result:
        Result<AttentionSnapshot, String>)
        requires
            old(self)@.sequence < u64::MAX,
        ensures
            reports(result, participant@.problem()),
            match result {
                Ok(snapshot) => final(self)@ == cleared(
                    old(self)@,
                    participant@,
                    directory@,
                    now,
                ) && snapshot@ == snapshot_of(final(self)@.records, now),
                Err(_) => final(self)@ == old(self)@,
            },
    {
        match participant.validate() {
            Ok(()) => {},
            Err(message) => {
                return Err(message);
            },
        }
        let kind: ParticipantKind = participant.kind;
        self.sequence = self.sequence + 1;
        let record: LeasedAttention = LeasedAttention {
            participant,
            attention: None,
            active_until: now,
            present_until: now.saturating_add(PRESENCE_LEASE_MS),
            sequence: self.sequence,
        };
        put_record(&mut self.awareness, record);
        let snapshot: AttentionSnapshot = self.publish(directory, now);
        self.note_human_change(kind);
        Ok(snapshot)
    }

    /// Removes a participant who left, without waiting for a lease.
    pub fn depart(&mut self, participant: Participant, directory: &Directory, now: u64) -> (result:
        Result<AttentionSnapshot, String>)
        ensures
            reports(result, participant@.problem()),
            match result {
                Ok(snapshot) => final(self)@ == departed(
                    old(self)@,
                    participant@,
                    directory@,
                    now,
                ) && snapshot@ == snapshot_of(final(self)@.records, now),
                Err(_) => final(self)@ == old(self)@,
            },
    {
        match participant.validate() {
            Ok(()) => {},
            Err(message) => {
                return Err(message);
            },
        }
        let removed: bool = self.position(&participant).is_some();
        let mut records: Vec<LeasedAttention> = Vec::new();
        core::mem::swap(&mut records, &mut self.awareness);
        self.awareness = drop_records(records, &participant);
        let snapshot: AttentionSnapshot = self.publish(directory, now);
        if removed {
            self.note_human_change(participant.kind);
        }
        Ok(snapshot)
    }

    /// What everybody is shown now.
    pub fn snapshot(&mut self, directory: &Directory, now: u64) -> (snapshot: AttentionSnapshot)
        ensures
            final(self)@ == (ServiceView {
                records: cleaned(old(self)@.records, directory@, now),
                ..old(self)@
            }),
            snapshot@ == snapshot_of(final(self)@.records, now),
    {
        self.publish(directory, now)
    }

    fn latest_active_where(
        &mut self,
        kind: ParticipantKind,
        sought: &Sought,
        directory: &Directory,
        now: u64,
    ) -> (result: Option<Attention>)
        ensures
            final(self)@ == (ServiceView {
                records: cleaned(old(self)@.records, directory@, now),
                ..old(self)@
            }),
            opt_attention(result) == (match newest(final(self)@.records, kind, sought@, now) {
                Some(record) => record.attention,
                None => None,
            }),
    {
        let mut records: Vec<LeasedAttention> = Vec::new();
        core::mem::swap(&mut records, &mut self.awareness);
        self.awareness = clean_records(records, directory, now);
        let ghost all = self@.records;
        let mut best: Option<usize> = None;
        let mut i: usize = 0;
        while i < self.awareness.len()
            invariant
                i <= self.awareness@.len(),
                all == self@.records,
                match best {
                    Some(b) => b < i && newest(all.take(i as int), kind, sought@, now) == Some(
                        self.awareness@[b as int]@,
                    ),
                    None => newest(all.take(i as int), kind, sought@, now) is None,
                },
            decreases self.awareness@.len() - i,
        {
            proof {
                assert(all.take(i + 1).drop_last() =~= all.take(i as int));
                assert(all.take(i + 1).last() == self.awareness@[i as int]@);
            }
            let record: &LeasedAttention = &self.awareness[i];
            let admitted: bool = match &record.attention {
                Some(attention) => match sought {
                    Sought::Any => true,
                    Sought::Matching { mode, extension_id } => attention.mode == *mode && same(
                        &attention.target.target.extension_id,
                        extension_id,
                    ),
                },
                None => false,
            };
            if admitted && record.participant.kind == kind && record.active_until > now {
                let newer: bool = match best {
                    Some(b) => record.sequence >= self.awareness[b].sequence,
                    None => true,
                };
                if newer {
                    best = Some(i);
                }
            }
            i += 1;
        }
        proof {
            assert(all.take(i as int) =~= all);
        }
        match best {
            Some(b) => match &self.awareness[b].attention {
                Some(attention) => Some(attention.copy()),
                None => None,
            },
            None => None,
        }
    }

    /// The newest live gesture of one kind of participant.
    pub fn latest_active(&mut self, kind: ParticipantKind, directory: &Directory, now: u64) -> (result:
        Option<Attention>)
        ensures
            final(self)@ == (ServiceView {
                records: cleaned(old(self)@.records, directory@, now),
                ..old(self)@
            }),
            opt_attention(result) == (match newest(
                final(self)@.records,
                kind,
                SoughtView::Any,
                now,
            ) {
                Some(record) => record.attention,
                None => None,
            }),
    {
        self.latest_active_where(kind, &Sought::Any, directory, now)
    }

    /// The newest live gesture of one mode in one extension. A newer gesture of
    /// another kind does not hide it.
    pub fn latest_active_matching(
        &mut self,
        kind: ParticipantKind,
        mode: AttentionMode,
        extension_id: &str,
        directory: &Directory,
        now: u64,
    ) -> (result: Option<Attention>)
        ensures
            final(self)@ == (ServiceView {
                records: cleaned(old(self)@.records, directory@, now),
                ..old(self)@
            }),
            opt_attention(result) == (match newest(
                final(self)@.records,
                kind,
                SoughtView::Matching { mode, extension_id: extension_id@ },
                now,
            ) {
                Some(record) => record.attention,
                None => None,
            }),
    {
        self.latest_active_where(kind, &Sought::Matching { mode, extension_id }, directory, now)
    }
}

/// Whether a namespace is named before its place.
fn named_before(namespaces: &Vec<String>, at: usize) -> (known: bool)
    requires
        at < namespaces@.len(),
    ensures
        known == texts(namespaces@).take(at as int).contains(texts(namespaces@)[at as int]),
{
    let ghost all = texts(namespaces@);
    let mut i: usize = 0;
    while i < at
        invariant
            i <= at < namespaces@.len(),
            all == texts(namespaces@),
            forall|k: int| 0 <= k < i ==> all[k] != all[at as int],
        decreases at - i,
    {
        if same(&namespaces[i], &namespaces[at]) {
            proof {
                assert(all.take(at as int)[i as int] == all[at as int]);
            }
            return true;
        }
        i += 1;
    }
    false
}

/// Whether a target is named before its place.
fn pointed_before(refs: &Vec<SemanticTargetRef>, at: usize) -> (seen: bool)
    requires
        at < refs@.len(),
    ensures
        seen == ref_views(refs@).take(at as int).contains(ref_views(refs@)[at as int]),
{
    let ghost all = ref_views(refs@);
    let mut i: usize = 0;
    while i < at
        invariant
            i <= at < refs@.len(),
            all == ref_views(refs@),
            forall|k: int| 0 <= k < i ==> all[k] != all[at as int],
        decreases at - i,
    {
        if refs[i].is(&refs[at]) {
            proof {
                assert(all.take(at as int)[i as int] == all[at as int]);
            }
            return true;
        }
        proof {
            assert(all[i as int] != all[at as int]);
        }
        i += 1;
    }
    false
}

/// Adds the names of a gesture's targets.
fn push_refs(refs: &mut Vec<SemanticTargetRef>, attention: &Attention)
    ensures
        ref_views(final(refs)@) == ref_views(old(refs)@) + attention@.targets().map_values(
            |target: TargetView| target.target,
        ),
{
    let targets: Vec<&SemanticTarget> = attention.targets();
    let ghost start = ref_views(refs@);
    let ghost names = attention@.targets().map_values(|target: TargetView| target.target);
    let mut i: usize = 0;
    proof {
        assert(start + names.take(0) =~= start);
    }
    while i < targets.len()
        invariant
            i <= targets@.len(),
            crate::semantic_targets::target_ref_views(targets@) == attention@.targets(),
            names == attention@.targets().map_values(|target: TargetView| target.target),
            ref_views(refs@) == start + names.take(i as int),
        decreases targets@.len() - i,
    {
        let ghost before = refs@;
        refs.push(targets[i].target.copy());
        proof {
            assert(names[i as int] == crate::semantic_targets::target_ref_views(
                targets@,
            )[i as int].target);
            assert(ref_views(refs@) =~= ref_views(before).push(names[i as int]));
            assert(start + names.take(i + 1) =~= (start + names.take(i as int)).push(
                names[i as int],
            ));
        }
        i += 1;
    }
    proof {
        assert(names.take(i as int) =~= names);
    }
}

/// Drops a participant's records.
fn drop_records(records: Vec<LeasedAttention>, participant: &Participant) -> (kept: Vec<
    LeasedAttention,
>)
    ensures
        record_views(kept@) == record_views(records@).filter(of_others(participant@)),
{
    let ghost all = record_views(records@);
    let ghost keep = of_others(participant@);
    let ghost mut done: int = 0;
    let mut rest: Vec<LeasedAttention> = records;
    let mut kept: Vec<LeasedAttention> = Vec::new();
    proof {
        reveal(Seq::filter);
        assert(all.skip(0) =~= all);
        assert(record_views(kept@) =~= all.take(0).filter(keep));
    }
    while rest.len() > 0
        invariant
            0 <= done <= all.len(),
            done + rest@.len() == all.len(),
            record_views(rest@) == all.skip(done),
            keep == of_others(participant@),
            record_views(kept@) == all.take(done).filter(keep),
        decreases rest@.len(),
    {
        let ghost before = rest@;
        let ghost earlier = kept@;
        let record: LeasedAttention = rest.remove(0);
        proof {
            assert(record_views(before)[0] == all.skip(done)[0]);
            assert(record@ == all[done]);
            assert(record_views(rest@) =~= record_views(before).skip(1));
            assert(all.skip(done).skip(1) =~= all.skip(done + 1));
            lemma_filter_next(all, keep, done);
        }
        if !record.participant.is(participant) {
            kept.push(record);
            proof {
                assert(record_views(kept@) =~= record_views(earlier).push(all[done]));
            }
        }
        proof {
            done = done + 1;
        }
    }
    proof {
        assert(all.take(done) =~= all);
    }
    kept
}

} // verus!
