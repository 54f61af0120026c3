//! Semantic targets and the short-lived awareness of who attends to them.
//!
//! A target is named by the extension that owns its meaning and a stable id
//! inside that extension. Awareness is context only: nothing here takes part in
//! deciding who may do what.

use vstd::prelude::*;

use crate::caller::{Actor, ActorView, Caller};
use crate::lists::{or_else, reports};
use crate::text::{
    alnum_ascii, before, chars_of, concat2, concat3, concat4, concat5, copy_opt, copy_texts,
    debug_quote, debug_text, decimal, is_alnum_ascii, join, joined, opt_text, same, text_before,
    texts, to_decimal, trim, trimmed,
};

verus! {

/// The event that carries the whole of the awareness.
pub const EVENT_NAME: &'static str = "surface.semantic-targets";

/// How long a gesture stays active, in milliseconds.
pub const ACTIVE_LEASE_MS: u64 = 30_000;

/// How long a participant stays present, in milliseconds.
pub const PRESENCE_LEASE_MS: u64 = 45_000;

/// How many targets one gesture may carry.
pub const MAX_ATTENTION_TARGETS: usize = 200;

// Validation.

/// A character that an id may hold.
pub open spec fn is_id_char(c: char) -> bool {
    is_alnum_ascii(c) || c == '.' || c == '_' || c == ':' || c == '-'
}

/// Why an id is not accepted.
pub open spec fn id_problem(label: Seq<char>, value: Seq<char>) -> Option<Seq<char>> {
    let value = trimmed(value);
    if value.len() == 0 {
        Some(label + " must not be empty"@)
    } else if value.len() > 160 {
        Some(label + " is longer than 160 characters"@)
    } else if !(forall|i: int| 0 <= i < value.len() ==> is_id_char(#[trigger] value[i])) {
        Some(
            label
                + " may contain only ASCII letters, numbers, dot, underscore, colon, and dash"@,
        )
    } else {
        None
    }
}

pub(crate) fn validate_id(label: &str, value: &str) -> (outcome: Result<(), String>)
    ensures
        reports(outcome, id_problem(label@, value@)),
{
    let id: &str = trim(value);
    if id.is_empty() {
        return Err(concat2(label, " must not be empty"));
    }
    let chars: Vec<char> = chars_of(id);
    if chars.len() > 160 {
        return Err(concat2(label, " is longer than 160 characters"));
    }
    let mut i: usize = 0;
    while i < chars.len()
        invariant
            chars@ == trimmed(value@),
            i <= chars@.len(),
            forall|k: int| 0 <= k < i ==> is_id_char(#[trigger] chars@[k]),
            chars@.len() > 0,
            chars@.len() <= 160,
        decreases chars@.len() - i,
    {
        let c: char = chars[i];
        if !(alnum_ascii(c) || c == '.' || c == '_' || c == ':' || c == '-') {
            proof {
                assert(!is_id_char(trimmed(value@)[i as int]));
            }
            return Err(
                concat2(
                    label,
                    " may contain only ASCII letters, numbers, dot, underscore, colon, and dash",
                ),
            );
        }
        i += 1;
    }
    Ok(())
}

/// A message without its outer blanks, or nothing where it says nothing.
pub open spec fn normalized_message(message: Option<Seq<char>>) -> Option<Seq<char>> {
    match message {
        Some(text) => if trimmed(text).len() == 0 {
            None
        } else {
            Some(trimmed(text))
        },
        None => None,
    }
}

/// Why a message is not accepted.
pub open spec fn message_problem(message: Option<Seq<char>>) -> Option<Seq<char>> {
    match normalized_message(message) {
        Some(text) => if text.len() > 240 {
            Some("attention message is longer than 240 characters"@)
        } else {
            None
        },
        None => None,
    }
}

pub(crate) fn normalize_message(message: Option<String>) -> (outcome: Result<Option<String>, String>)
    ensures
        reports(outcome, message_problem(opt_text(message))),
        outcome matches Ok(text) ==> opt_text(text) == normalized_message(opt_text(message)),
{
    match message {
        None => Ok(None),
        Some(message) => {
            let text: &str = trim(&message);
            if text.is_empty() {
                return Ok(None);
            }
            if text.unicode_len() > 240 {
                return Err("attention message is longer than 240 characters".to_owned());
            }
            Ok(Some(text.to_owned()))
        },
    }
}

// Targets.

/// A target's name: the extension that owns its meaning, and the id inside it.
/// The pair is the identity, never the id alone.
#[derive(Debug, PartialEq, Eq)]
pub struct SemanticTargetRef {
    pub extension_id: String,
    pub target_id: String,
}

/// A target's name in contracts.
#[verifier::ext_equal]
pub struct RefView {
    pub extension_id: Seq<char>,
    pub target_id: Seq<char>,
}

impl View for SemanticTargetRef {
    type V = RefView;

    open spec fn view(&self) -> RefView {
        RefView { extension_id: self.extension_id@, target_id: self.target_id@ }
    }
}

impl RefView {
    /// Why a target's name is not accepted.
    pub open spec fn problem(self) -> Option<Seq<char>> {
        or_else(
            id_problem("extension id"@, self.extension_id),
            id_problem("target id"@, self.target_id),
        )
    }
}

pub open spec fn ref_views(refs: Seq<SemanticTargetRef>) -> Seq<RefView> {
    Seq::new(refs.len(), |i: int| refs[i]@)
}

impl SemanticTargetRef {
    pub fn new(extension_id: &str, target_id: &str) -> (target: SemanticTargetRef)
        ensures
            target@ == (RefView { extension_id: extension_id@, target_id: target_id@ }),
    {
        SemanticTargetRef {
            extension_id: extension_id.to_owned(),
            target_id: target_id.to_owned(),
        }
    }

    pub(crate) fn validate(&self) -> (outcome: Result<(), String>)
        ensures
            reports(outcome, self@.problem()),
    {
        match validate_id("extension id", &self.extension_id) {
            Ok(()) => validate_id("target id", &self.target_id),
            Err(message) => Err(message),
        }
    }

    /// The same name again.
    pub fn copy(&self) -> (copy: SemanticTargetRef)
        ensures
            copy@ == self@,
    {
        SemanticTargetRef {
            extension_id: self.extension_id.clone(),
            target_id: self.target_id.clone(),
        }
    }

    /// Whether two names name the same target.
    pub fn is(&self, other: &SemanticTargetRef) -> (result: bool)
        ensures
            result == (self@ == other@),
    {
        same(&self.extension_id, &other.extension_id) && same(&self.target_id, &other.target_id)
    }
}

/// What a target means. It has no selector and no coordinates.
#[derive(Debug, PartialEq, Eq)]
pub struct SemanticTarget {
    pub target: SemanticTargetRef,
    pub label: String,
    pub description: String,
    pub spatial: bool,
}

/// A target in contracts.
#[verifier::ext_equal]
pub struct TargetView {
    pub target: RefView,
    pub label: Seq<char>,
    pub description: Seq<char>,
    pub spatial: bool,
}

impl View for SemanticTarget {
    type V = TargetView;

    open spec fn view(&self) -> TargetView {
        TargetView {
            target: self.target@,
            label: self.label@,
            description: self.description@,
            spatial: self.spatial,
        }
    }
}

pub open spec fn target_views(targets: Seq<SemanticTarget>) -> Seq<TargetView> {
    Seq::new(targets.len(), |i: int| targets[i]@)
}

pub open spec fn target_ref_views(targets: Seq<&SemanticTarget>) -> Seq<TargetView> {
    Seq::new(targets.len(), |i: int| targets[i]@)
}

impl SemanticTarget {
    pub fn new(target: SemanticTargetRef, label: &str, description: &str) -> (result:
        SemanticTarget)
        ensures
            result@ == (TargetView {
                target: target@,
                label: label@,
                description: description@,
                spatial: false,
            }),
    {
        SemanticTarget {
            target,
            label: label.to_owned(),
            description: description.to_owned(),
            spatial: false,
        }
    }

    /// Says whether a browser may derive a place from its own element.
    pub fn spatial(self, spatial: bool) -> (result: SemanticTarget)
        ensures
            result@ == (TargetView { spatial, ..self@ }),
    {
        SemanticTarget {
            target: self.target,
            label: self.label,
            description: self.description,
            spatial,
        }
    }

    /// The same target again.
    pub fn copy(&self) -> (copy: SemanticTarget)
        ensures
            copy@ == self@,
    {
        SemanticTarget {
            target: self.target.copy(),
            label: self.label.clone(),
            description: self.description.clone(),
            spatial: self.spatial,
        }
    }
}

pub(crate) fn copy_targets(targets: &Vec<SemanticTarget>) -> (copy: Vec<SemanticTarget>)
    ensures
        target_views(copy@) == target_views(targets@),
{
    let mut copy: Vec<SemanticTarget> = Vec::new();
    let mut i: usize = 0;
    while i < targets.len()
        invariant
            i <= targets@.len(),
            target_views(copy@) == target_views(targets@).take(i as int),
        decreases targets@.len() - i,
    {
        let ghost before = copy@;
        copy.push(targets[i].copy());
        proof {
            assert(target_views(copy@) =~= target_views(before).push(targets@[i as int]@));
            assert(target_views(targets@).take(i + 1) =~= target_views(targets@).take(i as int).push(
                targets@[i as int]@,
            ));
        }
        i += 1;
    }
    proof {
        assert(target_views(targets@).take(i as int) =~= target_views(targets@));
    }
    copy
}

// What a set of targets reads as.

/// The targets' labels, without outer blanks.
pub open spec fn labels_of(targets: Seq<TargetView>) -> Seq<Seq<char>> {
    Seq::new(targets.len(), |i: int| trimmed(targets[i].label))
}

/// One phrase for a set of labels, the count first.
pub open spec fn anchor_label_of(labels: Seq<Seq<char>>) -> Seq<char> {
    if labels.len() == 0 {
        Seq::empty()
    } else if labels.len() == 1 {
        labels[0]
    } else if labels.len() <= 3 {
        decimal(labels.len()) + " selected: "@ + joined(labels, ", "@)
    } else {
        decimal(labels.len()) + " selected: "@ + joined(labels.take(3), ", "@) + (", and "@
            + decimal((labels.len() - 3) as nat) + " more"@)
    }
}

fn take_texts(list: &Vec<String>, count: usize) -> (taken: Vec<String>)
    requires
        count <= list@.len(),
    ensures
        texts(taken@) == texts(list@).take(count as int),
{
    let mut taken: Vec<String> = Vec::new();
    let mut i: usize = 0;
    while i < count
        invariant
            i <= count <= list@.len(),
            taken@.len() == i,
            forall|k: int| 0 <= k < i ==> (#[trigger] taken@[k])@ == list@[k]@,
        decreases count - i,
    {
        taken.push(list[i].clone());
        i += 1;
    }
    proof {
        assert(texts(taken@) =~= texts(list@).take(count as int));
    }
    taken
}

fn anchor_label(labels: &Vec<String>) -> (label: String)
    ensures
        label@ == anchor_label_of(texts(labels@)),
{
    let count: usize = labels.len();
    if count == 0 {
        let label: String = String::new();
        proof {
            assert(label@ =~= Seq::empty());
        }
        return label;
    }
    if count == 1 {
        return labels[0].clone();
    }
    if count <= 3 {
        return concat3(&to_decimal(count as u64), " selected: ", &join(labels, ", "));
    }
    let tail: String = concat3(", and ", &to_decimal((count - 3) as u64), " more");
    concat4(
        &to_decimal(count as u64),
        " selected: ",
        &join(&take_texts(labels, 3), ", "),
        &tail,
    )
}

/// What the conversation's composer shows of a gesture: the whole of it, the
/// first member first.
#[derive(Debug, PartialEq, Eq)]
pub struct ComposerAnchor {
    pub target: SemanticTargetRef,
    pub label: String,
    pub count: usize,
    pub labels: Vec<String>,
}

/// An anchor in contracts.
#[verifier::ext_equal]
pub struct AnchorView {
    pub target: RefView,
    pub label: Seq<char>,
    pub count: nat,
    pub labels: Seq<Seq<char>>,
}

impl View for ComposerAnchor {
    type V = AnchorView;

    open spec fn view(&self) -> AnchorView {
        AnchorView {
            target: self.target@,
            label: self.label@,
            count: self.count as nat,
            labels: texts(self.labels@),
        }
    }
}

/// The anchor over some targets.
pub open spec fn anchor_over(targets: Seq<TargetView>) -> AnchorView {
    AnchorView {
        target: targets[0].target,
        label: anchor_label_of(labels_of(targets)),
        count: targets.len(),
        labels: labels_of(targets),
    }
}

impl ComposerAnchor {
    /// The anchor for one whole gesture.
    pub fn over(targets: &Vec<&SemanticTarget>) -> (anchor: ComposerAnchor)
        requires
            targets@.len() > 0,
        ensures
            anchor@ == anchor_over(target_ref_views(targets@)),
    {
        let mut labels: Vec<String> = Vec::new();
        let mut i: usize = 0;
        while i < targets.len()
            invariant
                i <= targets@.len(),
                labels@.len() == i,
                forall|k: int| 0 <= k < i ==> (#[trigger] labels@[k])@ == trimmed(targets@[k].label@),
            decreases targets@.len() - i,
        {
            labels.push(trim(&targets[i].label).to_owned());
            i += 1;
        }
        proof {
            assert(texts(labels@) =~= labels_of(target_ref_views(targets@)));
        }
        ComposerAnchor {
            target: targets[0].target.copy(),
            label: anchor_label(&labels),
            count: labels.len(),
            labels,
        }
    }

    /// The same anchor again.
    pub fn copy(&self) -> (copy: ComposerAnchor)
        ensures
            copy@ == self@,
    {
        ComposerAnchor {
            target: self.target.copy(),
            label: self.label.clone(),
            count: self.count,
            labels: copy_texts(&self.labels),
        }
    }
}

// Participants.

/// A person or an agent: values of one shape.
#[derive(Clone, Copy, Debug, PartialEq, Eq, Structural)]
pub enum ParticipantKind {
    Human,
    Agent,
}

impl ParticipantKind {
    /// The kind in what agents read.
    pub open spec fn name(self) -> Seq<char> {
        match self {
            ParticipantKind::Human => "Human"@,
            ParticipantKind::Agent => "Agent"@,
        }
    }

    /// The kind on the wire.
    pub open spec fn word(self) -> Seq<char> {
        match self {
            ParticipantKind::Human => "human"@,
            ParticipantKind::Agent => "agent"@,
        }
    }

    pub(crate) fn title(self) -> (name: &'static str)
        ensures
            name@ == self.name(),
    {
        match self {
            ParticipantKind::Human => "Human",
            ParticipantKind::Agent => "Agent",
        }
    }

    /// The kind on the wire.
    pub fn wire_name(self) -> (name: &'static str)
        ensures
            name@ == self.word(),
    {
        match self {
            ParticipantKind::Human => "human",
            ParticipantKind::Agent => "agent",
        }
    }
}

/// Who somebody is, as context: it grants nothing.
#[derive(Debug, PartialEq, Eq)]
pub struct Participant {
    pub id: String,
    pub label: String,
    pub kind: ParticipantKind,
}

/// A participant in contracts.
#[verifier::ext_equal]
pub struct ParticipantView {
    pub id: Seq<char>,
    pub label: Seq<char>,
    pub kind: ParticipantKind,
}

impl View for Participant {
    type V = ParticipantView;

    open spec fn view(&self) -> ParticipantView {
        ParticipantView { id: self.id@, label: self.label@, kind: self.kind }
    }
}

impl ParticipantView {
    /// Why a participant is not accepted.
    pub open spec fn problem(self) -> Option<Seq<char>> {
        or_else(
            id_problem("participant id"@, self.id),
            if trimmed(self.label).len() == 0 {
                Some("participant label must not be empty"@)
            } else if self.label.len() > 120 {
                Some("participant label is longer than 120 characters"@)
            } else {
                None
            },
        )
    }

    /// Whether two participants are the same one.
    pub open spec fn is(self, other: ParticipantView) -> bool {
        self.kind == other.kind && self.id == other.id
    }

    /// Whether a participant stands before another: people before agents, and
    /// then by id.
    pub open spec fn before(self, other: ParticipantView) -> bool {
        if self.kind == other.kind {
            text_before(self.id, other.id)
        } else {
            self.kind is Human
        }
    }
}

impl Participant {
    pub fn human(id: &str, label: &str) -> (participant: Participant)
        ensures
            participant@ == (ParticipantView {
                id: id@,
                label: label@,
                kind: ParticipantKind::Human,
            }),
    {
        Participant { id: id.to_owned(), label: label.to_owned(), kind: ParticipantKind::Human }
    }

    pub fn agent(id: &str, label: &str) -> (participant: Participant)
        ensures
            participant@ == (ParticipantView {
                id: id@,
                label: label@,
                kind: ParticipantKind::Agent,
            }),
    {
        Participant { id: id.to_owned(), label: label.to_owned(), kind: ParticipantKind::Agent }
    }

    pub(crate) fn validate(&self) -> (outcome: Result<(), String>)
        ensures
            reports(outcome, self@.problem()),
    {
        match validate_id("participant id", &self.id) {
            Ok(()) => {},
            Err(message) => {
                return Err(message);
            },
        }
        if trim(&self.label).is_empty() {
            return Err("participant label must not be empty".to_owned());
        }
        if self.label.as_str().unicode_len() > 120 {
            return Err("participant label is longer than 120 characters".to_owned());
        }
        Ok(())
    }

    /// The same participant again.
    pub fn copy(&self) -> (copy: Participant)
        ensures
            copy@ == self@,
    {
        Participant { id: self.id.clone(), label: self.label.clone(), kind: self.kind }
    }

    pub(crate) fn is(&self, other: &Participant) -> (result: bool)
        ensures
            result == self@.is(other@),
    {
        self.kind == other.kind && same(&self.id, &other.id)
    }

    pub(crate) fn stands_before(&self, other: &Participant) -> (result: bool)
        ensures
            result == self@.before(other@),
    {
        if self.kind == other.kind {
            before(&self.id, &other.id)
        } else {
            self.kind == ParticipantKind::Human
        }
    }
}

/// Who acts as what, where the caller says no more.
pub open spec fn fallback_participant(caller: Caller) -> ParticipantView {
    match caller {
        Caller::Human => ParticipantView {
            id: "surface-human"@,
            label: "Human"@,
            kind: ParticipantKind::Human,
        },
        Caller::Agent => ParticipantView {
            id: "surface-agent"@,
            label: "Agent"@,
            kind: ParticipantKind::Agent,
        },
        Caller::Companion => ParticipantView {
            id: "companion-agent"@,
            label: "Companion agent"@,
            kind: ParticipantKind::Agent,
        },
        Caller::Unknown => ParticipantView {
            id: "unknown-caller"@,
            label: "Unknown caller"@,
            kind: ParticipantKind::Agent,
        },
    }
}

/// The participant that an actor is: by its own id and label where they are
/// accepted, and by its role otherwise.
pub open spec fn participant_of(actor: ActorView) -> ParticipantView {
    let fallback = fallback_participant(actor.caller);
    let participant = ParticipantView {
        id: crate::json::text_or(actor.participant_id, fallback.id),
        label: crate::json::text_or(actor.label, fallback.label),
        kind: fallback.kind,
    };
    if participant.problem() is None {
        participant
    } else {
        fallback
    }
}

fn fallback_of(caller: Caller) -> (participant: Participant)
    ensures
        participant@ == fallback_participant(caller),
{
    match caller {
        Caller::Human => Participant::human("surface-human", "Human"),
        Caller::Agent => Participant::agent("surface-agent", "Agent"),
        Caller::Companion => Participant::agent("companion-agent", "Companion agent"),
        Caller::Unknown => Participant::agent("unknown-caller", "Unknown caller"),
    }
}

/// The participant that an actor is.
pub fn participant_from_actor(actor: &Actor) -> (participant: Participant)
    ensures
        participant@ == participant_of(actor@),
{
    let fallback: Participant = fallback_of(actor.caller);
    let id: String = match &actor.participant_id {
        Some(id) => id.clone(),
        None => fallback.id.clone(),
    };
    let label: String = match &actor.label {
        Some(label) => label.clone(),
        None => fallback.label.clone(),
    };
    let participant: Participant = Participant { id, label, kind: fallback.kind };
    if participant.validate().is_ok() {
        participant
    } else {
        fallback
    }
}

// Attention.

/// Why a participant attends to a target.
#[derive(Clone, Copy, Debug, PartialEq, Eq, Structural)]
pub enum AttentionMode {
    Focus,
    Selection,
    Pointer,
    Reveal,
}

impl AttentionMode {
    /// Whether the participant is still holding it, rather than a moment that
    /// has passed.
    pub open spec fn held(self) -> bool {
        self is Selection || self is Focus
    }

    /// Whether the participant is still holding it. A heartbeat renews what is
    /// held, and nothing else.
    pub fn is_held(self) -> (held: bool)
        ensures
            held == self.held(),
    {
        match self {
            AttentionMode::Selection | AttentionMode::Focus => true,
            AttentionMode::Pointer | AttentionMode::Reveal => false,
        }
    }

    pub open spec fn word(self) -> Seq<char> {
        match self {
            AttentionMode::Focus => "focus"@,
            AttentionMode::Selection => "selection"@,
            AttentionMode::Pointer => "pointer"@,
            AttentionMode::Reveal => "reveal"@,
        }
    }

    /// The mode on the wire.
    pub fn wire_name(self) -> (name: &'static str)
        ensures
            name@ == self.word(),
    {
        match self {
            AttentionMode::Focus => "focus",
            AttentionMode::Selection => "selection",
            AttentionMode::Pointer => "pointer",
            AttentionMode::Reveal => "reveal",
        }
    }
}

/// One gesture, over one target or over a set of them in the order in which it
/// was built.
#[derive(Debug, PartialEq, Eq)]
pub struct Attention {
    pub mode: AttentionMode,
    pub target: SemanticTarget,
    pub additional_targets: Vec<SemanticTarget>,
    pub anchor: ComposerAnchor,
    pub message: Option<String>,
}

/// A gesture in contracts.
#[verifier::ext_equal]
pub struct AttentionView {
    pub mode: AttentionMode,
    pub target: TargetView,
    pub additional_targets: Seq<TargetView>,
    pub anchor: AnchorView,
    pub message: Option<Seq<char>>,
}

impl View for Attention {
    type V = AttentionView;

    open spec fn view(&self) -> AttentionView {
        AttentionView {
            mode: self.mode,
            target: self.target@,
            additional_targets: target_views(self.additional_targets@),
            anchor: self.anchor@,
            message: opt_text(self.message),
        }
    }
}

/// The quoted label of each target.
pub open spec fn quoted_labels(targets: Seq<TargetView>) -> Seq<Seq<char>> {
    Seq::new(targets.len(), |i: int| debug_text(trimmed(targets[i].label)))
}

/// The sentence that a set of targets reads as.
pub open spec fn sentence(targets: Seq<TargetView>, who: Seq<char>, verb: Seq<char>) -> Seq<char> {
    let labels = quoted_labels(targets);
    if labels.len() == 1 {
        who + " "@ + verb + " "@ + labels[0]
    } else if labels.len() <= 8 {
        who + " "@ + verb + " "@ + decimal(labels.len()) + (": "@ + joined(labels, ", "@))
    } else {
        who + " "@ + verb + " "@ + decimal(labels.len()) + (": "@ + joined(labels.take(8), ", "@)
            + ", and "@ + decimal((labels.len() - 8) as nat) + " more"@)
    }
}

impl AttentionView {
    /// Every target of the gesture, the first member first.
    pub open spec fn targets(self) -> Seq<TargetView> {
        Seq::empty().push(self.target) + self.additional_targets
    }
}

/// One gesture over some targets.
pub open spec fn gesture(
    mode: AttentionMode,
    targets: Seq<TargetView>,
    message: Option<Seq<char>>,
) -> AttentionView {
    AttentionView {
        mode,
        target: targets[0],
        additional_targets: targets.skip(1),
        anchor: anchor_over(targets),
        message,
    }
}

pub(crate) fn gesture_over(mode: AttentionMode, targets: Vec<SemanticTarget>, message: Option<String>) -> (result:
    Attention)
    requires
        targets@.len() > 0,
    ensures
        result@ == gesture(mode, target_views(targets@), opt_text(message)),
{
    let ghost all = target_views(targets@);
    let mut rest: Vec<SemanticTarget> = targets;
    let mut each: Vec<&SemanticTarget> = Vec::new();
    let mut i: usize = 0;
    while i < rest.len()
        invariant
            i <= rest@.len(),
            each@.len() == i,
            forall|k: int| 0 <= k < i ==> (#[trigger] each@[k])@ == rest@[k]@,
        decreases rest@.len() - i,
    {
        each.push(&rest[i]);
        i += 1;
    }
    proof {
        assert(target_ref_views(each@) =~= target_views(rest@));
    }
    let anchor: ComposerAnchor = ComposerAnchor::over(&each);
    let first: SemanticTarget = rest.remove(0);
    proof {
        assert(target_views(rest@) =~= all.skip(1));
    }
    Attention { mode, target: first, additional_targets: rest, anchor, message }
}

impl Attention {
    /// Every target of the gesture, the first member first.
    pub fn targets(&self) -> (targets: Vec<&SemanticTarget>)
        ensures
            target_ref_views(targets@) == self@.targets(),
    {
        let mut targets: Vec<&SemanticTarget> = Vec::new();
        targets.push(&self.target);
        let mut i: usize = 0;
        while i < self.additional_targets.len()
            invariant
                i <= self.additional_targets@.len(),
                targets@.len() == i + 1,
                targets@[0]@ == self.target@,
                forall|k: int|
                    0 <= k < i ==> (#[trigger] targets@[k + 1])@ == self.additional_targets@[k]@,
            decreases self.additional_targets@.len() - i,
        {
            targets.push(&self.additional_targets[i]);
            i += 1;
        }
        proof {
            assert(target_ref_views(targets@).len() == self@.targets().len());
            assert forall|k: int| 0 <= k < targets@.len() implies #[trigger] target_ref_views(
                targets@,
            )[k] == self@.targets()[k] by {
                if k > 0 {
                    assert(targets@[(k - 1) + 1]@ == self.additional_targets@[k - 1]@);
                }
            }
            assert(target_ref_views(targets@) =~= self@.targets());
        }
        targets
    }

    /// How many targets the gesture carries.
    pub fn count(&self) -> (count: usize)
        requires
            self.additional_targets@.len() < usize::MAX,
        ensures
            count == self@.targets().len(),
    {
        1 + self.additional_targets.len()
    }

    /// The one sentence that the gesture reads as.
    pub fn read_back_sentence(&self, who: &str, verb: &str) -> (text: String)
        ensures
            text@ == sentence(self@.targets(), who@, verb@),
    {
        let targets: Vec<&SemanticTarget> = self.targets();
        let mut labels: Vec<String> = Vec::new();
        let mut i: usize = 0;
        while i < targets.len()
            invariant
                i <= targets@.len(),
                labels@.len() == i,
                forall|k: int|
                    0 <= k < i ==> (#[trigger] labels@[k])@ == debug_text(
                        trimmed(targets@[k].label@),
                    ),
            decreases targets@.len() - i,
        {
            labels.push(debug_quote(trim(&targets[i].label)));
            i += 1;
        }
        proof {
            assert(texts(labels@) =~= quoted_labels(target_ref_views(targets@)));
        }
        let count: usize = labels.len();
        if count == 1 {
            return concat5(who, " ", verb, " ", &labels[0]);
        }
        let head: String = concat5(who, " ", verb, " ", &to_decimal(count as u64));
        if count <= 8 {
            return concat2(&head, &concat2(": ", &join(&labels, ", ")));
        }
        let tail: String = concat5(
            ": ",
            &join(&take_texts(&labels, 8), ", "),
            ", and ",
            &to_decimal((count - 8) as u64),
            " more",
        );
        concat2(&head, &tail)
    }

    /// The same gesture again.
    pub fn copy(&self) -> (copy: Attention)
        ensures
            copy@ == self@,
    {
        Attention {
            mode: self.mode,
            target: self.target.copy(),
            additional_targets: copy_targets(&self.additional_targets),
            anchor: self.anchor.copy(),
            message: copy_opt(&self.message),
        }
    }
}

} // verus!
