//! Awareness on the wire, in what agents read, and behind the host's actions
//! and routes.

use vstd::prelude::*;

use crate::actions::{action_views, ActionDef, ActionView};
use crate::awareness::{
    attended, cleaned, cleared, gesture_problem, namespaces_problem, new_service, presented,
    resolution, snapshot_of, AttentionSnapshot, AwarenessView, Directory, LookupView,
    ParticipantAwareness, SemanticTargetService, ServiceView, SnapshotView,
};
use crate::caller::ActionAudience;
use crate::decisions::{error_reply, reply_error};
use crate::events::{custom, event_views, Event, EventView};
use crate::json::{
    empty_object, json_bool, json_items, json_number, json_text, json_texts, lemma_array_view,
    object, text_array, text_or, Json, JsonView,
};
use crate::lists::reports;
use crate::mcp::nonblank;
use crate::routes::{Reply, ReplyView};
use crate::semantic_targets::{
    target_views, AnchorView, Attention, AttentionMode, AttentionView, ComposerAnchor, Participant,
    ParticipantKind, ParticipantView, RefView, SemanticTarget, SemanticTargetRef, TargetView,
};
use crate::text::{
    concat2, concat3, concat4, concat5, debug_quote, debug_text, decimal, join, joined, opt_text,
    same, texts, to_decimal, trim, trimmed,
};

verus! {

// On the wire.

pub open spec fn ref_value(target: RefView) -> JsonView {
    empty_object().with("extensionId"@, JsonView::Text(target.extension_id)).with(
        "targetId"@,
        JsonView::Text(target.target_id),
    )
}

fn ref_json(target: &SemanticTargetRef) -> (value: Json)
    ensures
        value@ == ref_value(target@),
{
    object().with("extensionId", json_text(&target.extension_id)).with(
        "targetId",
        json_text(&target.target_id),
    )
}

pub open spec fn target_value(target: TargetView) -> JsonView {
    empty_object().with("target"@, ref_value(target.target)).with(
        "label"@,
        JsonView::Text(target.label),
    ).with("description"@, JsonView::Text(target.description)).with(
        "spatial"@,
        JsonView::Bool(target.spatial),
    )
}

/// A target on the wire.
pub fn target_json(target: &SemanticTarget) -> (value: Json)
    ensures
        value@ == target_value(target@),
{
    object().with("target", ref_json(&target.target)).with("label", json_text(&target.label)).with(
        "description",
        json_text(&target.description),
    ).with("spatial", json_bool(target.spatial))
}

pub open spec fn target_values(targets: Seq<TargetView>) -> JsonView {
    JsonView::Array(Seq::new(targets.len(), |i: int| target_value(targets[i])))
}

fn targets_json(targets: &Vec<SemanticTarget>) -> (value: Json)
    ensures
        value@ == target_values(target_views(targets@)),
{
    let mut items: Vec<Json> = Vec::new();
    let mut i: usize = 0;
    while i < targets.len()
        invariant
            i <= targets@.len(),
            items@.len() == i,
            forall|k: int| 0 <= k < i ==> (#[trigger] items@[k])@ == target_value(targets@[k]@),
        decreases targets@.len() - i,
    {
        items.push(target_json(&targets[i]));
        i += 1;
    }
    proof {
        lemma_array_view(items);
        assert(json_items(items@) =~= Seq::new(
            target_views(targets@).len(),
            |i: int| target_value(target_views(targets@)[i]),
        ));
    }
    Json::Array(items)
}

pub open spec fn anchor_value(anchor: AnchorView) -> JsonView {
    empty_object().with("target"@, ref_value(anchor.target)).with(
        "label"@,
        JsonView::Text(anchor.label),
    ).with("count"@, JsonView::Number(decimal(anchor.count))).with(
        "labels"@,
        text_array(anchor.labels),
    )
}

fn anchor_json(anchor: &ComposerAnchor) -> (value: Json)
    ensures
        value@ == anchor_value(anchor@),
{
    object().with("target", ref_json(&anchor.target)).with("label", json_text(&anchor.label)).with(
        "count",
        json_number(&to_decimal(anchor.count as u64)),
    ).with("labels", json_texts(&anchor.labels))
}

/// A gesture on the wire. A set has a member for the rest of it, and a message
/// is there only where it says something.
pub open spec fn attention_value(attention: AttentionView) -> JsonView {
    let head = empty_object().with("mode"@, JsonView::Text(attention.mode.word())).with(
        "target"@,
        target_value(attention.target),
    );
    let body = if attention.additional_targets.len() == 0 {
        head
    } else {
        head.with("additionalTargets"@, target_values(attention.additional_targets))
    }.with("anchor"@, anchor_value(attention.anchor));
    match attention.message {
        Some(message) => body.with("message"@, JsonView::Text(message)),
        None => body,
    }
}

fn attention_json(attention: &Attention) -> (value: Json)
    ensures
        value@ == attention_value(attention@),
{
    let mut value: Json = object().with("mode", json_text(attention.mode.wire_name())).with(
        "target",
        target_json(&attention.target),
    );
    if attention.additional_targets.len() > 0 {
        value = value.with("additionalTargets", targets_json(&attention.additional_targets));
    }
    value = value.with("anchor", anchor_json(&attention.anchor));
    match &attention.message {
        Some(message) => value.with("message", json_text(message)),
        None => value,
    }
}

pub open spec fn participant_value(participant: ParticipantView) -> JsonView {
    empty_object().with("id"@, JsonView::Text(participant.id)).with(
        "label"@,
        JsonView::Text(participant.label),
    ).with("kind"@, JsonView::Text(participant.kind.word()))
}

fn participant_json(participant: &Participant) -> (value: Json)
    ensures
        value@ == participant_value(participant@),
{
    object().with("id", json_text(&participant.id)).with("label", json_text(&participant.label)).with(
        "kind",
        json_text(participant.kind.wire_name()),
    )
}

pub open spec fn awareness_value(awareness: AwarenessView) -> JsonView {
    let body = empty_object().with("participant"@, participant_value(awareness.participant)).with(
        "status"@,
        JsonView::Text(awareness.status),
    ).with("present"@, JsonView::Bool(awareness.present)).with(
        "active"@,
        JsonView::Bool(awareness.active),
    ).with("activeForMs"@, JsonView::Number(decimal(awareness.active_for_ms as nat))).with(
        "presentForMs"@,
        JsonView::Number(decimal(awareness.present_for_ms as nat)),
    );
    match awareness.attention {
        Some(attention) => body.with("attention"@, attention_value(attention)),
        None => body,
    }
}

fn awareness_json(awareness: &ParticipantAwareness) -> (value: Json)
    ensures
        value@ == awareness_value(awareness@),
{
    let value: Json = object().with("participant", participant_json(&awareness.participant)).with(
        "status",
        json_text(awareness.status),
    ).with("present", json_bool(awareness.present)).with("active", json_bool(awareness.active)).with(
        "activeForMs",
        json_number(&to_decimal(awareness.active_for_ms)),
    ).with("presentForMs", json_number(&to_decimal(awareness.present_for_ms)));
    match &awareness.attention {
        Some(attention) => value.with("attention", attention_json(attention)),
        None => value,
    }
}

pub open spec fn snapshot_value(snapshot: SnapshotView) -> JsonView {
    empty_object().with(
        "schemaVersion"@,
        JsonView::Number(decimal(snapshot.schema_version as nat)),
    ).with("authority"@, JsonView::Text(snapshot.authority)).with(
        "durable"@,
        JsonView::Bool(snapshot.durable),
    ).with(
        "participants"@,
        JsonView::Array(
            Seq::new(
                snapshot.participants.len(),
                |i: int| awareness_value(snapshot.participants[i]),
            ),
        ),
    )
}

/// A snapshot on the wire.
pub fn snapshot_json(snapshot: &AttentionSnapshot) -> (value: Json)
    ensures
        value@ == snapshot_value(snapshot@),
{
    let mut items: Vec<Json> = Vec::new();
    let mut i: usize = 0;
    while i < snapshot.participants.len()
        invariant
            i <= snapshot.participants@.len(),
            items@.len() == i,
            forall|k: int|
                0 <= k < i ==> (#[trigger] items@[k])@ == awareness_value(
                    snapshot.participants@[k]@,
                ),
        decreases snapshot.participants@.len() - i,
    {
        items.push(awareness_json(&snapshot.participants[i]));
        i += 1;
    }
    proof {
        lemma_array_view(items);
        assert(json_items(items@) =~= Seq::new(
            snapshot@.participants.len(),
            |i: int| awareness_value(snapshot@.participants[i]),
        ));
    }
    object().with(
        "schemaVersion",
        json_number(&to_decimal(snapshot.schema_version as u64)),
    ).with("authority", json_text(snapshot.authority)).with(
        "durable",
        json_bool(snapshot.durable),
    ).with("participants", Json::Array(items))
}

/// A surface's own events for a client that connects, and the awareness after
/// them.
pub fn reconnect_events(events: Vec<Event>, snapshot: &AttentionSnapshot) -> (result: Vec<Event>)
    ensures
        event_views(result@) == event_views(events@).push(
            EventView::Custom {
                name: "surface.semantic-targets"@,
                value: snapshot_value(snapshot@),
            },
        ),
{
    let mut events: Vec<Event> = events;
    let ghost before = events@;
    events.push(custom("surface.semantic-targets", snapshot_json(snapshot)));
    proof {
        assert(event_views(events@) =~= event_views(before).push(event_views(events@).last()));
    }
    events
}

// What agents read.

/// The members of a set, by label and id.
pub open spec fn members_text(targets: Seq<TargetView>) -> Seq<char> {
    joined(
        Seq::new(
            targets.len(),
            |i: int|
                debug_text(trimmed(targets[i].label)) + " ("@ + targets[i].target.target_id + ")"@,
        ),
        ", "@,
    )
}

/// What an agent reads of a gesture.
pub open spec fn attention_text(attention: AttentionView) -> Seq<char> {
    let targets = attention.targets();
    (if targets.len() == 1 {
        " at "@ + attention.target.target.extension_id + ":"@ + attention.target.target.target_id
            + ": "@ + attention.target.description
    } else {
        " over "@ + decimal(targets.len()) + " in "@ + attention.target.target.extension_id + ": "@
            + members_text(targets)
    }) + (match attention.message {
        Some(message) => ": "@ + debug_text(message),
        None => Seq::empty(),
    })
}

/// What an agent reads of one participant.
pub open spec fn awareness_text(awareness: AwarenessView) -> Seq<char> {
    "\n- "@ + awareness.participant.label + " ("@ + awareness.participant.kind.name() + ") is "@
        + awareness.status + (match awareness.attention {
        Some(attention) => attention_text(attention),
        None => Seq::empty(),
    })
}

pub open spec fn awareness_lines(participants: Seq<AwarenessView>) -> Seq<char>
    decreases participants.len(),
{
    if participants.len() == 0 {
        Seq::empty()
    } else {
        awareness_lines(participants.drop_last()) + awareness_text(participants.last())
    }
}

/// What an agent reads of the awareness.
pub open spec fn description(participants: Seq<AwarenessView>) -> Seq<char> {
    "Semantic attention (ephemeral context only; never authority):"@ + (if participants.len() == 0 {
        "\n- nobody is present"@
    } else {
        awareness_lines(participants)
    })
}

fn describe_attention(attention: &Attention) -> (text: String)
    ensures
        text@ == attention_text(attention@),
{
    let targets: Vec<&SemanticTarget> = attention.targets();
    let mut text: String;
    if targets.len() == 1 {
        let place: String = concat4(
            " at ",
            &attention.target.target.extension_id,
            ":",
            &attention.target.target.target_id,
        );
        text = concat3(&place, ": ", &attention.target.description);
    } else {
        let mut members: Vec<String> = Vec::new();
        let mut i: usize = 0;
        while i < targets.len()
            invariant
                i <= targets@.len(),
                members@.len() == i,
                forall|k: int|
                    0 <= k < i ==> (#[trigger] members@[k])@ == debug_text(
                        trimmed(targets@[k].label@),
                    ) + " ("@ + targets@[k].target.target_id@ + ")"@,
            decreases targets@.len() - i,
        {
            members.push(
                concat4(
                    &debug_quote(trim(&targets[i].label)),
                    " (",
                    &targets[i].target.target_id,
                    ")",
                ),
            );
            i += 1;
        }
        proof {
            let all = attention@.targets();
            assert(crate::semantic_targets::target_ref_views(targets@) == all);
            assert forall|k: int| 0 <= k < targets@.len() implies targets@[k]@
                == #[trigger] all[k] by {
                assert(crate::semantic_targets::target_ref_views(targets@)[k] == targets@[k]@);
            }
            assert(texts(members@) =~= Seq::new(
                all.len(),
                |i: int|
                    debug_text(trimmed(all[i].label)) + " ("@ + all[i].target.target_id + ")"@,
            ));
        }
        let head: String = concat5(
            " over ",
            &to_decimal(targets.len() as u64),
            " in ",
            &attention.target.target.extension_id,
            ": ",
        );
        text = concat2(&head, &join(&members, ", "));
    }
    match &attention.message {
        Some(message) => concat2(&text, &concat2(": ", &debug_quote(message))),
        None => {
            proof {
                assert(text@ + Seq::<char>::empty() =~= text@);
            }
            text
        },
    }
}

fn describe_participant(awareness: &ParticipantAwareness) -> (text: String)
    ensures
        text@ == awareness_text(awareness@),
{
    let head: String = concat5(
        "\n- ",
        &awareness.participant.label,
        " (",
        awareness.participant.kind.title(),
        ") is ",
    );
    let text: String = concat2(&head, awareness.status);
    match &awareness.attention {
        Some(attention) => concat2(&text, &describe_attention(attention)),
        None => {
            proof {
                assert(text@ + Seq::<char>::empty() =~= text@);
            }
            text
        },
    }
}

/// What an agent reads of a snapshot.
pub fn describe_snapshot(snapshot: &AttentionSnapshot) -> (text: String)
    ensures
        text@ == description(snapshot@.participants),
{
    let heading: &str = "Semantic attention (ephemeral context only; never authority):";
    let ghost all = snapshot@.participants;
    if snapshot.participants.len() == 0 {
        return concat2(heading, "\n- nobody is present");
    }
    let mut lines: String = String::new();
    let mut i: usize = 0;
    proof {
        assert(lines@ =~= awareness_lines(all.take(0)));
    }
    while i < snapshot.participants.len()
        invariant
            i <= snapshot.participants@.len(),
            all == snapshot@.participants,
            lines@ == awareness_lines(all.take(i as int)),
        decreases snapshot.participants@.len() - i,
    {
        proof {
            assert(all.take(i + 1).drop_last() =~= all.take(i as int));
            assert(all.take(i + 1).last() == snapshot.participants@[i as int]@);
        }
        lines = concat2(&lines, &describe_participant(&snapshot.participants[i]));
        i += 1;
    }
    proof {
        assert(all.take(i as int) =~= all);
    }
    concat2(heading, &lines)
}

impl SemanticTargetService {
    /// What an agent reads of the awareness now.
    pub fn describe(&mut self, directory: &Directory, now: u64) -> (text: String)
        ensures
            final(self)@ == (ServiceView {
                records: cleaned(old(self)@.records, directory@, now),
                ..old(self)@
            }),
            text@ == description(snapshot_of(final(self)@.records, now).participants),
    {
        let snapshot: AttentionSnapshot = self.snapshot(directory, now);
        describe_snapshot(&snapshot)
    }
}

// The host's actions.

/// The parameters of an action on one target.
pub open spec fn target_parameters() -> JsonView {
    empty_object().with("type"@, JsonView::Text("object"@)).with(
        "properties"@,
        empty_object().with(
            "extension_id"@,
            empty_object().with("type"@, JsonView::Text("string"@)).with(
                "description"@,
                JsonView::Text("registered extension namespace, such as atlas or board"@),
            ),
        ).with(
            "target_id"@,
            empty_object().with("type"@, JsonView::Text("string"@)).with(
                "description"@,
                JsonView::Text("stable semantic id inside that extension namespace"@),
            ),
        ).with(
            "message"@,
            empty_object().with("type"@, JsonView::Text("string"@)).with(
                "maxLength"@,
                JsonView::Number("240"@),
            ).with(
                "description"@,
                JsonView::Text("optional short phrase explaining what to notice"@),
            ),
        ),
    ).with(
        "required"@,
        text_array(Seq::empty().push("extension_id"@).push("target_id"@)),
    ).with("additionalProperties"@, JsonView::Bool(false))
}

fn target_schema() -> (schema: Json)
    ensures
        schema@ == target_parameters(),
{
    let mut required: Vec<String> = Vec::new();
    required.push("extension_id".to_owned());
    required.push("target_id".to_owned());
    proof {
        assert(texts(required@) =~= Seq::empty().push("extension_id"@).push("target_id"@));
    }
    let extension: Json = object().with("type", json_text("string")).with(
        "description",
        json_text("registered extension namespace, such as atlas or board"),
    );
    let target: Json = object().with("type", json_text("string")).with(
        "description",
        json_text("stable semantic id inside that extension namespace"),
    );
    let message: Json = object().with("type", json_text("string")).with(
        "maxLength",
        json_number("240"),
    ).with("description", json_text("optional short phrase explaining what to notice"));
    let properties: Json = object().with("extension_id", extension).with("target_id", target).with(
        "message",
        message,
    );
    object().with("type", json_text("object")).with("properties", properties).with(
        "required",
        json_texts(&required),
    ).with("additionalProperties", json_bool(false))
}

/// The parameters of an action without any.
pub open spec fn no_parameters() -> JsonView {
    empty_object().with("type"@, JsonView::Text("object"@)).with(
        "properties"@,
        empty_object(),
    ).with("additionalProperties"@, JsonView::Bool(false))
}

fn empty_schema() -> (schema: Json)
    ensures
        schema@ == no_parameters(),
{
    object().with("type", json_text("object")).with("properties", object()).with(
        "additionalProperties",
        json_bool(false),
    )
}

pub open spec fn agent_action(
    name: Seq<char>,
    description: Seq<char>,
    parameters: JsonView,
) -> ActionView {
    ActionView {
        name,
        description,
        parameters,
        audience: ActionAudience::Agent,
        include_state_snapshot: false,
    }
}

/// The actions of the host, for agents alone.
pub open spec fn host_action_views() -> Seq<ActionView> {
    Seq::empty().push(
        agent_action(
            "semantic_targets_read"@,
            "Read who is present versus actively attending, and the semantic target of each active participant. This is ephemeral context, never permission or trust."@,
            no_parameters(),
        ),
    ).push(
        agent_action(
            "semantic_target_point"@,
            "Point at one registered semantic target for a brief lease. Supply only its extension namespace and stable target id; the browser host derives any overlay geometry and selectors are forbidden."@,
            target_parameters(),
        ),
    ).push(
        agent_action(
            "semantic_target_reveal"@,
            "Reveal one registered semantic target to the human. Supply only its namespaced semantic id; the browser host finds its registered element and performs the reveal without model-provided selectors or coordinates. Use this deliberately for a guided walkthrough when the target is not already readable. Prefer pointing when it is visible, because reveal may pan or zoom the human's view."@,
            target_parameters(),
        ),
    ).push(
        agent_action(
            "semantic_attention_clear"@,
            "Clear this agent's active semantic pointer. The agent remains merely present for its short ephemeral lease."@,
            no_parameters(),
        ),
    )
}

/// The actions of the host.
pub fn host_actions() -> (actions: Vec<ActionDef>)
    ensures
        action_views(actions@) == host_action_views(),
{
    let mut actions: Vec<ActionDef> = Vec::new();
    actions.push(
        ActionDef::new(
            "semantic_targets_read".to_owned(),
            "Read who is present versus actively attending, and the semantic target of each active participant. This is ephemeral context, never permission or trust.".to_owned(),
            empty_schema(),
        ).agent_only(),
    );
    actions.push(
        ActionDef::new(
            "semantic_target_point".to_owned(),
            "Point at one registered semantic target for a brief lease. Supply only its extension namespace and stable target id; the browser host derives any overlay geometry and selectors are forbidden.".to_owned(),
            target_schema(),
        ).agent_only(),
    );
    actions.push(
        ActionDef::new(
            "semantic_target_reveal".to_owned(),
            "Reveal one registered semantic target to the human. Supply only its namespaced semantic id; the browser host finds its registered element and performs the reveal without model-provided selectors or coordinates. Use this deliberately for a guided walkthrough when the target is not already readable. Prefer pointing when it is visible, because reveal may pan or zoom the human's view.".to_owned(),
            target_schema(),
        ).agent_only(),
    );
    actions.push(
        ActionDef::new(
            "semantic_attention_clear".to_owned(),
            "Clear this agent's active semantic pointer. The agent remains merely present for its short ephemeral lease.".to_owned(),
            empty_schema(),
        ).agent_only(),
    );
    proof {
        assert(action_views(actions@) =~= host_action_views());
    }
    actions
}

/// Whether an action's name is one of the host's.
pub open spec fn reserved(name: Seq<char>) -> bool {
    name == "semantic_targets_read"@ || name == "semantic_target_point"@ || name
        == "semantic_target_reveal"@ || name == "semantic_attention_clear"@
}

/// Whether an action's name is one of the host's.
pub fn is_reserved(name: &str) -> (result: bool)
    ensures
        result == reserved(name@),
{
    same(name, "semantic_targets_read") || same(name, "semantic_target_point") || same(
        name,
        "semantic_target_reveal",
    ) || same(name, "semantic_attention_clear")
}

/// The target that an action's arguments name.
pub open spec fn target_argument(args: JsonView) -> RefView {
    RefView {
        extension_id: text_or(args.text_member("extension_id"@), ""@),
        target_id: text_or(args.text_member("target_id"@), ""@),
    }
}

fn target_arg(args: &Json) -> (target: SemanticTargetRef)
    ensures
        target@ == target_argument(args@),
{
    SemanticTargetRef::new(
        args.str_member_or("extension_id", ""),
        args.str_member_or("target_id", ""),
    )
}

fn message_arg(args: &Json) -> (message: Option<String>)
    ensures
        opt_text(message) == args@.text_member("message"@),
{
    match args.str_member("message") {
        Some(message) => Some(message.to_owned()),
        None => None,
    }
}

/// What pointing at a target, or revealing it, leads to.
pub open spec fn pointed(
    before: ServiceView,
    after: ServiceView,
    outcome: Result<Seq<char>, Seq<char>>,
    mode: AttentionMode,
    verb: Seq<char>,
    args: JsonView,
    directory: Seq<(RefView, LookupView)>,
    now: u64,
) -> bool {
    let target = target_argument(args);
    let message = args.text_member("message"@);
    match gesture_problem(before, before.current, Seq::empty().push(target), message, directory) {
        Some(problem) => {
            &&& outcome == Err::<Seq<char>, Seq<char>>(problem)
            &&& after == before
        },
        None => {
            let found = resolution(before.namespaces, directory, target)->Ok_0;
            &&& outcome == Ok::<Seq<char>, Seq<char>>(
                verb + found.target.extension_id + ":"@ + found.target.target_id + (": "@
                    + found.description),
            )
            &&& after == attended(
                before,
                before.current,
                mode,
                Seq::empty().push(found),
                message,
                directory,
                now,
            )
        },
    }
}

/// What one of the host's actions leads to.
pub open spec fn host_action_runs(
    before: ServiceView,
    after: ServiceView,
    outcome: Result<Seq<char>, Seq<char>>,
    name: Seq<char>,
    args: JsonView,
    directory: Seq<(RefView, LookupView)>,
    now: u64,
) -> bool {
    if name == "semantic_targets_read"@ {
        &&& after == (ServiceView { records: cleaned(before.records, directory, now), ..before })
        &&& outcome == Ok::<Seq<char>, Seq<char>>(
            description(snapshot_of(after.records, now).participants),
        )
    } else if name == "semantic_target_point"@ {
        pointed(
            before,
            after,
            outcome,
            AttentionMode::Pointer,
            "pointing at "@,
            args,
            directory,
            now,
        )
    } else if name == "semantic_target_reveal"@ {
        pointed(before, after, outcome, AttentionMode::Reveal, "revealing "@, args, directory, now)
    } else {
        match before.current.problem() {
            Some(problem) => outcome == Err::<Seq<char>, Seq<char>>(problem) && after == before,
            None => {
                &&& outcome == Ok::<Seq<char>, Seq<char>>("cleared the agent's semantic pointer"@)
                &&& after == cleared(before, before.current, directory, now)
            },
        }
    }
}

pub open spec fn text_result(result: Result<String, String>) -> Result<Seq<char>, Seq<char>> {
    match result {
        Ok(text) => Ok(text@),
        Err(message) => Err(message@),
    }
}

fn attend_from_action(
    service: &mut SemanticTargetService,
    mode: AttentionMode,
    verb: &str,
    args: &Json,
    directory: &Directory,
    now: u64,
) -> (result: Result<String, String>)
    requires
        old(service)@.sequence < u64::MAX,
    ensures
        pointed(
            old(service)@,
            final(service)@,
            text_result(result),
            mode,
            verb@,
            args@,
            directory@,
            now,
        ),
{
    let participant: Participant = service.calling_participant();
    match service.attend(
        participant,
        mode,
        target_arg(args),
        message_arg(args),
        directory,
        now,
    ) {
        Ok(found) => {
            let place: String = concat4(
                verb,
                &found.target.extension_id,
                ":",
                &found.target.target_id,
            );
            Ok(concat2(&place, &concat2(": ", &found.description)))
        },
        Err(message) => Err(message),
    }
}

/// Runs one of the host's actions, for whoever calls it. Other names are not
/// the host's to run.
pub fn run_host_action(
    service: &mut SemanticTargetService,
    name: &str,
    args: &Json,
    directory: &Directory,
    now: u64,
) -> (result: Option<Result<String, String>>)
    requires
        old(service)@.sequence < u64::MAX,
    ensures
        match result {
            Some(outcome) => reserved(name@) && host_action_runs(
                old(service)@,
                final(service)@,
                text_result(outcome),
                name@,
                args@,
                directory@,
                now,
            ),
            None => !reserved(name@) && final(service)@ == old(service)@,
        },
{
    if !is_reserved(name) {
        return None;
    }
    if same(name, "semantic_targets_read") {
        return Some(Ok(service.describe(directory, now)));
    }
    if same(name, "semantic_target_point") {
        return Some(
            attend_from_action(
                service,
                AttentionMode::Pointer,
                "pointing at ",
                args,
                directory,
                now,
            ),
        );
    }
    if same(name, "semantic_target_reveal") {
        return Some(
            attend_from_action(
                service,
                AttentionMode::Reveal,
                "revealing ",
                args,
                directory,
                now,
            ),
        );
    }
    let participant: Participant = service.calling_participant();
    match service.clear(participant, directory, now) {
        Ok(_) => Some(Ok("cleared the agent's semantic pointer".to_owned())),
        Err(message) => Some(Err(message)),
    }
}

/// Whether everybody is to be told who attends to what, after one of the host's
/// actions: a reading changes nothing, and neither does a refusal.
pub fn changes_attention(name: &str, outcome: &Result<String, String>) -> (result: bool)
    ensures
        result == (outcome is Ok && reserved(name@) && name@ != "semantic_targets_read"@),
{
    outcome.is_ok() && is_reserved(name) && !same(name, "semantic_targets_read")
}

/// The first of some actions whose name is one of the host's.
pub open spec fn colliding(actions: Seq<ActionView>) -> Option<Seq<char>>
    decreases actions.len(),
{
    if actions.len() == 0 {
        None
    } else if reserved(actions[0].name) {
        Some(actions[0].name)
    } else {
        colliding(actions.skip(1))
    }
}

/// Why the service cannot be installed beside some actions.
pub open spec fn install_problem(
    namespaces: Seq<Seq<char>>,
    actions: Seq<ActionView>,
) -> Option<Seq<char>> {
    if namespaces_problem(namespaces) is Some {
        namespaces_problem(namespaces)
    } else if namespaces.len() == 0 {
        None
    } else {
        match colliding(actions) {
            Some(name) => Some(
                "surface action "@ + debug_text(name)
                    + " collides with a semantic-target host action"@,
            ),
            None => None,
        }
    }
}

/// The service installed beside a surface's actions.
pub struct Installation {
    pub actions: Vec<ActionDef>,
    pub service: SemanticTargetService,
}

/// Whether the service can be installed beside some actions.
pub fn check_install(namespaces: &Vec<String>, actions: &Vec<ActionDef>) -> (outcome: Result<
    (),
    String,
>)
    ensures
        reports(outcome, install_problem(texts(namespaces@), action_views(actions@))),
{
    match SemanticTargetService::new(namespaces) {
        Ok(_) => {},
        Err(message) => {
            return Err(message);
        },
    }
    if namespaces.len() == 0 {
        return Ok(());
    }
    let ghost all = action_views(actions@);
    let mut i: usize = 0;
    proof {
        assert(all.skip(0) =~= all);
    }
    while i < actions.len()
        invariant
            i <= actions@.len(),
            all == action_views(actions@),
            colliding(all) == colliding(all.skip(i as int)),
            namespaces@.len() > 0,
            namespaces_problem(texts(namespaces@)) is None,
        decreases actions@.len() - i,
    {
        proof {
            assert(all.skip(i as int)[0] == actions@[i as int]@);
            assert(all.skip(i as int).skip(1) =~= all.skip(i + 1));
        }
        if is_reserved(&actions[i].name) {
            return Err(
                concat3(
                    "surface action ",
                    &debug_quote(&actions[i].name),
                    " collides with a semantic-target host action",
                ),
            );
        }
        i += 1;
    }
    Ok(())
}

/// Installs the service. A surface without targets gets no actions on them.
pub fn install(namespaces: &Vec<String>, actions: Vec<ActionDef>) -> (result: Result<
    Installation,
    String,
>)
    ensures
        reports(result, install_problem(texts(namespaces@), action_views(actions@))),
        result matches Ok(installed) ==> {
            &&& installed.service@ == new_service(texts(namespaces@))
            &&& action_views(installed.actions@) == (if namespaces@.len() == 0 {
                action_views(actions@)
            } else {
                action_views(actions@) + host_action_views()
            })
        },
{
    match check_install(namespaces, &actions) {
        Ok(()) => {},
        Err(message) => {
            return Err(message);
        },
    }
    let service: SemanticTargetService = match SemanticTargetService::new(namespaces) {
        Ok(service) => service,
        Err(message) => {
            return Err(message);
        },
    };
    if namespaces.len() == 0 {
        return Ok(Installation { actions, service });
    }
    let ghost all = action_views(actions@);
    let mut actions: Vec<ActionDef> = actions;
    let mut own: Vec<ActionDef> = host_actions();
    let ghost added = own@;
    let ghost before = actions@;
    actions.append(&mut own);
    proof {
        assert(actions@ =~= before + added);
        assert(action_views(actions@) =~= all + action_views(added));
    }
    Ok(Installation { actions, service })
}

// Routes.

/// Who a browser's request speaks for.
pub open spec fn browser_person(body: JsonView) -> Option<ParticipantView> {
    match nonblank(body.text_member("participantId"@)) {
        Some(id) => Some(
            ParticipantView {
                id,
                label: text_or(nonblank(body.text_member("participantLabel"@)), "Human"@),
                kind: ParticipantKind::Human,
            },
        ),
        None => None,
    }
}

fn nonblank_member<'a>(body: &'a Json, name: &str) -> (text: Option<&'a str>)
    ensures
        crate::text::opt_str(text) == nonblank(body@.text_member(name@)),
{
    match body.str_member(name) {
        Some(text) => {
            let text: &str = trim(text);
            if text.is_empty() {
                None
            } else {
                Some(text)
            }
        },
        None => None,
    }
}

/// Who a browser's request speaks for. It always speaks for a person.
pub fn browser_participant(body: &Json) -> (result: Result<Participant, Reply>)
    ensures
        match result {
            Ok(participant) => browser_person(body@) == Some(participant@),
            Err(reply) => browser_person(body@) is None && reply@ == error_reply(
                400,
                "missing participantId"@,
            ),
        },
{
    match nonblank_member(body, "participantId") {
        Some(id) => {
            let label: &str = match nonblank_member(body, "participantLabel") {
                Some(label) => label,
                None => "Human",
            };
            Ok(Participant::human(id, label))
        },
        None => Err(reply_error(400, "missing participantId")),
    }
}

/// The answer that carries a snapshot.
pub open spec fn snapshot_answer(snapshot: SnapshotView) -> ReplyView {
    ReplyView {
        status: 200,
        body: empty_object().with("ok"@, JsonView::Bool(true)).with(
            "snapshot"@,
            snapshot_value(snapshot),
        ),
    }
}

fn snapshot_reply(snapshot: &AttentionSnapshot) -> (reply: Reply)
    ensures
        reply@ == snapshot_answer(snapshot@),
{
    Reply {
        status: 200,
        body: object().with("ok", json_bool(true)).with("snapshot", snapshot_json(snapshot)),
    }
}

/// The answer of a surface without the service.
pub fn no_semantic_targets_reply() -> (reply: Reply)
    ensures
        reply@ == error_reply(404, "this surface has no registered semantic target namespaces"@),
{
    reply_error(404, "this surface has no registered semantic target namespaces")
}

/// Answers a request for the awareness.
pub fn semantic_targets_get(service: &mut SemanticTargetService, directory: &Directory, now: u64) -> (reply:
    Reply)
    ensures
        final(service)@ == (ServiceView {
            records: cleaned(old(service)@.records, directory@, now),
            ..old(service)@
        }),
        reply@ == snapshot_answer(snapshot_of(final(service)@.records, now)),
{
    let snapshot: AttentionSnapshot = service.snapshot(directory, now);
    snapshot_reply(&snapshot)
}

/// What a request that names a person leads to: the person is missing, is not
/// accepted, or is, and then the service becomes what `accepted` says.
pub open spec fn person_request(
    before: ServiceView,
    after: ServiceView,
    reply: ReplyView,
    body: JsonView,
    accepted: spec_fn(ParticipantView) -> ServiceView,
    now: u64,
) -> bool {
    match browser_person(body) {
        None => reply == error_reply(400, "missing participantId"@) && after == before,
        Some(person) => match person.problem() {
            Some(problem) => reply == error_reply(422, problem) && after == before,
            None => after == accepted(person) && reply == snapshot_answer(
                snapshot_of(after.records, now),
            ),
        },
    }
}

/// Answers a browser's heartbeat.
pub fn semantic_targets_presence(
    service: &mut SemanticTargetService,
    body: &Json,
    directory: &Directory,
    now: u64,
) -> (reply: Reply)
    ensures
        person_request(
            old(service)@,
            final(service)@,
            reply@,
            body@,
            |person: ParticipantView| presented(old(service)@, person, directory@, now),
            now,
        ),
{
    let participant: Participant = match browser_participant(body) {
        Ok(participant) => participant,
        Err(reply) => {
            return reply;
        },
    };
    match service.present(participant, directory, now) {
        Ok(snapshot) => snapshot_reply(&snapshot),
        Err(message) => reply_error(422, &message),
    }
}

/// Answers a browser that lets go of what it attended to.
pub fn semantic_targets_clear(
    service: &mut SemanticTargetService,
    body: &Json,
    directory: &Directory,
    now: u64,
) -> (reply: Reply)
    requires
        old(service)@.sequence < u64::MAX,
    ensures
        person_request(
            old(service)@,
            final(service)@,
            reply@,
            body@,
            |person: ParticipantView| cleared(old(service)@, person, directory@, now),
            now,
        ),
{
    let participant: Participant = match browser_participant(body) {
        Ok(participant) => participant,
        Err(reply) => {
            return reply;
        },
    };
    match service.clear(participant, directory, now) {
        Ok(snapshot) => snapshot_reply(&snapshot),
        Err(message) => reply_error(422, &message),
    }
}

/// What keeps a browser's gesture from being tried: nobody makes it, its mode
/// is not a browser's, or it names no target.
pub open spec fn focus_refusal(body: JsonView, target: Result<RefView, Seq<char>>) -> Option<
    ReplyView,
> {
    if browser_person(body) is None {
        Some(error_reply(400, "missing participantId"@))
    } else {
        let mode = body.text_member("mode"@);
        if mode is Some && mode != Some("selection"@) && mode != Some("focus"@) {
            Some(
                error_reply(
                    400,
                    "browser attention mode "@ + debug_text(mode->0)
                        + " must be focus or selection"@,
                ),
            )
        } else if body.member("target"@) is None {
            Some(error_reply(400, "missing semantic target"@))
        } else {
            match target {
                Err(problem) => Some(error_reply(400, "invalid semantic target: "@ + problem)),
                Ok(_) => None,
            }
        }
    }
}

/// The mode of a browser's gesture.
pub open spec fn focus_mode(body: JsonView) -> AttentionMode {
    if body.text_member("mode"@) == Some("selection"@) {
        AttentionMode::Selection
    } else {
        AttentionMode::Focus
    }
}

/// What a browser's gesture leads to.
pub open spec fn focus_request(
    before: ServiceView,
    after: ServiceView,
    reply: ReplyView,
    body: JsonView,
    target: Result<RefView, Seq<char>>,
    directory: Seq<(RefView, LookupView)>,
    now: u64,
) -> bool {
    let message = body.text_member("message"@);
    match focus_refusal(body, target) {
        Some(refusal) => reply == refusal && after == before,
        None => {
            let person = browser_person(body)->0;
            let named = target->Ok_0;
            match gesture_problem(before, person, Seq::empty().push(named), message, directory) {
                Some(problem) => reply == error_reply(422, problem) && after == before,
                None => {
                    let found = resolution(before.namespaces, directory, named)->Ok_0;
                    let made = attended(
                        before,
                        person,
                        focus_mode(body),
                        Seq::empty().push(found),
                        message,
                        directory,
                        now,
                    );
                    &&& after == (ServiceView {
                        records: cleaned(made.records, directory, now),
                        ..made
                    })
                    &&& reply == (ReplyView {
                        status: 200,
                        body: empty_object().with("ok"@, JsonView::Bool(true)).with(
                            "target"@,
                            target_value(found),
                        ).with("snapshot"@, snapshot_value(snapshot_of(after.records, now))),
                    })
                },
            }
        },
    }
}

pub open spec fn ref_result(target: Result<SemanticTargetRef, String>) -> Result<
    RefView,
    Seq<char>,
> {
    match target {
        Ok(target) => Ok(target@),
        Err(message) => Err(message@),
    }
}

/// Answers a browser's gesture. `target` is the target that the body's member
/// holds, or why it holds none; it counts only where the member is there.
pub fn semantic_targets_focus(
    service: &mut SemanticTargetService,
    body: &Json,
    target: Result<SemanticTargetRef, String>,
    directory: &Directory,
    now: u64,
) -> (reply: Reply)
    requires
        old(service)@.sequence < u64::MAX,
    ensures
        focus_request(
            old(service)@,
            final(service)@,
            reply@,
            body@,
            ref_result(target),
            directory@,
            now,
        ),
{
    let participant: Participant = match browser_participant(body) {
        Ok(participant) => participant,
        Err(reply) => {
            return reply;
        },
    };
    let mode: AttentionMode = match body.str_member("mode") {
        Some(mode) => if same(mode, "selection") {
            AttentionMode::Selection
        } else if same(mode, "focus") {
            AttentionMode::Focus
        } else {
            return reply_error(
                400,
                &concat3(
                    "browser attention mode ",
                    &debug_quote(mode),
                    " must be focus or selection",
                ),
            );
        },
        None => AttentionMode::Focus,
    };
    if body.get("target").is_none() {
        return reply_error(400, "missing semantic target");
    }
    let named: SemanticTargetRef = match target {
        Ok(target) => target,
        Err(message) => {
            return reply_error(400, &concat2("invalid semantic target: ", &message));
        },
    };
    match service.attend(participant, mode, named, message_arg(body), directory, now) {
        Ok(found) => {
            let snapshot: AttentionSnapshot = service.snapshot(directory, now);
            Reply {
                status: 200,
                body: object().with("ok", json_bool(true)).with(
                    "target",
                    target_json(&found),
                ).with("snapshot", snapshot_json(&snapshot)),
            }
        },
        Err(message) => reply_error(422, &message),
    }
}

/// A browser makes gestures only for a person, whatever its request says.
pub proof fn law_a_browser_speaks_for_a_person(body: JsonView)
    ensures
        browser_person(body) matches Some(person) ==> person.kind is Human && person.id.len() > 0
            && person.label.len() > 0,
{
    reveal_strlit("Human");
}

} // verus!
