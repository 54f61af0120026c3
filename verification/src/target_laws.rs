//! What targets, participants and gestures read as, and what the host's actions
//! and routes make of them.

use vstd::prelude::*;

use crate::actions::ActionView;
use crate::attention::{
    attention_text, awareness_lines, awareness_text, browser_person, colliding, description,
    focus_mode, focus_refusal, focus_request, host_action_runs, host_action_views, install_problem,
    no_parameters, person_request, reserved, snapshot_answer, target_argument, target_parameters,
};
use crate::awareness::{
    attended, cleaned, cleared, gesture_problem, namespaces_problem, record_of, resolution,
    snapshot_of, AwarenessView, LookupView, ServiceView, SnapshotView,
};
use crate::awareness_laws::law_an_accepted_gesture_is_read_back;
use crate::attention_laws::{law_a_target_is_read_back, read_target};
use crate::caller::{ActorView, Caller};
use crate::decisions::error_reply;
use crate::json::{group_reading, read_texts, under, JsonView};
use crate::presence_laws::law_a_gesture_over_one_target_needs_it_resolved;
use crate::routes::ReplyView;
use crate::semantic_targets::{
    anchor_label_of, fallback_participant, gesture, id_problem, message_problem,
    normalized_message, participant_of, quoted_labels, sentence, AttentionMode, AttentionView,
    ParticipantKind, ParticipantView, RefView, TargetView,
};
use crate::text::{blank, debug_text, decimal, joined, lemma_blank, trimmed};
use crate::text_laws::{
    law_joined_texts_are_all_there, law_trimming_twice_is_trimming, lemma_mentions,
    lemma_mentions_within, mentions, snug,
};

verus! {

// Names and messages.

/// An id is accepted exactly where, trimmed, it has one to a hundred and sixty
/// characters, each an ASCII letter, a digit or one of four marks; a refusal
/// begins with what the id is for.
pub proof fn law_an_id_is_short_and_plain(label: Seq<char>, value: Seq<char>)
    ensures
        id_problem(label, value) is None <==> {
            let id = trimmed(value);
            &&& 1 <= id.len() <= 160
            &&& forall|i: int|
                0 <= i < id.len() ==> 'a' <= #[trigger] id[i] <= 'z' || 'A' <= id[i] <= 'Z' || '0'
                    <= id[i] <= '9' || id[i] == '.' || id[i] == '_' || id[i] == ':' || id[i] == '-'
        },
        id_problem(label, value) matches Some(message) ==> label.is_prefix_of(message),
{
    let id = trimmed(value);
    assert forall|i: int| 0 <= i < id.len() implies (crate::semantic_targets::is_id_char(
        #[trigger] id[i],
    ) <==> ('a' <= id[i] <= 'z' || 'A' <= id[i] <= 'Z' || '0' <= id[i] <= '9' || id[i] == '.'
        || id[i] == '_' || id[i] == ':' || id[i] == '-')) by {}
    if let Some(message) = id_problem(label, value) {
        assert(message.subrange(0, label.len() as int) =~= label);
    }
}

/// A message is kept trimmed, nothing is kept of a blank one, and one of more
/// than two hundred and forty characters is refused.
pub proof fn law_a_message_is_kept_trimmed(text: Seq<char>)
    ensures
        normalized_message(None) is None,
        normalized_message(Some(text)) == (if blank(text) {
            None
        } else {
            Some(trimmed(text))
        }),
        message_problem(Some(text)) is None <==> trimmed(text).len() <= 240,
        message_problem(None) is None,
{
}

// Gestures.

/// A gesture keeps its mode, all its targets in order and its message, and its
/// anchor stands for all of them under the name of the first.
pub proof fn law_a_gesture_keeps_what_it_is_over(
    mode: AttentionMode,
    targets: Seq<TargetView>,
    message: Option<Seq<char>>,
)
    requires
        targets.len() > 0,
    ensures
        ({
            let made = gesture(mode, targets, message);
            &&& made.mode == mode
            &&& made.targets() == targets
            &&& made.target == targets[0]
            &&& made.message == message
            &&& made.anchor.count == targets.len()
            &&& made.anchor.target == targets[0].target
            &&& made.anchor.labels.len() == targets.len()
            &&& forall|i: int|
                0 <= i < targets.len() ==> #[trigger] made.anchor.labels[i] == trimmed(
                    targets[i].label,
                )
        }),
{
    assert(gesture(mode, targets, message).targets() =~= targets);
}

/// The anchor over one target reads as its label; over more it begins with their
/// number and reads out the first three labels, and it ends with how many more
/// there are.
pub proof fn law_an_anchor_reads_out_its_first_labels(labels: Seq<Seq<char>>, k: int)
    requires
        labels.len() > 0,
        0 <= k < labels.len(),
    ensures
        ({
            let text = anchor_label_of(labels);
            &&& labels.len() == 1 ==> text == labels[0]
            &&& labels.len() > 1 ==> decimal(labels.len()).is_prefix_of(text)
            &&& k < 3 ==> mentions(text, labels[k])
            &&& labels.len() > 3 ==> (", and "@ + decimal((labels.len() - 3) as nat)
                + " more"@).is_suffix_of(text)
        }),
{
    let text = anchor_label_of(labels);
    let count = decimal(labels.len());
    if labels.len() == 1 {
        assert(text =~= Seq::<char>::empty() + labels[0] + Seq::<char>::empty());
        lemma_mentions(text, Seq::empty(), labels[0], Seq::empty());
    } else if labels.len() <= 3 {
        let list = joined(labels, ", "@);
        assert(text.subrange(0, count.len() as int) =~= count);
        law_joined_texts_are_all_there(labels, ", "@, k);
        assert(text =~= (count + " selected: "@) + list + Seq::<char>::empty());
        lemma_mentions_within(text, count + " selected: "@, list, Seq::empty(), labels[k]);
    } else {
        let first = labels.take(3);
        let list = joined(first, ", "@);
        let more = ", and "@ + decimal((labels.len() - 3) as nat) + " more"@;
        assert(text.subrange(0, count.len() as int) =~= count);
        assert(text =~= (count + " selected: "@) + list + more);
        assert(text.subrange(text.len() - more.len(), text.len() as int) =~= more);
        if k < 3 {
            law_joined_texts_are_all_there(first, ", "@, k);
            lemma_mentions_within(text, count + " selected: "@, list, more, labels[k]);
        }
    }
}

/// The sentence that a gesture reads as begins with who does what, and quotes
/// the labels of the first eight targets; where there are several it says how
/// many, and where there are more than eight how many are not quoted.
pub proof fn law_a_sentence_reads_out_a_gesture(
    targets: Seq<TargetView>,
    who: Seq<char>,
    verb: Seq<char>,
    k: int,
)
    requires
        targets.len() > 0,
        0 <= k < targets.len(),
        k < 8,
    ensures
        ({
            let text = sentence(targets, who, verb);
            &&& (who + " "@ + verb + " "@).is_prefix_of(text)
            &&& mentions(text, debug_text(trimmed(targets[k].label)))
            &&& targets.len() > 1 ==> (who + " "@ + verb + " "@ + decimal(
                targets.len(),
            )).is_prefix_of(text)
            &&& targets.len() > 8 ==> (", and "@ + decimal((targets.len() - 8) as nat)
                + " more"@).is_suffix_of(text)
        }),
{
    let text = sentence(targets, who, verb);
    let labels = quoted_labels(targets);
    let head = who + " "@ + verb + " "@;
    let count = decimal(targets.len());
    assert(labels.len() == targets.len());
    assert(text.subrange(0, head.len() as int) =~= head);
    if labels.len() == 1 {
        assert(text =~= head + labels[0] + Seq::<char>::empty());
        lemma_mentions(text, head, labels[0], Seq::empty());
    } else if labels.len() <= 8 {
        let list = joined(labels, ", "@);
        law_joined_texts_are_all_there(labels, ", "@, k);
        assert(text =~= (head + count + ": "@) + list + Seq::<char>::empty());
        lemma_mentions_within(text, head + count + ": "@, list, Seq::empty(), labels[k]);
        assert(text.subrange(0, (head + count).len() as int) =~= head + count);
    } else {
        let first = labels.take(8);
        let list = joined(first, ", "@);
        let more = ", and "@ + decimal((labels.len() - 8) as nat) + " more"@;
        law_joined_texts_are_all_there(first, ", "@, k);
        assert(text =~= (head + count + ": "@) + list + more);
        lemma_mentions_within(text, head + count + ": "@, list, more, labels[k]);
        assert(text.subrange(0, (head + count).len() as int) =~= head + count);
        assert(text.subrange(text.len() - more.len(), text.len() as int) =~= more);
    }
}

// Participants.

proof fn lemma_plain(label: Seq<char>, id: Seq<char>)
    requires
        1 <= id.len() <= 160,
        forall|i: int|
            0 <= i < id.len() ==> 'a' <= #[trigger] id[i] <= 'z' || id[i] == '-',
    ensures
        id_problem(label, id) is None,
{
    assert(snug(id)) by {
        assert('a' <= id[0] <= 'z' || id[0] == '-');
        assert('a' <= id[id.len() - 1] <= 'z' || id[id.len() - 1] == '-');
    }
    law_trimming_twice_is_trimming(id);
    law_an_id_is_short_and_plain(label, id);
}

/// Every actor is a participant that is accepted: a person exactly where the
/// caller is the person, under their own id and label where those are sound, and
/// otherwise under their role.
pub proof fn law_every_actor_is_an_accepted_participant(actor: ActorView)
    ensures
        participant_of(actor).problem() is None,
        participant_of(actor).kind is Human <==> actor.caller is Human,
        ({
            let own = ParticipantView {
                id: actor.participant_id->0,
                label: actor.label->0,
                kind: participant_of(actor).kind,
            };
            actor.participant_id is Some && actor.label is Some && own.problem() is None
                ==> participant_of(actor) == own
        }),
        actor.participant_id is None && actor.label is None ==> participant_of(actor)
            == fallback_participant(actor.caller),
{
    reveal_strlit("surface-human");
    reveal_strlit("surface-agent");
    reveal_strlit("companion-agent");
    reveal_strlit("unknown-caller");
    reveal_strlit("Human");
    reveal_strlit("Agent");
    reveal_strlit("Companion agent");
    reveal_strlit("Unknown caller");
    let fallback = fallback_participant(actor.caller);
    assert(fallback.problem() is None) by {
        lemma_plain("participant id"@, "surface-human"@);
        lemma_plain("participant id"@, "surface-agent"@);
        lemma_plain("participant id"@, "companion-agent"@);
        lemma_plain("participant id"@, "unknown-caller"@);
        assert("Human"@[0] == 'H' && "Agent"@[0] == 'A' && "Companion agent"@[0] == 'C'
            && "Unknown caller"@[0] == 'U');
        lemma_blank("Human"@);
        lemma_blank("Agent"@);
        lemma_blank("Companion agent"@);
        lemma_blank("Unknown caller"@);
    }
}

/// Callers who say no more of themselves are told apart by their ids.
pub proof fn law_roles_have_ids_of_their_own(one: Caller, other: Caller)
    ensures
        fallback_participant(one).id == fallback_participant(other).id ==> one == other,
{
    reveal_strlit("surface-human");
    reveal_strlit("surface-agent");
    reveal_strlit("companion-agent");
    reveal_strlit("unknown-caller");
    assert("surface-human"@.len() == 13 && "surface-agent"@.len() == 13 && "companion-agent"@.len()
        == 15 && "unknown-caller"@.len() == 14);
    assert("surface-human"@[8] == 'h' && "surface-agent"@[8] == 'a');
}

/// A participant is accepted exactly where their id is sound and their label says
/// something in at most a hundred and twenty characters.
pub proof fn law_a_participant_has_an_id_and_a_label(participant: ParticipantView)
    ensures
        participant.problem() is None <==> {
            &&& id_problem("participant id"@, participant.id) is None
            &&& !blank(participant.label)
            &&& participant.label.len() <= 120
        },
{
}

/// What one holds is what one focuses or has selected; pointing and revealing
/// pass.
pub proof fn law_focus_and_selection_are_held(mode: AttentionMode)
    ensures
        mode.held() <==> mode is Focus || mode is Selection,
{
}

// What agents read.

/// What an agent reads of a gesture over one target names the extension, the
/// target and its description; over more it says how many and names each by its
/// id; and a message stands quoted at the end.
pub proof fn law_a_gesture_is_described_in_full(attention: AttentionView, k: int)
    requires
        0 <= k < attention.targets().len(),
    ensures
        ({
            let text = attention_text(attention);
            let targets = attention.targets();
            &&& mentions(text, attention.target.target.extension_id)
            &&& mentions(text, targets[k].target.target_id)
            &&& targets.len() == 1 ==> mentions(text, attention.target.description)
            &&& targets.len() > 1 ==> mentions(text, decimal(targets.len())) && mentions(
                text,
                debug_text(trimmed(targets[k].label)),
            )
            &&& attention.message matches Some(message) ==> debug_text(message).is_suffix_of(text)
        }),
{
    let text = attention_text(attention);
    let targets = attention.targets();
    let extension = attention.target.target.extension_id;
    let tail = match attention.message {
        Some(message) => ": "@ + debug_text(message),
        None => Seq::<char>::empty(),
    };
    if targets.len() == 1 {
        assert(targets[0] == attention.target);
        let id = attention.target.target.target_id;
        let rest = ": "@ + attention.target.description + tail;
        assert(text =~= " at "@ + extension + (":"@ + id + rest));
        lemma_mentions(text, " at "@, extension, ":"@ + id + rest);
        assert(text =~= (" at "@ + extension + ":"@) + id + rest);
        lemma_mentions(text, " at "@ + extension + ":"@, id, rest);
        let before = " at "@ + extension + ":"@ + id + ": "@;
        assert(text =~= before + attention.target.description + tail);
        lemma_mentions(text, before, attention.target.description, tail);
    } else {
        let count = decimal(targets.len());
        let pieces = Seq::new(
            targets.len(),
            |i: int|
                debug_text(trimmed(targets[i].label)) + " ("@ + targets[i].target.target_id + ")"@,
        );
        let list = joined(pieces, ", "@);
        let rest = " in "@ + extension + ": "@ + list + tail;
        assert(text =~= " over "@ + count + rest);
        lemma_mentions(text, " over "@, count, rest);
        let before = " over "@ + count + " in "@;
        assert(text =~= before + extension + (": "@ + list + tail));
        lemma_mentions(text, before, extension, ": "@ + list + tail);
        law_joined_texts_are_all_there(pieces, ", "@, k);
        let front = before + extension + ": "@;
        assert(text =~= front + list + tail);
        lemma_mentions_within(text, front, list, tail, pieces[k]);
        let id = targets[k].target.target_id;
        let label = debug_text(trimmed(targets[k].label));
        assert(pieces[k] =~= (label + " ("@) + id + ")"@);
        lemma_mentions(pieces[k], label + " ("@, id, ")"@);
        assert(pieces[k] =~= Seq::<char>::empty() + label + (" ("@ + id + ")"@));
        lemma_mentions(pieces[k], Seq::empty(), label, " ("@ + id + ")"@);
        lemma_inside(text, pieces[k], id);
        lemma_inside(text, pieces[k], label);
    }
    if let Some(message) = attention.message {
        let quoted = debug_text(message);
        assert(text.subrange(text.len() - quoted.len(), text.len() as int) =~= quoted);
    }
}

proof fn lemma_inside(text: Seq<char>, part: Seq<char>, inner: Seq<char>)
    requires
        mentions(text, part),
        mentions(part, inner),
    ensures
        mentions(text, inner),
{
    let at = choose|at: int| 0 <= at && #[trigger] text.skip(at).take(part.len() as int) == part
        && at + part.len() <= text.len();
    let head = text.take(at);
    let tail = text.skip(at + part.len());
    assert(text =~= head + part + tail);
    lemma_mentions_within(text, head, part, tail, inner);
}

/// What an agent reads of a participant says who they are, what kind of
/// participant and how they are, and ends with what they attend to.
pub proof fn law_a_participant_is_described_in_full(awareness: AwarenessView)
    ensures
        ({
            let text = awareness_text(awareness);
            &&& mentions(text, awareness.participant.label)
            &&& mentions(text, awareness.status)
            &&& mentions(
                text,
                match awareness.participant.kind {
                    ParticipantKind::Human => " (Human) is "@,
                    ParticipantKind::Agent => " (Agent) is "@,
                },
            )
            &&& awareness.attention matches Some(attention) ==> attention_text(
                attention,
            ).is_suffix_of(text)
            &&& awareness.attention is None ==> awareness.status.is_suffix_of(text)
        }),
{
    reveal_strlit(" (");
    reveal_strlit(") is ");
    reveal_strlit("Human");
    reveal_strlit("Agent");
    reveal_strlit(" (Human) is ");
    reveal_strlit(" (Agent) is ");
    let text = awareness_text(awareness);
    let label = awareness.participant.label;
    let kind = " ("@ + awareness.participant.kind.name() + ") is "@;
    let told = match awareness.attention {
        Some(attention) => attention_text(attention),
        None => Seq::<char>::empty(),
    };
    assert(kind =~= match awareness.participant.kind {
        ParticipantKind::Human => " (Human) is "@,
        ParticipantKind::Agent => " (Agent) is "@,
    });
    assert(text =~= "\n- "@ + label + (kind + awareness.status + told));
    lemma_mentions(text, "\n- "@, label, kind + awareness.status + told);
    assert(text =~= ("\n- "@ + label) + kind + (awareness.status + told));
    lemma_mentions(text, "\n- "@ + label, kind, awareness.status + told);
    assert(text =~= ("\n- "@ + label + kind) + awareness.status + told);
    lemma_mentions(text, "\n- "@ + label + kind, awareness.status, told);
    assert(text.subrange(text.len() - told.len(), text.len() as int) =~= told);
    if awareness.attention is None {
        let status = awareness.status;
        assert(text.subrange(text.len() - status.len(), text.len() as int) =~= status);
    }
}

/// What an agent reads of the awareness is under one heading and holds what is
/// to be read of everybody, each behind the one before; where nobody is there it
/// says so.
pub proof fn law_everybody_is_described_in_order(participants: Seq<AwarenessView>, k: int)
    ensures
        ({
            let heading = "Semantic attention (ephemeral context only; never authority):"@;
            let text = description(participants);
            &&& heading.is_prefix_of(text)
            &&& participants.len() == 0 ==> text == heading + "\n- nobody is present"@
            &&& 0 <= k < participants.len() ==> mentions(text, awareness_text(participants[k]))
            &&& participants.len() > 1 ==> text == description(participants.drop_last())
                + awareness_text(participants.last())
        }),
{
    let heading = "Semantic attention (ephemeral context only; never authority):"@;
    let text = description(participants);
    assert(text.subrange(0, heading.len() as int) =~= heading);
    if participants.len() > 1 {
        assert(text =~= description(participants.drop_last()) + awareness_text(
            participants.last(),
        ));
    }
    if 0 <= k < participants.len() {
        lemma_described(participants, k);
        let lines = awareness_lines(participants);
        assert(text =~= heading + lines + Seq::<char>::empty());
        lemma_mentions_within(
            text,
            heading,
            lines,
            Seq::empty(),
            awareness_text(participants[k]),
        );
    }
}

proof fn lemma_described(participants: Seq<AwarenessView>, k: int)
    requires
        0 <= k < participants.len(),
    ensures
        mentions(awareness_lines(participants), awareness_text(participants[k])),
    decreases participants.len(),
{
    let lines = awareness_lines(participants);
    let before = awareness_lines(participants.drop_last());
    let last = awareness_text(participants.last());
    if k == participants.len() - 1 {
        assert(lines =~= before + last + Seq::<char>::empty());
        lemma_mentions(lines, before, last, Seq::empty());
    } else {
        lemma_described(participants.drop_last(), k);
        assert(lines =~= Seq::<char>::empty() + before + last);
        lemma_mentions_within(lines, Seq::empty(), before, last, awareness_text(participants[k]));
    }
}

// The host's actions.

/// The host's actions are for agents alone, and their names are the reserved
/// ones; no surface beside the service declares one of them.
pub proof fn law_host_actions_are_the_reserved_ones(name: Seq<char>)
    ensures
        reserved(name) <==> exists|k: int|
            0 <= k < host_action_views().len() && (#[trigger] host_action_views()[k]).name == name,
        host_action_views().len() == 4,
        forall|k: int|
            0 <= k < host_action_views().len() ==> {
                let action = #[trigger] host_action_views()[k];
                &&& action.audience is Agent
                &&& action.parameters.text_member("type"@) == Some("object"@)
                &&& action.parameters.truth_member("additionalProperties"@) == Some(false)
            },
        reserved("semantic_targets_read"@),
        reserved("semantic_target_point"@),
        reserved("semantic_target_reveal"@),
        reserved("semantic_attention_clear"@),
{
    broadcast use group_reading;

    lemma_names();
    let all = host_action_views();
    assert(all[0].name == "semantic_targets_read"@);
    assert(all[1].name == "semantic_target_point"@);
    assert(all[2].name == "semantic_target_reveal"@);
    assert(all[3].name == "semantic_attention_clear"@);
}

/// The actions on a target require the two parts of its name and take a message;
/// the others take nothing.
pub proof fn law_a_target_action_asks_for_a_target()
    ensures
        read_texts(under(target_parameters(), "required"@)) == seq![
            "extension_id"@,
            "target_id"@,
        ],
        under(under(target_parameters(), "properties"@), "extension_id"@).text_member("type"@)
            == Some("string"@),
        under(under(target_parameters(), "properties"@), "target_id"@).text_member("type"@) == Some(
            "string"@,
        ),
        under(under(target_parameters(), "properties"@), "message"@).member("maxLength"@) == Some(
            JsonView::Number("240"@),
        ),
        no_parameters().member("required"@) is None,
        host_action_views()[0].parameters == no_parameters(),
        host_action_views()[1].parameters == target_parameters(),
        host_action_views()[2].parameters == target_parameters(),
        host_action_views()[3].parameters == no_parameters(),
{
    broadcast use group_reading;

    lemma_names();
    let required = read_texts(under(target_parameters(), "required"@));
    assert(required =~= seq!["extension_id"@, "target_id"@]);
}

/// Pointing at a target, or revealing it, makes the calling agent's gesture over
/// the target that the arguments name, in the mode of the action; the answer
/// names the target, and a gesture that is not accepted changes nothing.
pub proof fn law_an_agents_gesture_is_its_own(
    before: ServiceView,
    after: ServiceView,
    outcome: Result<Seq<char>, Seq<char>>,
    args: JsonView,
    directory: Seq<(RefView, LookupView)>,
    now: u64,
    reveals: bool,
    extension_id: Seq<char>,
    target_id: Seq<char>,
)
    requires
        before.wf(),
        before.sequence < u64::MAX,
        now < u64::MAX,
        args.text_member("extension_id"@) == Some(extension_id),
        args.text_member("target_id"@) == Some(target_id),
        host_action_runs(
            before,
            after,
            outcome,
            if reveals {
                "semantic_target_reveal"@
            } else {
                "semantic_target_point"@
            },
            args,
            directory,
            now,
        ),
    ensures
        ({
            let named = RefView { extension_id, target_id };
            let found = resolution(before.namespaces, directory, named);
            &&& outcome is Ok <==> before.current.problem() is None && message_problem(
                args.text_member("message"@),
            ) is None && found is Ok
            &&& outcome is Err ==> after == before
            &&& outcome matches Ok(text) ==> {
                &&& mentions(text, extension_id + ":"@ + target_id)
                &&& mentions(text, found->Ok_0.description)
                &&& record_of(after.records, before.current) matches Some(record) && {
                    &&& record.active(now)
                    &&& record.attention->0.mode == (if reveals {
                        AttentionMode::Reveal
                    } else {
                        AttentionMode::Pointer
                    })
                    &&& record.attention->0.targets() == seq![found->Ok_0]
                    &&& found->Ok_0.target == named
                    &&& record.attention->0.message == normalized_message(
                        args.text_member("message"@),
                    )
                }
            }
        }),
{
    lemma_names();
    let named = RefView { extension_id, target_id };
    let message = args.text_member("message"@);
    let one = Seq::<RefView>::empty().push(named);
    assert(one =~= seq![named]);
    law_a_gesture_over_one_target_needs_it_resolved(
        before,
        before.current,
        named,
        message,
        directory,
    );
    assert(target_argument(args) == named);
    if outcome is Ok {
        let mode = if reveals {
            AttentionMode::Reveal
        } else {
            AttentionMode::Pointer
        };
        let found = resolution(before.namespaces, directory, named)->Ok_0;
        law_an_accepted_gesture_is_read_back(
            before,
            before.current,
            mode,
            one,
            message,
            directory,
            now,
        );
        assert(one.drop_last() =~= Seq::empty());
        assert(!one.drop_last().contains(named));
        let targets = crate::awareness::resolutions(before.namespaces, directory, one)->Ok_0;
        assert(crate::awareness::resolutions(before.namespaces, directory, one.drop_last()) == Ok::<
            Seq<TargetView>,
            Seq<char>,
        >(Seq::empty()));
        assert(targets =~= Seq::empty().push(found));
        assert(gesture(mode, targets, normalized_message(message)).targets() =~= seq![found]);
        let verb = if reveals {
            "revealing "@
        } else {
            "pointing at "@
        };
        let text = outcome->Ok_0;
        let name = extension_id + ":"@ + target_id;
        assert(text =~= verb + name + (": "@ + found.description));
        lemma_mentions(text, verb, name, ": "@ + found.description);
        assert(text =~= (verb + name + ": "@) + found.description + Seq::<char>::empty());
        lemma_mentions(text, verb + name + ": "@, found.description, Seq::empty());
    }
}

proof fn lemma_names()
    ensures
        "semantic_targets_read"@.len() == 21,
        "semantic_targets_read"@[15] == 's',
        "semantic_target_point"@.len() == 21,
        "semantic_target_point"@[15] == '_',
        "semantic_target_reveal"@.len() == 22,
        "semantic_attention_clear"@.len() == 24,
        "type"@.len() == 4,
        "properties"@.len() == 10,
        "required"@.len() == 8,
        "additionalProperties"@.len() == 20,
        "extension_id"@.len() == 12,
        "target_id"@.len() == 9,
        "target_id"@[0] == 't',
        "message"@.len() == 7,
        "maxLength"@.len() == 9,
        "maxLength"@[0] == 'm',
        "description"@.len() == 11,
{
    reveal_strlit("semantic_targets_read");
    reveal_strlit("semantic_target_point");
    reveal_strlit("semantic_target_reveal");
    reveal_strlit("semantic_attention_clear");
    reveal_strlit("type");
    reveal_strlit("properties");
    reveal_strlit("required");
    reveal_strlit("additionalProperties");
    reveal_strlit("extension_id");
    reveal_strlit("target_id");
    reveal_strlit("message");
    reveal_strlit("maxLength");
    reveal_strlit("description");
}

/// Reading the awareness changes nobody's gesture and answers with what there is
/// to read; clearing lets the calling agent go.
pub proof fn law_reading_and_clearing_do_what_they_say(
    before: ServiceView,
    after: ServiceView,
    outcome: Result<Seq<char>, Seq<char>>,
    args: JsonView,
    directory: Seq<(RefView, LookupView)>,
    now: u64,
)
    ensures
        host_action_runs(
            before,
            after,
            outcome,
            "semantic_targets_read"@,
            args,
            directory,
            now,
        ) ==> {
            &&& after == (ServiceView {
                records: cleaned(before.records, directory, now),
                ..before
            })
            &&& outcome matches Ok(text) && text == description(
                snapshot_of(after.records, now).participants,
            )
        },
        host_action_runs(
            before,
            after,
            outcome,
            "semantic_attention_clear"@,
            args,
            directory,
            now,
        ) ==> {
            &&& outcome is Ok <==> before.current.problem() is None
            &&& outcome is Ok ==> after == cleared(before, before.current, directory, now)
            &&& outcome is Err ==> after == before
        },
{
    lemma_names();
}

/// The service is installed beside a surface exactly where its namespaces are
/// accepted and, where there are any, no action of the surface has a reserved
/// name.
pub proof fn law_the_service_is_installed_beside_other_names(
    namespaces: Seq<Seq<char>>,
    actions: Seq<ActionView>,
)
    ensures
        install_problem(namespaces, actions) is None <==> {
            &&& namespaces_problem(namespaces) is None
            &&& namespaces.len() == 0 || forall|i: int|
                0 <= i < actions.len() ==> !reserved((#[trigger] actions[i]).name)
        },
{
    lemma_colliding(actions);
}

proof fn lemma_colliding(actions: Seq<ActionView>)
    ensures
        colliding(actions) is None <==> forall|i: int|
            0 <= i < actions.len() ==> !reserved((#[trigger] actions[i]).name),
    decreases actions.len(),
{
    if actions.len() > 0 && !reserved(actions[0].name) {
        let rest = actions.skip(1);
        lemma_colliding(rest);
        if colliding(rest) is None {
            assert forall|i: int| 0 <= i < actions.len() implies !reserved(
                (#[trigger] actions[i]).name,
            ) by {
                if i > 0 {
                    assert(!reserved(rest[i - 1].name));
                }
            }
        } else if forall|i: int|
            0 <= i < actions.len() ==> !reserved((#[trigger] actions[i]).name) {
            assert forall|i: int| 0 <= i < rest.len() implies !reserved(
                (#[trigger] rest[i]).name,
            ) by {
                assert(!reserved(actions[i + 1].name));
            }
        }
    }
}

// Routes.

/// A browser speaks for the person that its request names, trimmed, under the
/// label that it gives, and under a general one where it gives none.
pub proof fn law_a_browser_speaks_for_whom_it_names(body: JsonView)
    ensures
        ({
            let id = body.text_member("participantId"@);
            let label = body.text_member("participantLabel"@);
            let named = id is Some && !blank(id->0);
            &&& browser_person(body) is Some <==> named
            &&& named ==> browser_person(body)->0.id == trimmed(id->0)
                && browser_person(body)->0.kind is Human && browser_person(body)->0.label == (
            if label is Some && !blank(label->0) {
                trimmed(label->0)
            } else {
                "Human"@
            })
        }),
{
}

/// An answer that carries a snapshot is `ok` and carries it whole.
pub proof fn law_a_snapshot_answer_carries_the_snapshot(snapshot: SnapshotView)
    ensures
        snapshot_answer(snapshot).status == 200,
        snapshot_answer(snapshot).body.truth_member("ok"@) == Some(true),
        snapshot_answer(snapshot).body.member("snapshot"@) == Some(
            crate::attention::snapshot_value(snapshot),
        ),
{
    broadcast use group_reading;

    reveal_strlit("ok");
    reveal_strlit("snapshot");
    assert("ok"@.len() != "snapshot"@.len());
}

/// A request of a person who is named and accepted is carried out and answered
/// with what everybody is shown then; any other changes nothing and is told
/// what is wrong.
pub proof fn law_a_persons_request_is_carried_out(
    before: ServiceView,
    after: ServiceView,
    reply: ReplyView,
    body: JsonView,
    accepted: spec_fn(ParticipantView) -> ServiceView,
    now: u64,
)
    requires
        person_request(before, after, reply, body, accepted, now),
    ensures
        match browser_person(body) {
            None => after == before && reply == error_reply(400, "missing participantId"@),
            Some(person) => {
                &&& person.problem() is None ==> after == accepted(person) && reply
                    == snapshot_answer(snapshot_of(after.records, now))
                &&& person.problem() matches Some(problem) ==> after == before && reply
                    == error_reply(422, problem)
            },
        },
{
}

/// A browser's gesture is tried exactly where somebody makes it, its mode is to
/// focus or to select, and it names a target that can be read.
pub proof fn law_a_browsers_gesture_is_focus_or_selection(
    body: JsonView,
    target: Result<RefView, Seq<char>>,
)
    ensures
        focus_refusal(body, target) is None <==> {
            &&& browser_person(body) is Some
            &&& body.text_member("mode"@) matches Some(mode) ==> mode == "focus"@ || mode
                == "selection"@
            &&& body.member("target"@) is Some
            &&& target is Ok
        },
        focus_refusal(body, target) matches Some(reply) ==> reply.status == 400,
        body.text_member("mode"@) == Some("selection"@) ==> focus_mode(body) is Selection,
        body.text_member("mode"@) == Some("focus"@) ==> focus_mode(body) is Focus,
        body.text_member("mode"@) is None ==> focus_mode(body) is Focus,
{
    reveal_strlit("focus");
    reveal_strlit("selection");
    assert("focus"@.len() != "selection"@.len());
}

/// An accepted gesture of a browser is its person's, over the target that it
/// names; the answer carries the target and what everybody is shown then. A
/// gesture that is not accepted changes nothing.
pub proof fn law_a_browsers_gesture_is_carried_out(
    before: ServiceView,
    after: ServiceView,
    reply: ReplyView,
    body: JsonView,
    target: Result<RefView, Seq<char>>,
    directory: Seq<(RefView, LookupView)>,
    now: u64,
)
    requires
        focus_request(before, after, reply, body, target, directory, now),
    ensures
        reply.status == 200 <==> focus_refusal(body, target) is None && gesture_problem(
            before,
            browser_person(body)->0,
            seq![target->Ok_0],
            body.text_member("message"@),
            directory,
        ) is None,
        reply.status != 200 ==> after == before,
        reply.status == 200 ==> {
            let found = resolution(before.namespaces, directory, target->Ok_0)->Ok_0;
            &&& reply.body.truth_member("ok"@) == Some(true)
            &&& read_target(under(reply.body, "target"@)) == Some(found)
            &&& reply.body.member("snapshot"@) == Some(
                crate::attention::snapshot_value(snapshot_of(after.records, now)),
            )
            &&& after.records == cleaned(
                attended(
                    before,
                    browser_person(body)->0,
                    focus_mode(body),
                    seq![found],
                    body.text_member("message"@),
                    directory,
                    now,
                ).records,
                directory,
                now,
            )
        },
{
    broadcast use group_reading;

    reveal_strlit("ok");
    reveal_strlit("target");
    reveal_strlit("snapshot");
    assert("ok"@.len() == 2 && "target"@.len() == 6 && "snapshot"@.len() == 8);
    assert(Seq::<RefView>::empty().push(target->Ok_0) =~= seq![target->Ok_0]);
    let found = resolution(before.namespaces, directory, target->Ok_0)->Ok_0;
    assert(Seq::<TargetView>::empty().push(found) =~= seq![found]);
    law_a_target_is_read_back(found);
    law_a_browsers_gesture_is_focus_or_selection(body, target);
}

} // verus!
