//! What a reader finds in awareness on the wire.

use vstd::prelude::*;

use crate::attention::{
    anchor_value, attention_value, awareness_value, participant_value, ref_value, snapshot_value,
    target_value, target_values,
};
use crate::awareness::{AwarenessView, SnapshotView};
use crate::json::{group_reading, item_under, lists_under, read_texts, under, JsonView};
use crate::semantic_targets::{
    AnchorView, AttentionMode, AttentionView, ParticipantKind, ParticipantView, RefView,
    TargetView,
};
use crate::text::decimal;

verus! {

/// The target that a reader finds named in a value.
pub open spec fn read_ref(value: JsonView) -> Option<RefView> {
    match (value.text_member("extensionId"@), value.text_member("targetId"@)) {
        (Some(extension_id), Some(target_id)) => Some(RefView { extension_id, target_id }),
        _ => None,
    }
}

/// The target that a reader finds described in a value.
pub open spec fn read_target(value: JsonView) -> Option<TargetView> {
    match (
        read_ref(under(value, "target"@)),
        value.text_member("label"@),
        value.text_member("description"@),
        value.truth_member("spatial"@),
    ) {
        (Some(target), Some(label), Some(description), Some(spatial)) => Some(
            TargetView { target, label, description, spatial },
        ),
        _ => None,
    }
}

/// The mode that a word names.
pub open spec fn read_mode(word: Option<Seq<char>>) -> Option<AttentionMode> {
    if word == Some("focus"@) {
        Some(AttentionMode::Focus)
    } else if word == Some("selection"@) {
        Some(AttentionMode::Selection)
    } else if word == Some("pointer"@) {
        Some(AttentionMode::Pointer)
    } else if word == Some("reveal"@) {
        Some(AttentionMode::Reveal)
    } else {
        None
    }
}

/// The kind of participant that a word names.
pub open spec fn read_kind(word: Option<Seq<char>>) -> Option<ParticipantKind> {
    if word == Some("human"@) {
        Some(ParticipantKind::Human)
    } else if word == Some("agent"@) {
        Some(ParticipantKind::Agent)
    } else {
        None
    }
}

/// The participant that a reader finds in a value.
pub open spec fn read_participant(value: JsonView) -> Option<ParticipantView> {
    match (
        value.text_member("id"@),
        value.text_member("label"@),
        read_kind(value.text_member("kind"@)),
    ) {
        (Some(id), Some(label), Some(kind)) => Some(ParticipantView { id, label, kind }),
        _ => None,
    }
}

/// The targets that a reader finds in a list.
pub open spec fn read_targets(value: JsonView) -> Seq<Option<TargetView>> {
    match value {
        JsonView::Array(items) => Seq::new(items.len(), |i: int| read_target(items[i])),
        _ => Seq::empty(),
    }
}

/// Whether a value says what an anchor says.
pub open spec fn tells_anchor(value: JsonView, anchor: AnchorView) -> bool {
    &&& read_ref(under(value, "target"@)) == Some(anchor.target)
    &&& value.text_member("label"@) == Some(anchor.label)
    &&& value.member("count"@) == Some(JsonView::Number(decimal(anchor.count)))
    &&& read_texts(under(value, "labels"@)) == anchor.labels
}

/// Whether a value says what a gesture says.
pub open spec fn tells_attention(value: JsonView, attention: AttentionView) -> bool {
    &&& read_mode(value.text_member("mode"@)) == Some(attention.mode)
    &&& read_target(under(value, "target"@)) == Some(attention.target)
    &&& value.member("additionalTargets"@) is Some <==> attention.additional_targets.len() > 0
    &&& read_targets(under(value, "additionalTargets"@)) == Seq::new(
        attention.additional_targets.len(),
        |i: int| Some(attention.additional_targets[i]),
    )
    &&& tells_anchor(under(value, "anchor"@), attention.anchor)
    &&& value.member("message"@) is Some <==> attention.message is Some
    &&& value.text_member("message"@) == attention.message
}

/// Whether a value says what is known of a participant.
pub open spec fn tells_awareness(value: JsonView, awareness: AwarenessView) -> bool {
    &&& read_participant(under(value, "participant"@)) == Some(awareness.participant)
    &&& value.text_member("status"@) == Some(awareness.status)
    &&& value.truth_member("present"@) == Some(awareness.present)
    &&& value.truth_member("active"@) == Some(awareness.active)
    &&& value.member("activeForMs"@) == Some(
        JsonView::Number(decimal(awareness.active_for_ms as nat)),
    )
    &&& value.member("presentForMs"@) == Some(
        JsonView::Number(decimal(awareness.present_for_ms as nat)),
    )
    &&& value.member("attention"@) is Some <==> awareness.attention is Some
    &&& awareness.attention matches Some(attention) ==> tells_attention(
        under(value, "attention"@),
        attention,
    )
}

/// The names and words of the wire differ from each other.
proof fn lemma_names()
    ensures
        "extensionId"@.len() == 11,
        "extensionId"@[0] == 'e',
        "targetId"@.len() == 8,
        "target"@.len() == 6,
        "target"@[0] == 't',
        "label"@.len() == 5,
        "label"@[0] == 'l',
        "description"@.len() == 11,
        "description"@[0] == 'd',
        "spatial"@.len() == 7,
        "spatial"@[0] == 's',
        "id"@.len() == 2,
        "kind"@.len() == 4,
        "kind"@[0] == 'k',
        "human"@.len() == 5,
        "human"@[0] == 'h',
        "agent"@.len() == 5,
        "agent"@[0] == 'a',
        "count"@.len() == 5,
        "count"@[0] == 'c',
        "labels"@.len() == 6,
        "labels"@[0] == 'l',
        "mode"@.len() == 4,
        "mode"@[0] == 'm',
        "additionalTargets"@.len() == 17,
        "anchor"@.len() == 6,
        "anchor"@[0] == 'a',
        "anchor"@[1] == 'n',
        "message"@.len() == 7,
        "message"@[0] == 'm',
        "focus"@.len() == 5,
        "focus"@[0] == 'f',
        "selection"@.len() == 9,
        "selection"@[0] == 's',
        "pointer"@.len() == 7,
        "pointer"@[0] == 'p',
        "pointer"@[1] == 'o',
        "reveal"@.len() == 6,
        "reveal"@[0] == 'r',
        "participant"@.len() == 11,
        "participant"@[0] == 'p',
        "status"@.len() == 6,
        "status"@[0] == 's',
        "present"@.len() == 7,
        "present"@[0] == 'p',
        "present"@[1] == 'r',
        "active"@.len() == 6,
        "active"@[0] == 'a',
        "active"@[1] == 'c',
        "activeForMs"@.len() == 11,
        "activeForMs"@[0] == 'a',
        "presentForMs"@.len() == 12,
        "presentForMs"@[1] == 'r',
        "attention"@.len() == 9,
        "attention"@[0] == 'a',
        "attention"@[1] == 't',
        "schemaVersion"@.len() == 13,
        "authority"@.len() == 9,
        "authority"@[0] == 'a',
        "authority"@[1] == 'u',
        "durable"@.len() == 7,
        "durable"@[0] == 'd',
        "participants"@.len() == 12,
        "participants"@[1] == 'a',
{
    reveal_strlit("extensionId");
    reveal_strlit("targetId");
    reveal_strlit("target");
    reveal_strlit("label");
    reveal_strlit("description");
    reveal_strlit("spatial");
    reveal_strlit("id");
    reveal_strlit("kind");
    reveal_strlit("human");
    reveal_strlit("agent");
    reveal_strlit("count");
    reveal_strlit("labels");
    reveal_strlit("mode");
    reveal_strlit("additionalTargets");
    reveal_strlit("anchor");
    reveal_strlit("message");
    reveal_strlit("focus");
    reveal_strlit("selection");
    reveal_strlit("pointer");
    reveal_strlit("reveal");
    reveal_strlit("participant");
    reveal_strlit("status");
    reveal_strlit("present");
    reveal_strlit("active");
    reveal_strlit("activeForMs");
    reveal_strlit("presentForMs");
    reveal_strlit("attention");
    reveal_strlit("schemaVersion");
    reveal_strlit("authority");
    reveal_strlit("durable");
    reveal_strlit("participants");
}

/// A target is read back from its wire value as the one that was written.
pub proof fn law_a_target_is_read_back(target: TargetView)
    ensures
        read_ref(ref_value(target.target)) == Some(target.target),
        read_target(target_value(target)) == Some(target),
{
    broadcast use group_reading;

    lemma_names();
}

/// A list of targets is read back in its order.
pub proof fn law_targets_are_read_back(targets: Seq<TargetView>)
    ensures
        read_targets(target_values(targets)) == Seq::new(
            targets.len(),
            |i: int| Some(targets[i]),
        ),
{
    assert forall|i: int| 0 <= i < targets.len() implies read_targets(target_values(targets))[i]
        == Some(#[trigger] targets[i]) by {
        law_a_target_is_read_back(targets[i]);
    }
    assert(read_targets(target_values(targets)) =~= Seq::new(
        targets.len(),
        |i: int| Some(targets[i]),
    ));
}

/// A participant is read back from the wire value as the one that was written.
pub proof fn law_a_participant_is_read_back(participant: ParticipantView)
    ensures
        read_participant(participant_value(participant)) == Some(participant),
{
    broadcast use group_reading;

    lemma_names();
}

/// An anchor's wire value says what the anchor says.
pub proof fn law_an_anchor_is_read_back(anchor: AnchorView)
    ensures
        tells_anchor(anchor_value(anchor), anchor),
{
    broadcast use group_reading;

    lemma_names();
    law_a_target_is_read_back(
        TargetView {
            target: anchor.target,
            label: Seq::empty(),
            description: Seq::empty(),
            spatial: false,
        },
    );
    let value = anchor_value(anchor);
    assert(read_texts(under(value, "labels"@)) =~= anchor.labels);
}

/// A gesture's wire value says what the gesture says: its mode, all its targets
/// in order, its anchor, and its message where it has one.
pub proof fn law_a_gesture_is_told_in_full(attention: AttentionView)
    ensures
        tells_attention(attention_value(attention), attention),
{
    broadcast use group_reading;

    lemma_names();
    law_a_target_is_read_back(attention.target);
    law_targets_are_read_back(attention.additional_targets);
    law_an_anchor_is_read_back(attention.anchor);
    let value = attention_value(attention);
    if attention.additional_targets.len() == 0 {
        assert(read_targets(under(value, "additionalTargets"@)) =~= Seq::new(
            attention.additional_targets.len(),
            |i: int| Some(attention.additional_targets[i]),
        ));
    }
}

/// What is written of a participant says who they are and how they are, and
/// what they attend to exactly where they attend to something.
pub proof fn law_a_participant_is_told_in_full(awareness: AwarenessView)
    ensures
        tells_awareness(awareness_value(awareness), awareness),
{
    broadcast use group_reading;

    lemma_names();
    law_a_participant_is_read_back(awareness.participant);
    if let Some(attention) = awareness.attention {
        law_a_gesture_is_told_in_full(attention);
    }
}

/// A snapshot on the wire tells everybody who is in it, in order and in full: a
/// participant has an attention there exactly where they attend to something,
/// and then its mode and its target are the gesture's own.
pub proof fn law_a_snapshot_tells_everybody_in_full(snapshot: SnapshotView)
    ensures
        ({
            let value = snapshot_value(snapshot);
            &&& value.member("schemaVersion"@) == Some(
                JsonView::Number(decimal(snapshot.schema_version as nat)),
            )
            &&& value.text_member("authority"@) == Some(snapshot.authority)
            &&& value.truth_member("durable"@) == Some(snapshot.durable)
            &&& lists_under(value, "participants"@, snapshot.participants.len())
            &&& forall|k: int|
                0 <= k < snapshot.participants.len() ==> {
                    let told = #[trigger] item_under(value, "participants"@, k);
                    let known = snapshot.participants[k];
                    &&& tells_awareness(told, known)
                    &&& told.member("attention"@) is Some <==> known.attention is Some
                    &&& known.attention matches Some(attention) ==> {
                        let gesture = under(told, "attention"@);
                        let named = under(under(gesture, "target"@), "target"@);
                        &&& read_mode(gesture.text_member("mode"@)) == Some(attention.mode)
                        &&& named.text_member("extensionId"@) == Some(
                            attention.target.target.extension_id,
                        )
                        &&& named.text_member("targetId"@) == Some(
                            attention.target.target.target_id,
                        )
                    }
                }
        }),
{
    broadcast use group_reading;

    lemma_names();
    let value = snapshot_value(snapshot);
    assert forall|k: int| 0 <= k < snapshot.participants.len() implies tells_awareness(
        #[trigger] item_under(value, "participants"@, k),
        snapshot.participants[k],
    ) by {
        law_a_participant_is_told_in_full(snapshot.participants[k]);
    }
}

} // verus!
