//! What a gesture, a heartbeat, a letting go and a departure leave behind, and
//! what is found and shown of it.

use vstd::prelude::*;

use crate::awareness::{
    answer, attended, cleaned, cleared, departed, gesture_problem, in_order, is_active, is_idle,
    namespaces_problem, new_service, newest, of_others, presented, put, record_of, refreshed,
    refs_in, renewed, resolution, resolutions, snapshot_of, sorted_texts, sought_in, survivors,
    LookupView, RecordView, ServiceView, SoughtView,
};
use crate::awareness_laws::{
    law_cleaning_keeps_who_is_present, lemma_filter_keeps, lemma_one_record, lemma_put,
    lemma_record_of,
};
use crate::lists::lemma_no_problem;
use crate::semantic_targets::{
    gesture, id_problem, message_problem, normalized_message, AttentionMode, ParticipantKind,
    ParticipantView, RefView, TargetView,
};
use crate::text::{blank, text_before};

verus! {

// What is shown.

/// A participant is shown as attending exactly while their gesture's lease runs,
/// with the gesture and with the time that is left of both leases.
pub proof fn law_a_record_is_shown_as_it_is(record: RecordView, now: u64)
    ensures
        ({
            let shown = record.shown(now);
            let attends = record.attention is Some && now < record.active_until;
            &&& shown.participant == record.participant
            &&& shown.active <==> attends
            &&& attends ==> shown.attention == record.attention && shown.status == "active"@
            &&& !attends ==> shown.attention is None && shown.status == "present"@
            &&& now < record.active_until ==> shown.active_for_ms == record.active_until - now
            &&& now < record.present_until ==> shown.present_for_ms == record.present_until - now
            &&& record.active_until <= now ==> shown.active_for_ms == 0
        }),
{
}

/// Everybody on record is in the snapshot as they are shown, and nobody else.
pub proof fn law_a_snapshot_shows_everybody_on_record(
    records: Seq<RecordView>,
    now: u64,
    at: int,
)
    requires
        0 <= at < records.len(),
    ensures
        snapshot_of(records, now).participants.contains(records[at].shown(now)),
        snapshot_of(records, now).schema_version == 1,
        snapshot_of(records, now).authority == "context_only"@,
        !snapshot_of(records, now).durable,
        forall|k: int|
            0 <= k < snapshot_of(records, now).participants.len() ==> exists|i: int|
                0 <= i < records.len() && (#[trigger] records[i]).shown(now)
                    == #[trigger] snapshot_of(records, now).participants[k],
{
    broadcast use vstd::seq_lib::group_filter_ensures;

    let active = records.filter(is_active(now));
    let idle = records.filter(is_idle(now));
    let both = active + idle;
    let shown = snapshot_of(records, now).participants;
    let record = records[at];
    if record.active(now) {
        assert(is_active(now)(record));
        assert(active.contains(record));
        let k = choose|k: int| 0 <= k < active.len() && active[k] == record;
        assert(both[k] == record);
        assert(shown[k] == record.shown(now));
    } else {
        assert(is_idle(now)(record));
        assert(idle.contains(record));
        let k = choose|k: int| 0 <= k < idle.len() && idle[k] == record;
        assert(both[active.len() + k] == record);
        assert(shown[active.len() + k] == record.shown(now));
    }
    lemma_filter_keeps(records, is_active(now));
    lemma_filter_keeps(records, is_idle(now));
    assert forall|k: int| 0 <= k < shown.len() implies exists|i: int|
        0 <= i < records.len() && (#[trigger] records[i]).shown(now) == #[trigger] shown[k] by {
        let item = both[k];
        if k < active.len() {
            assert(records.contains(active[k]));
        } else {
            assert(records.contains(idle[k - active.len()]));
        }
        let i = choose|i: int| 0 <= i < records.len() && records[i] == item;
        assert(records[i].shown(now) == shown[k]);
    }
}

// What operations leave behind.

/// Whether everything that a gesture names is there as it was.
pub open spec fn all_there(
    targets: Seq<TargetView>,
    directory: Seq<(RefView, LookupView)>,
) -> bool {
    forall|i: int|
        0 <= i < targets.len() ==> answer(directory, (#[trigger] targets[i]).target)
            == LookupView::Found(targets[i])
}

/// Targets that are still there survive, in order; where all of them are as they
/// were, nothing changes. A target that is gone does not survive.
pub proof fn law_targets_that_are_there_survive(
    targets: Seq<TargetView>,
    directory: Seq<(RefView, LookupView)>,
)
    ensures
        all_there(targets, directory) ==> survivors(targets, directory) == targets,
        forall|i: int|
            0 <= i < targets.len() ==> ((
            answer(directory, (#[trigger] targets[i]).target) matches LookupView::Found(found)
                && found.target == targets[i].target) ==> exists|k: int|
                0 <= k < survivors(targets, directory).len() && #[trigger] survivors(
                    targets,
                    directory,
                )[k].target == targets[i].target),
    decreases targets.len(),
{
    if targets.len() > 0 {
        let rest = targets.drop_last();
        law_targets_that_are_there_survive(rest, directory);
        let left = survivors(targets, directory);
        let before = survivors(rest, directory);
        assert(targets[targets.len() - 1] == targets.last());
        if all_there(targets, directory) {
            assert forall|i: int| 0 <= i < rest.len() implies answer(
                directory,
                (#[trigger] rest[i]).target,
            ) == LookupView::Found(rest[i]) by {
                assert(rest[i] == targets[i]);
            }
            assert(left =~= targets);
        }
        assert forall|i: int|
            0 <= i < targets.len() && (
            answer(directory, (#[trigger] targets[i]).target) matches LookupView::Found(found)
                && found.target == targets[i].target) implies exists|k: int|
            0 <= k < left.len() && #[trigger] left[k].target == targets[i].target by {
            if i < rest.len() {
                assert(rest[i] == targets[i]);
                let k = choose|k: int|
                    0 <= k < before.len() && #[trigger] before[k].target == rest[i].target;
                assert(left[k] == before[k]);
            } else {
                assert(left[left.len() - 1].target == targets[i].target);
            }
        }
    } else {
        assert(survivors(targets, directory) =~= targets);
    }
}

proof fn lemma_left_behind(
    records: Seq<RecordView>,
    record: RecordView,
    directory: Seq<(RefView, LookupView)>,
    now: u64,
)
    requires
        in_order(records),
        record.present_until > now,
    ensures
        record_of(cleaned(put(records, record), directory, now), record.participant) == Some(
            refreshed(record, directory, now),
        ),
{
    lemma_put(records, record);
    law_cleaning_keeps_who_is_present(put(records, record), directory, now, record.participant);
}

/// Who makes a gesture over targets that are there attends to them, in that mode
/// and with that message, for half a minute, and is present for three quarters
/// of one.
pub proof fn law_a_gesture_is_held_for_its_lease(
    service: ServiceView,
    participant: ParticipantView,
    mode: AttentionMode,
    targets: Seq<TargetView>,
    message: Option<Seq<char>>,
    directory: Seq<(RefView, LookupView)>,
    now: u64,
)
    requires
        service.wf(),
        service.sequence < u64::MAX,
        now + 45_000 <= u64::MAX,
        targets.len() > 0,
        all_there(targets, directory),
    ensures
        ({
            let after = attended(service, participant, mode, targets, message, directory, now);
            let record = record_of(after.records, participant);
            &&& after.sequence == service.sequence + 1
            &&& record matches Some(record) && {
                &&& record.participant == participant
                &&& record.active_until == now + 30_000
                &&& record.present_until == now + 45_000
                &&& record.sequence == after.sequence
                &&& record.attention matches Some(attention) && {
                    &&& attention.mode == mode
                    &&& attention.targets() == targets
                    &&& attention.message == normalized_message(message)
                }
            }
            &&& after.namespaces == service.namespaces
            &&& after.current == service.current
        }),
{
    let record = RecordView {
        participant,
        attention: Some(gesture(mode, targets, normalized_message(message))),
        active_until: (now + 30_000) as u64,
        present_until: (now + 45_000) as u64,
        sequence: (service.sequence + 1) as u64,
    };
    lemma_left_behind(service.records, record, directory, now);
    law_targets_that_are_there_survive(targets, directory);
    let made = gesture(mode, targets, normalized_message(message));
    assert(made.targets() =~= targets);
}

/// Who lets go attends to nothing from then on, and stays present.
pub proof fn law_letting_go_leaves_one_present(
    service: ServiceView,
    participant: ParticipantView,
    directory: Seq<(RefView, LookupView)>,
    now: u64,
)
    requires
        service.wf(),
        service.sequence < u64::MAX,
        now + 45_000 <= u64::MAX,
    ensures
        ({
            let after = cleared(service, participant, directory, now);
            &&& record_of(after.records, participant) matches Some(record) && {
                &&& record.participant == participant
                &&& record.attention is None
                &&& !record.active(now)
                &&& record.present_until == now + 45_000
            }
            &&& after.sequence == service.sequence + 1
            &&& after.namespaces == service.namespaces
        }),
{
    let record = RecordView {
        participant,
        attention: None,
        active_until: now,
        present_until: (now + 45_000) as u64,
        sequence: (service.sequence + 1) as u64,
    };
    lemma_left_behind(service.records, record, directory, now);
}

/// A heartbeat makes one present for its lease; it makes no gesture, counts
/// none, and keeps a live one whose targets are there.
pub proof fn law_a_heartbeat_makes_present(
    service: ServiceView,
    participant: ParticipantView,
    directory: Seq<(RefView, LookupView)>,
    now: u64,
)
    requires
        service.wf(),
        now + 45_000 <= u64::MAX,
    ensures
        ({
            let after = presented(service, participant, directory, now);
            let before = record_of(service.records, participant);
            &&& after.sequence == service.sequence
            &&& record_of(after.records, participant) matches Some(record) && {
                &&& record.participant == participant
                &&& record.present_until == now + 45_000
                &&& before is None ==> record.attention is None && !record.active(now)
                &&& before matches Some(earlier) ==> {
                    &&& !earlier.active(now) ==> record.attention is None
                    &&& earlier.attention matches Some(attention) ==> (earlier.active_until > now
                        && all_there(attention.targets(), directory) ==> (
                    record.attention matches Some(kept) && kept.mode == attention.mode
                        && kept.targets() == attention.targets() && kept.message
                        == attention.message))
                }
            }
        }),
{
    let before = record_of(service.records, participant);
    let record = renewed(before, participant, now);
    lemma_left_behind(service.records, record, directory, now);
    if let Some(earlier) = before {
        if let Some(attention) = earlier.attention {
            law_targets_that_are_there_survive(attention.targets(), directory);
            if all_there(attention.targets(), directory) {
                let kept = gesture(attention.mode, attention.targets(), attention.message);
                assert(attention.targets().len() > 0);
                assert(kept.targets() =~= attention.targets());
            }
        }
    }
}

/// A letting go, a heartbeat and a departure leave the records of everybody else
/// as cleaning leaves them.
pub proof fn law_one_participant_moves_at_a_time(
    service: ServiceView,
    participant: ParticipantView,
    directory: Seq<(RefView, LookupView)>,
    now: u64,
    other: ParticipantView,
)
    requires
        service.wf(),
        !other.is(participant),
    ensures
        ({
            let kept = record_of(cleaned(service.records, directory, now), other);
            &&& record_of(cleared(service, participant, directory, now).records, other) == kept
            &&& record_of(presented(service, participant, directory, now).records, other) == kept
            &&& record_of(departed(service, participant, directory, now).records, other) == kept
        }),
{
    let records = service.records;
    let idle = RecordView {
        participant,
        attention: None,
        active_until: now,
        present_until: crate::awareness::later(
            now,
            crate::semantic_targets::PRESENCE_LEASE_MS,
        ),
        sequence: (service.sequence + 1) as u64,
    };
    let there = renewed(record_of(records, participant), participant, now);
    lemma_put(records, idle);
    lemma_put(records, there);
    law_cleaning_keeps_who_is_present(put(records, idle), directory, now, other);
    law_cleaning_keeps_who_is_present(put(records, there), directory, now, other);
    law_cleaning_keeps_who_is_present(records, directory, now, other);
    let others = records.filter(of_others(participant));
    lemma_filter_keeps(records, of_others(participant));
    law_cleaning_keeps_who_is_present(others, directory, now, other);
    lemma_record_of(records, other);
    lemma_record_of(others, other);
    if record_of(records, other) is Some {
        broadcast use vstd::seq_lib::group_filter_ensures;

        let record = record_of(records, other)->0;
        assert(of_others(participant)(record));
        let k = choose|k: int| 0 <= k < records.len() && records[k] == record;
        assert(others.contains(records[k]));
        let i = choose|i: int| 0 <= i < others.len() && others[i] == record;
        lemma_one_record(others, i, other);
    } else if record_of(others, other) is Some {
        let record = record_of(others, other)->0;
        let i = choose|i: int| 0 <= i < others.len() && others[i] == record;
        assert(records.contains(others[i]));
        let k = choose|k: int| 0 <= k < records.len() && records[k] == record;
        assert(records[k].participant.is(other));
    }
}

// What is found.

/// What is found of one kind of participant is the newest of their live gestures
/// that match, and nothing exactly where none does.
pub proof fn law_the_newest_matching_gesture_is_found(
    records: Seq<RecordView>,
    kind: ParticipantKind,
    sought: SoughtView,
    now: u64,
)
    ensures
        newest(records, kind, sought, now) is None <==> forall|i: int|
            0 <= i < records.len() ==> !sought_in(#[trigger] records[i], kind, sought, now),
        newest(records, kind, sought, now) matches Some(record) ==> {
            &&& records.contains(record)
            &&& record.participant.kind == kind
            &&& record.active(now)
            &&& sought matches SoughtView::Matching { mode, extension_id } ==> record.attention->0.mode
                == mode && record.attention->0.target.target.extension_id == extension_id
            &&& forall|i: int|
                0 <= i < records.len() && sought_in(#[trigger] records[i], kind, sought, now)
                    ==> records[i].sequence <= record.sequence
        },
    decreases records.len(),
{
    if records.len() > 0 {
        let rest = records.drop_last();
        law_the_newest_matching_gesture_is_found(rest, kind, sought, now);
        assert(records[records.len() - 1] == records.last());
        assert forall|i: int| 0 <= i < rest.len() implies rest[i] == #[trigger] records[i] by {}
        if newest(rest, kind, sought, now) is Some {
            let record = newest(rest, kind, sought, now)->0;
            let k = choose|k: int| 0 <= k < rest.len() && rest[k] == record;
            assert(records[k] == record);
        }
    }
}

/// A live gesture in the mode and the extension that are asked for matches, and
/// any live gesture does where nothing in particular is asked for.
pub proof fn law_a_live_gesture_matches_what_it_is(
    record: RecordView,
    now: u64,
    mode: AttentionMode,
    extension_id: Seq<char>,
)
    requires
        record.active(now),
    ensures
        sought_in(record, record.participant.kind, SoughtView::Any, now),
        sought_in(
            record,
            record.participant.kind,
            SoughtView::Matching { mode, extension_id },
            now,
        ) <==> record.attention->0.mode == mode
            && record.attention->0.target.target.extension_id == extension_id,
{
}

/// A directory answers with what it lists for a target, the first entry where
/// there are several, and otherwise that the target is missing.
pub proof fn law_a_directory_answers_with_what_it_lists(
    directory: Seq<(RefView, LookupView)>,
    at: int,
    target: RefView,
)
    ensures
        0 <= at < directory.len() && directory[at].0 == target && (forall|j: int|
            0 <= j < at ==> (#[trigger] directory[j]).0 != target) ==> answer(directory, target)
            == directory[at].1,
        (forall|j: int| 0 <= j < directory.len() ==> (#[trigger] directory[j]).0 != target)
            ==> answer(directory, target) == LookupView::Missing,
    decreases directory.len(),
{
    if directory.len() > 0 && directory[0].0 != target {
        let rest = directory.skip(1);
        law_a_directory_answers_with_what_it_lists(rest, at - 1, target);
        if 0 <= at < directory.len() && directory[at].0 == target && (forall|j: int|
            0 <= j < at ==> (#[trigger] directory[j]).0 != target) {
            assert(at > 0);
            assert(rest[at - 1] == directory[at]);
            assert forall|j: int| 0 <= j < at - 1 implies (#[trigger] rest[j]).0 != target by {
                assert(directory[j + 1].0 != target);
            }
        }
        if forall|j: int| 0 <= j < directory.len() ==> (#[trigger] directory[j]).0 != target {
            assert forall|j: int| 0 <= j < rest.len() implies (#[trigger] rest[j]).0
                != target by {
                assert(directory[j + 1].0 != target);
            }
        }
    }
}

/// A target is resolved exactly where its name is sound, its extension is
/// registered, and the directory lists it under that very name with a label and
/// a description; it is then what the directory lists.
pub proof fn law_a_target_resolves_to_what_is_listed(
    namespaces: Seq<Seq<char>>,
    directory: Seq<(RefView, LookupView)>,
    target: RefView,
    found: TargetView,
)
    ensures
        resolution(namespaces, directory, target) == Ok::<TargetView, Seq<char>>(found) <==> {
            &&& id_problem("extension id"@, target.extension_id) is None
            &&& id_problem("target id"@, target.target_id) is None
            &&& namespaces.contains(target.extension_id)
            &&& answer(directory, target) == LookupView::Found(found)
            &&& found.target == target
            &&& !blank(found.label)
            &&& !blank(found.description)
        },
        answer(directory, target) matches LookupView::Failed(message) ==> (
        target.problem() is None && namespaces.contains(target.extension_id) ==> resolution(
            namespaces,
            directory,
            target,
        ) == Err::<TargetView, Seq<char>>(message)),
{
}

/// A gesture over one target is accepted exactly where its maker is, its message
/// is not too long, and the target resolves.
pub proof fn law_a_gesture_over_one_target_needs_it_resolved(
    service: ServiceView,
    participant: ParticipantView,
    target: RefView,
    message: Option<Seq<char>>,
    directory: Seq<(RefView, LookupView)>,
)
    ensures
        gesture_problem(service, participant, seq![target], message, directory) is None <==> {
            &&& participant.problem() is None
            &&& message_problem(message) is None
            &&& resolution(service.namespaces, directory, target) is Ok
        },
        gesture_problem(service, participant, Seq::empty(), message, directory) is Some,
{
    let one = seq![target];
    assert(one.drop_last() =~= Seq::empty());
    assert(one.last() == target);
    assert(resolutions(service.namespaces, directory, one.drop_last()) == Ok::<
        Seq<TargetView>,
        Seq<char>,
    >(Seq::empty()));
    assert(!one.drop_last().contains(target));
}

/// A gesture is accepted exactly where it is over at least one and at most two
/// hundred targets, all of them can be resolved, and its participant and its
/// message are accepted.
pub proof fn law_a_gesture_has_at_most_two_hundred_targets(
    service: ServiceView,
    participant: ParticipantView,
    refs: Seq<RefView>,
    message: Option<Seq<char>>,
    directory: Seq<(RefView, LookupView)>,
)
    ensures
        gesture_problem(service, participant, refs, message, directory) is None <==> {
            &&& 1 <= refs.len() <= 200
            &&& participant.problem() is None
            &&& message_problem(message) is None
            &&& forall|i: int|
                0 <= i < refs.len() ==> resolution(
                    service.namespaces,
                    directory,
                    #[trigger] refs[i],
                ) is Ok
        },
{
    lemma_resolved_together(service.namespaces, directory, refs);
}

/// Some targets are resolved together exactly where each of them is.
proof fn lemma_resolved_together(
    namespaces: Seq<Seq<char>>,
    directory: Seq<(RefView, LookupView)>,
    refs: Seq<RefView>,
)
    ensures
        resolutions(namespaces, directory, refs) is Ok <==> forall|i: int|
            0 <= i < refs.len() ==> resolution(namespaces, directory, #[trigger] refs[i]) is Ok,
    decreases refs.len(),
{
    if refs.len() > 0 {
        let less = refs.drop_last();
        lemma_resolved_together(namespaces, directory, less);
        if resolutions(namespaces, directory, refs) is Ok {
            assert forall|i: int| 0 <= i < refs.len() implies resolution(
                namespaces,
                directory,
                #[trigger] refs[i],
            ) is Ok by {
                if i < less.len() {
                    assert(less[i] == refs[i]);
                } else if less.contains(refs.last()) {
                    let k = choose|k: int| 0 <= k < less.len() && less[k] == refs.last();
                    assert(resolution(namespaces, directory, less[k]) is Ok);
                }
            }
        } else if resolutions(namespaces, directory, less) is Err {
            let i = choose|i: int|
                0 <= i < less.len() && resolution(namespaces, directory, #[trigger] less[i]) is Err;
            assert(refs[i] == less[i]);
        } else {
            assert(resolution(namespaces, directory, refs[refs.len() - 1]) is Err);
        }
    }
}

/// What has to be listed for a service to be read is every target that somebody
/// attends to.
pub proof fn law_every_held_target_is_asked_for(records: Seq<RecordView>, at: int, k: int)
    requires
        0 <= at < records.len(),
        records[at].attention is Some,
        0 <= k < records[at].attention->0.targets().len(),
    ensures
        refs_in(records).contains(records[at].attention->0.targets()[k].target),
    decreases records.len(),
{
    let before = refs_in(records.drop_last());
    let wanted = records[at].attention->0.targets()[k].target;
    if at == records.len() - 1 {
        let own = records.last().attention->0.targets().map_values(
            |target: TargetView| target.target,
        );
        assert(own[k] == wanted);
        assert(refs_in(records)[before.len() + k] == wanted);
    } else {
        law_every_held_target_is_asked_for(records.drop_last(), at, k);
        let i = choose|i: int| 0 <= i < before.len() && before[i] == wanted;
        assert(refs_in(records)[i] == wanted);
    }
}

// Namespaces.

/// Namespaces are accepted exactly where each is a sound id and none is
/// repeated.
pub proof fn law_namespaces_are_sound_and_distinct(namespaces: Seq<Seq<char>>)
    ensures
        namespaces_problem(namespaces) is None <==> {
            &&& forall|i: int|
                0 <= i < namespaces.len() ==> id_problem(
                    "semantic target namespace"@,
                    #[trigger] namespaces[i],
                ) is None
            &&& forall|i: int, j: int|
                0 <= i < j < namespaces.len() ==> #[trigger] namespaces[i]
                    != #[trigger] namespaces[j]
        },
{
    let problem = |i: int| crate::awareness::namespace_problem(namespaces, i);
    lemma_no_problem(namespaces.len(), problem);
    if namespaces_problem(namespaces) is None {
        assert forall|i: int| 0 <= i < namespaces.len() implies id_problem(
            "semantic target namespace"@,
            #[trigger] namespaces[i],
        ) is None by {
            assert(problem(i) is None);
        }
        assert forall|i: int, j: int| 0 <= i < j < namespaces.len() implies #[trigger] namespaces[i]
            != #[trigger] namespaces[j] by {
            assert(problem(j) is None);
            if namespaces[i] == namespaces[j] {
                assert(namespaces.take(j)[i] == namespaces[j]);
            }
        }
    } else if (forall|i: int|
        0 <= i < namespaces.len() ==> id_problem(
            "semantic target namespace"@,
            #[trigger] namespaces[i],
        ) is None) && (forall|i: int, j: int|
        0 <= i < j < namespaces.len() ==> #[trigger] namespaces[i] != #[trigger] namespaces[j]) {
        assert forall|i: int| 0 <= i < namespaces.len() implies (#[trigger] problem(
            i,
        )) is None by {
            assert(id_problem("semantic target namespace"@, namespaces[i]) is None);
            if namespaces.take(i).contains(namespaces[i]) {
                let j = choose|j: int| 0 <= j < i && namespaces.take(i)[j] == namespaces[i];
                assert(namespaces[j] == namespaces[i]);
            }
        }
    }
}

/// Whether texts stand in order.
pub open spec fn ascending(list: Seq<Seq<char>>) -> bool {
    forall|i: int, j: int|
        0 <= i < j < list.len() ==> !text_before(#[trigger] list[j], #[trigger] list[i])
}

proof fn lemma_insert_text(sorted: Seq<Seq<char>>, text: Seq<char>)
    requires
        ascending(sorted),
    ensures
        ascending(crate::awareness::insert_text(sorted, text)),
        crate::awareness::insert_text(sorted, text).to_multiset() =~= sorted.to_multiset().insert(
            text,
        ),
        forall|k: int|
            0 <= k < crate::awareness::insert_text(sorted, text).len() ==> {
                let item = #[trigger] crate::awareness::insert_text(sorted, text)[k];
                item == text || sorted.contains(item)
            },
    decreases sorted.len(),
{
    broadcast use vstd::seq_lib::group_to_multiset_ensures;

    let result = crate::awareness::insert_text(sorted, text);
    if sorted.len() == 0 {
    } else if !text_before(text, sorted.last()) {
        let top = sorted.last();
        assert forall|i: int, j: int| 0 <= i < j < result.len() implies !text_before(
            #[trigger] result[j],
            #[trigger] result[i],
        ) by {
            if j == sorted.len() && i < sorted.len() - 1 {
                let low = sorted[i];
                assert(!text_before(sorted[sorted.len() - 1], low));
                if text_before(text, low) {
                    crate::text::lemma_before_total(text, top);
                    if text_before(top, text) {
                        crate::text::lemma_before_transitive(top, text, low);
                    }
                }
            }
        }
        assert forall|k: int| 0 <= k < result.len() implies {
            let item = #[trigger] result[k];
            item == text || sorted.contains(item)
        } by {
            if k < sorted.len() {
                assert(sorted.contains(sorted[k]));
            }
        }
    } else {
        let rest = sorted.drop_last();
        let inner = crate::awareness::insert_text(rest, text);
        lemma_insert_text(rest, text);
        let top = sorted.last();
        assert forall|k: int| 0 <= k < inner.len() implies !text_before(
            top,
            #[trigger] inner[k],
        ) && (inner[k] == text || sorted.contains(inner[k])) by {
            if inner[k] == text {
                if text_before(top, text) {
                    crate::text::lemma_before_transitive(top, text, top);
                    crate::text::lemma_before_irreflexive(top);
                }
            } else {
                let m = choose|m: int| 0 <= m < rest.len() && rest[m] == inner[k];
                assert(sorted[m] == inner[k]);
                assert(sorted[sorted.len() - 1] == top);
            }
        }
        assert forall|i: int, j: int| 0 <= i < j < result.len() implies !text_before(
            #[trigger] result[j],
            #[trigger] result[i],
        ) by {
            assert(result[i] == inner[i]);
            if j < inner.len() {
                assert(result[j] == inner[j]);
            }
        }
        assert forall|k: int| 0 <= k < result.len() implies {
            let item = #[trigger] result[k];
            item == text || sorted.contains(item)
        } by {
            if k < inner.len() {
                assert(result[k] == inner[k]);
            } else {
                assert(sorted[sorted.len() - 1] == top);
            }
        }
        assert(sorted =~= rest.push(top));
        assert(result.to_multiset() =~= inner.to_multiset().insert(top));
        assert(sorted.to_multiset() =~= rest.to_multiset().insert(top));
    }
}

/// A new service has exactly the namespaces that it was given, in order, and
/// nobody is there.
pub proof fn law_a_new_service_is_empty(namespaces: Seq<Seq<char>>)
    ensures
        new_service(namespaces).records.len() == 0,
        new_service(namespaces).sequence == 0,
        new_service(namespaces).human_sequence == 0,
        ascending(new_service(namespaces).namespaces),
        new_service(namespaces).namespaces.to_multiset() =~= namespaces.to_multiset(),
        new_service(namespaces).current.kind is Agent,
    decreases namespaces.len(),
{
    lemma_sorted_texts(namespaces);
}

proof fn lemma_sorted_texts(list: Seq<Seq<char>>)
    ensures
        ascending(sorted_texts(list)),
        sorted_texts(list).to_multiset() =~= list.to_multiset(),
    decreases list.len(),
{
    broadcast use vstd::seq_lib::group_to_multiset_ensures;

    if list.len() > 0 {
        lemma_sorted_texts(list.drop_last());
        lemma_insert_text(sorted_texts(list.drop_last()), list.last());
        assert(list =~= list.drop_last().push(list.last()));
        assert(list.to_multiset() =~= list.drop_last().to_multiset().insert(list.last()));
    } else {
        assert(sorted_texts(list) =~= list);
    }
}

/// People stand before agents, and people among themselves as agents among
/// themselves in the order of their ids.
pub proof fn law_people_stand_before_agents(one: ParticipantView, other: ParticipantView)
    ensures
        one.kind is Human && other.kind is Agent ==> one.before(other) && !other.before(one),
        one.kind == other.kind ==> (one.before(other) <==> text_before(one.id, other.id)),
        one.is(other) <==> one.kind == other.kind && one.id == other.id,
{
}

/// A departure moves the revision that a waiting agent watches exactly where it
/// is that of a person who was there.
pub proof fn law_only_somebody_who_was_there_is_missed(
    service: ServiceView,
    participant: ParticipantView,
    directory: Seq<(RefView, LookupView)>,
    now: u64,
)
    ensures
        departed(service, participant, directory, now).human_sequence != service.human_sequence
            <==> participant.kind is Human && exists|i: int|
            0 <= i < service.records.len() && (#[trigger] service.records[i]).participant.is(
                participant,
            ),
        departed(service, participant, directory, now).sequence == service.sequence,
        departed(service, participant, directory, now).namespaces == service.namespaces,
{
    lemma_record_of(service.records, participant);
}

} // verus!
