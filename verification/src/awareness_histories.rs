//! What holds of the awareness service over a whole history of calls.

use vstd::prelude::*;

use crate::awareness::{
    answer, attended, cleaned, cleared, departed, gesture_problem, in_order, is_active, is_idle,
    later, new_service, of_others, presented, put, record_of, refreshed, renewed, resolutions,
    shown_order, snapshot_of, survivors, LookupView, RecordView, ServiceView,
};
use crate::awareness_laws::{
    at_rest, law_a_snapshot_is_coherent, law_cleaning_keeps_who_is_present,
    law_operations_settle_the_service, lemma_cleaned, lemma_filter_keeps, lemma_one_record,
    lemma_put, lemma_record_of, lemma_resolutions,
};
use crate::semantic_targets::{
    gesture, normalized_message, AttentionMode, ParticipantView, RefView, TargetView,
    ACTIVE_LEASE_MS, PRESENCE_LEASE_MS,
};

verus! {

/// What somebody asks of the service.
pub enum Call {
    Attend {
        participant: ParticipantView,
        mode: AttentionMode,
        refs: Seq<RefView>,
        message: Option<Seq<char>>,
    },
    Present { participant: ParticipantView },
    Clear { participant: ParticipantView },
    Depart { participant: ParticipantView },
    /// A snapshot, or a look for the newest gesture.
    Read,
}

/// A call, what the surface says of each target then, and when it was made.
pub struct Moment {
    pub call: Call,
    pub directory: Seq<(RefView, LookupView)>,
    pub now: u64,
}

impl Call {
    /// Whether a call is about somebody else.
    pub open spec fn of_another(self, participant: ParticipantView) -> bool {
        match self {
            Call::Attend { participant: other, .. } => !other.is(participant),
            Call::Present { participant: other } => !other.is(participant),
            Call::Clear { participant: other } => !other.is(participant),
            Call::Depart { participant: other } => !other.is(participant),
            Call::Read => true,
        }
    }
}

/// The service after a call. A refused one leaves it as it was.
pub open spec fn after_call(service: ServiceView, moment: Moment) -> ServiceView {
    let directory = moment.directory;
    let now = moment.now;
    match moment.call {
        Call::Attend { participant, mode, refs, message } => if gesture_problem(
            service,
            participant,
            refs,
            message,
            directory,
        ) is None {
            let targets = resolutions(service.namespaces, directory, refs)->Ok_0;
            attended(service, participant, mode, targets, message, directory, now)
        } else {
            service
        },
        Call::Present { participant } => if participant.problem() is None {
            presented(service, participant, directory, now)
        } else {
            service
        },
        Call::Clear { participant } => if participant.problem() is None {
            cleared(service, participant, directory, now)
        } else {
            service
        },
        Call::Depart { participant } => if participant.problem() is None {
            departed(service, participant, directory, now)
        } else {
            service
        },
        Call::Read => ServiceView { records: cleaned(service.records, directory, now), ..service },
    }
}

/// The service after several calls, in order.
pub open spec fn after_calls(service: ServiceView, moments: Seq<Moment>) -> ServiceView
    decreases moments.len(),
{
    if moments.len() == 0 {
        service
    } else {
        after_call(after_calls(service, moments.drop_last()), moments.last())
    }
}

/// Whether the clock never runs backwards, from one moment over some calls to
/// another.
pub open spec fn in_time(from: u64, moments: Seq<Moment>, to: u64) -> bool {
    &&& from <= to
    &&& forall|i: int| 0 <= i < moments.len() ==> from <= (#[trigger] moments[i]).now <= to
    &&& forall|i: int, j: int|
        0 <= i < j < moments.len() ==> (#[trigger] moments[i]).now <= (#[trigger] moments[j]).now
}

/// The moment of the last of some calls.
pub open spec fn last_moment(from: u64, moments: Seq<Moment>) -> u64 {
    if moments.len() == 0 {
        from
    } else {
        moments.last().now
    }
}

proof fn lemma_sequence_grows_by_one(service: ServiceView, moment: Moment)
    requires
        service.sequence < u64::MAX,
    ensures
        after_call(service, moment).sequence <= service.sequence + 1,
{
}

proof fn lemma_history(service: ServiceView, from: u64, moments: Seq<Moment>, to: u64)
    requires
        service.wf(),
        at_rest(service.records, from),
        service.sequence + moments.len() < u64::MAX,
        in_time(from, moments, to),
    ensures
        after_calls(service, moments).wf(),
        at_rest(after_calls(service, moments).records, last_moment(from, moments)),
        after_calls(service, moments).sequence <= service.sequence + moments.len(),
    decreases moments.len(),
{
    if moments.len() > 0 {
        let earlier = moments.drop_last();
        let last = moments.last();
        let before = after_calls(service, earlier);
        let clock = last_moment(from, earlier);
        assert(moments[moments.len() - 1] == last);
        assert forall|i: int| 0 <= i < earlier.len() implies from <= (#[trigger] earlier[i]).now
            <= to by {
            assert(moments[i] == earlier[i]);
        }
        assert forall|i: int, j: int| 0 <= i < j < earlier.len() implies (
        #[trigger] earlier[i]).now <= (#[trigger] earlier[j]).now by {
            assert(moments[i].now <= moments[j].now);
        }
        lemma_history(service, from, earlier, to);
        if earlier.len() > 0 {
            assert(moments[moments.len() - 2] == earlier.last());
            assert(moments[moments.len() - 2].now <= moments[moments.len() - 1].now);
        }
        assert(clock <= last.now);
        lemma_sequence_grows_by_one(before, last);
        let after = after_call(before, last);
        let (participant, mode, refs, message) = match last.call {
            Call::Attend { participant, mode, refs, message } => (participant, mode, refs, message),
            Call::Present { participant } => (
                participant,
                AttentionMode::Focus,
                Seq::empty(),
                None,
            ),
            Call::Clear { participant } => (participant, AttentionMode::Focus, Seq::empty(), None),
            Call::Depart { participant } => (participant, AttentionMode::Focus, Seq::empty(), None),
            Call::Read => (before.current, AttentionMode::Focus, Seq::empty(), None),
        };
        let targets = resolutions(before.namespaces, last.directory, refs)->Ok_0;
        law_operations_settle_the_service(
            before,
            participant,
            mode,
            targets,
            message,
            last.directory,
            clock,
            last.now,
        );
        if after == before {
            assert(at_rest(before.records, last.now));
        }
    }
}

/// Whatever was asked of a new service before, by whomever, a snapshot of it is
/// coherent, as long as the clock never runs backwards.
pub proof fn law_every_snapshot_is_coherent(
    namespaces: Seq<Seq<char>>,
    from: u64,
    moments: Seq<Moment>,
    directory: Seq<(RefView, LookupView)>,
    now: u64,
)
    requires
        moments.len() < u64::MAX,
        in_time(from, moments, now),
    ensures
        ({
            let service = new_service(namespaces);
            let records = cleaned(after_calls(service, moments).records, directory, now);
            let snapshot = snapshot_of(records, now);
            let shown = snapshot.participants;
            &&& snapshot.schema_version == 1
            &&& snapshot.authority == "context_only"@
            &&& !snapshot.durable
            &&& forall|i: int, j: int|
                0 <= i < j < shown.len() ==> {
                    let first = #[trigger] shown[i];
                    let second = #[trigger] shown[j];
                    &&& !first.participant.is(second.participant)
                    &&& second.active ==> first.active
                    &&& first.active == second.active ==> first.participant.before(
                        second.participant,
                    )
                }
            &&& forall|i: int|
                0 <= i < shown.len() ==> {
                    let entry = #[trigger] shown[i];
                    &&& entry.present
                    &&& entry.present_for_ms > 0
                    &&& entry.active <==> entry.status == "active"@
                    &&& entry.active <==> entry.attention is Some
                    &&& entry.active <==> entry.active_for_ms > 0
                    &&& !entry.active ==> entry.status == "present"@ && entry.active_for_ms == 0
                }
        }),
{
    let service = new_service(namespaces);
    lemma_history(service, from, moments, now);
    let before = after_calls(service, moments);
    let clock = last_moment(from, moments);
    if moments.len() > 0 {
        assert(moments[moments.len() - 1].now <= now);
    }
    law_operations_settle_the_service(
        before,
        before.current,
        AttentionMode::Focus,
        Seq::empty(),
        None,
        directory,
        clock,
        now,
    );
    let after = ServiceView { records: cleaned(before.records, directory, now), ..before };
    law_a_snapshot_is_coherent(after, now);
}

// A gesture and a later heartbeat.

/// The names of some targets.
pub open spec fn names_of(targets: Seq<TargetView>) -> Seq<RefView> {
    Seq::new(targets.len(), |i: int| targets[i].target)
}

/// Whether the surface still knows each of some targets.
pub open spec fn still_resolve(
    names: Seq<RefView>,
    directory: Seq<(RefView, LookupView)>,
) -> bool {
    forall|i: int|
        0 <= i < names.len() ==> {
            let name = #[trigger] names[i];
            answer(directory, name) matches LookupView::Found(found) && found.target == name
        }
}

proof fn lemma_all_survive(targets: Seq<TargetView>, directory: Seq<(RefView, LookupView)>)
    requires
        still_resolve(names_of(targets), directory),
    ensures
        names_of(survivors(targets, directory)) == names_of(targets),
    decreases targets.len(),
{
    if targets.len() > 0 {
        let rest = targets.drop_last();
        let names = names_of(targets);
        assert forall|i: int| 0 <= i < names_of(rest).len() implies {
            let name = #[trigger] names_of(rest)[i];
            answer(directory, name) matches LookupView::Found(found) && found.target == name
        } by {
            assert(names[i] == names_of(rest)[i]);
        }
        lemma_all_survive(rest, directory);
        assert(names[targets.len() - 1] == targets.last().target);
        let left = survivors(rest, directory);
        let result = survivors(targets, directory);
        assert(left.len() == rest.len()) by {
            assert(names_of(left).len() == names_of(rest).len());
        }
        assert forall|i: int| 0 <= i < targets.len() implies names_of(result)[i]
            == #[trigger] names[i] by {
            if i < rest.len() {
                assert(names_of(left)[i] == names_of(rest)[i]);
            }
        }
    }
    assert(names_of(survivors(targets, directory)) =~= names_of(targets));
}

proof fn lemma_survivors_by_name(
    one: Seq<TargetView>,
    other: Seq<TargetView>,
    directory: Seq<(RefView, LookupView)>,
)
    requires
        names_of(one) == names_of(other),
    ensures
        survivors(one, directory) == survivors(other, directory),
    decreases one.len(),
{
    assert(names_of(one).len() == one.len());
    assert(names_of(other).len() == other.len());
    if one.len() > 0 {
        assert(names_of(one)[one.len() - 1] == names_of(other)[one.len() - 1]);
        assert forall|i: int| 0 <= i < one.len() - 1 implies names_of(one.drop_last())[i]
            == #[trigger] names_of(other.drop_last())[i] by {
            assert(names_of(one)[i] == names_of(other)[i]);
        }
        assert(names_of(one.drop_last()) =~= names_of(other.drop_last()));
        lemma_survivors_by_name(one.drop_last(), other.drop_last(), directory);
    }
}

/// Whether a record is of a gesture that was made at a moment, as it is before a
/// heartbeat.
spec fn holds_gesture(
    record: RecordView,
    participant: ParticipantView,
    mode: AttentionMode,
    names: Seq<RefView>,
    message: Option<Seq<char>>,
    start: u64,
) -> bool {
    &&& record.participant == participant
    &&& record.active_until == later(start, ACTIVE_LEASE_MS)
    &&& record.present_until == later(start, PRESENCE_LEASE_MS)
    &&& record.attention matches Some(attention) && attention == gesture(
        mode,
        attention.targets(),
        message,
    ) && names_of(attention.targets()) == names
}

proof fn lemma_refreshing_keeps_the_gesture(
    record: RecordView,
    participant: ParticipantView,
    mode: AttentionMode,
    names: Seq<RefView>,
    message: Option<Seq<char>>,
    start: u64,
    directory: Seq<(RefView, LookupView)>,
    now: u64,
)
    requires
        holds_gesture(record, participant, mode, names, message, start),
        still_resolve(names, directory),
    ensures
        holds_gesture(
            refreshed(record, directory, now),
            participant,
            mode,
            names,
            message,
            start,
        ),
{
    let targets = record.attention->0.targets();
    let left = survivors(targets, directory);
    lemma_all_survive(targets, directory);
    assert(left.len() == names_of(left).len());
    assert(targets.len() == names.len());
    assert(gesture(mode, left, message).targets() =~= left);
}

proof fn lemma_filtering_keeps_a_record(
    records: Seq<RecordView>,
    keep: spec_fn(RecordView) -> bool,
    p: ParticipantView,
)
    requires
        in_order(records),
        record_of(records, p) matches Some(record) ==> keep(record),
    ensures
        record_of(records.filter(keep), p) == record_of(records, p),
{
    let kept = records.filter(keep);
    lemma_filter_keeps(records, keep);
    lemma_record_of(records, p);
    lemma_record_of(kept, p);
    if record_of(kept, p) is Some {
        let record = record_of(kept, p)->0;
        let i = choose|i: int| 0 <= i < kept.len() && kept[i] == record;
        assert(records.contains(kept[i]));
        let k = choose|k: int| 0 <= k < records.len() && records[k] == record;
        lemma_one_record(records, k, p);
    } else if record_of(records, p) is Some {
        let record = record_of(records, p)->0;
        broadcast use vstd::seq_lib::group_filter_ensures;

        assert(kept.contains(record));
        let i = choose|i: int| 0 <= i < kept.len() && kept[i] == record;
        assert(!kept[i].participant.is(p));
    }
}

proof fn lemma_others_leave_a_record(service: ServiceView, moment: Moment, p: ParticipantView)
    requires
        in_order(service.records),
        moment.call.of_another(p),
    ensures
        in_order(after_call(service, moment).records),
        record_of(after_call(service, moment).records, p) == record_of(service.records, p)
            || record_of(after_call(service, moment).records, p) == record_of(
            cleaned(service.records, moment.directory, moment.now),
            p,
        ),
{
    let records = service.records;
    let directory = moment.directory;
    let now = moment.now;
    law_cleaning_keeps_who_is_present(records, directory, now, p);
    lemma_cleaned(records, directory, now);
    match moment.call {
        Call::Attend { participant, mode, refs, message } => {
            let targets = resolutions(service.namespaces, directory, refs)->Ok_0;
            let record = RecordView {
                participant,
                attention: Some(gesture(mode, targets, normalized_message(message))),
                active_until: later(now, ACTIVE_LEASE_MS),
                present_until: later(now, PRESENCE_LEASE_MS),
                sequence: (service.sequence + 1) as u64,
            };
            lemma_put(records, record);
            lemma_cleaned(put(records, record), directory, now);
            law_cleaning_keeps_who_is_present(put(records, record), directory, now, p);
        },
        Call::Present { participant } => {
            let record = renewed(record_of(records, participant), participant, now);
            lemma_put(records, record);
            lemma_cleaned(put(records, record), directory, now);
            law_cleaning_keeps_who_is_present(put(records, record), directory, now, p);
        },
        Call::Clear { participant } => {
            let record = RecordView {
                participant,
                attention: None,
                active_until: now,
                present_until: later(now, PRESENCE_LEASE_MS),
                sequence: (service.sequence + 1) as u64,
            };
            lemma_put(records, record);
            lemma_cleaned(put(records, record), directory, now);
            law_cleaning_keeps_who_is_present(put(records, record), directory, now, p);
        },
        Call::Depart { participant } => {
            let others = records.filter(of_others(participant));
            lemma_filter_keeps(records, of_others(participant));
            lemma_record_of(records, p);
            lemma_filtering_keeps_a_record(records, of_others(participant), p);
            lemma_cleaned(others, directory, now);
            law_cleaning_keeps_who_is_present(others, directory, now, p);
        },
        Call::Read => {},
    }
}

proof fn lemma_others_keep_a_gesture(
    service: ServiceView,
    moments: Seq<Moment>,
    participant: ParticipantView,
    mode: AttentionMode,
    names: Seq<RefView>,
    message: Option<Seq<char>>,
    start: u64,
    now: u64,
)
    requires
        in_order(service.records),
        record_of(service.records, participant) matches Some(record) && holds_gesture(
            record,
            participant,
            mode,
            names,
            message,
            start,
        ),
        in_time(start, moments, now),
        now < start + ACTIVE_LEASE_MS,
        start + PRESENCE_LEASE_MS <= u64::MAX,
        forall|i: int|
            0 <= i < moments.len() ==> (#[trigger] moments[i]).call.of_another(participant)
                && still_resolve(names, moments[i].directory),
    ensures
        in_order(after_calls(service, moments).records),
        record_of(after_calls(service, moments).records, participant) matches Some(record)
            && holds_gesture(record, participant, mode, names, message, start),
    decreases moments.len(),
{
    if moments.len() > 0 {
        let earlier = moments.drop_last();
        let last = moments.last();
        assert(moments[moments.len() - 1] == last);
        assert forall|i: int| 0 <= i < earlier.len() implies {
            &&& start <= (#[trigger] earlier[i]).now <= now
            &&& earlier[i].call.of_another(participant)
            &&& still_resolve(names, earlier[i].directory)
        } by {
            assert(moments[i] == earlier[i]);
        }
        assert forall|i: int, j: int| 0 <= i < j < earlier.len() implies (
        #[trigger] earlier[i]).now <= (#[trigger] earlier[j]).now by {
            assert(moments[i].now <= moments[j].now);
        }
        lemma_others_keep_a_gesture(
            service,
            earlier,
            participant,
            mode,
            names,
            message,
            start,
            now,
        );
        let before = after_calls(service, earlier);
        let record = record_of(before.records, participant)->0;
        lemma_others_leave_a_record(before, last, participant);
        law_cleaning_keeps_who_is_present(
            before.records,
            last.directory,
            last.now,
            participant,
        );
        lemma_refreshing_keeps_the_gesture(
            record,
            participant,
            mode,
            names,
            message,
            start,
            last.directory,
            last.now,
        );
    }
}

proof fn lemma_everybody_is_shown(records: Seq<RecordView>, record: RecordView, now: u64)
    requires
        records.contains(record),
    ensures
        shown_order(records, now).contains(record.shown(now)),
{
    broadcast use vstd::seq_lib::group_filter_ensures;

    let active = records.filter(is_active(now));
    let idle = records.filter(is_idle(now));
    let both = active + idle;
    let shown = shown_order(records, now);
    if record.active(now) {
        assert(is_active(now)(record));
        assert(active.contains(record));
        let i = choose|i: int| 0 <= i < active.len() && active[i] == record;
        assert(both[i] == record);
        assert(shown[i] == record.shown(now));
    } else {
        assert(is_idle(now)(record));
        assert(idle.contains(record));
        let i = choose|i: int| 0 <= i < idle.len() && idle[i] == record;
        assert(both[active.len() + i] == record);
        assert(shown[active.len() + i] == record.shown(now));
    }
}

/// A gesture was accepted, others asked whatever they liked of the service, the
/// targets still resolve, and then comes a heartbeat while the gesture is live.
/// The participant is shown with the same gesture over the same targets, present
/// for the whole lease again. A focus or a selection is renewed to that; a
/// pointer or a reveal keeps the end it had. The revision that a waiting agent
/// watches does not move.
pub proof fn law_a_heartbeat_after_a_gesture(
    service: ServiceView,
    participant: ParticipantView,
    mode: AttentionMode,
    refs: Seq<RefView>,
    message: Option<Seq<char>>,
    there: Seq<(RefView, LookupView)>,
    start: u64,
    between: Seq<Moment>,
    again: ParticipantView,
    directory: Seq<(RefView, LookupView)>,
    now: u64,
)
    requires
        service.wf(),
        service.sequence < u64::MAX,
        gesture_problem(service, participant, refs, message, there) is None,
        again.is(participant),
        in_time(start, between, now),
        now < start + ACTIVE_LEASE_MS,
        now + PRESENCE_LEASE_MS <= u64::MAX,
        forall|i: int|
            0 <= i < between.len() ==> (#[trigger] between[i]).call.of_another(participant)
                && still_resolve(
                names_of(resolutions(service.namespaces, there, refs)->Ok_0),
                between[i].directory,
            ),
        still_resolve(names_of(resolutions(service.namespaces, there, refs)->Ok_0), directory),
    ensures
        ({
            let targets = resolutions(service.namespaces, there, refs)->Ok_0;
            let gestured = attended(service, participant, mode, targets, message, there, start);
            let before = after_calls(gestured, between);
            let after = presented(before, again, directory, now);
            let found = survivors(targets, directory);
            let record = record_of(after.records, again);
            &&& after.human_sequence == before.human_sequence
            &&& names_of(found) == names_of(targets)
            &&& record is Some
            &&& snapshot_of(after.records, now).participants.contains(record->0.shown(now))
            &&& record->0.shown(now).participant == again
            &&& record->0.shown(now).present
            &&& record->0.shown(now).active
            &&& record->0.shown(now).status == "active"@
            &&& record->0.shown(now).attention == Some(
                gesture(mode, found, normalized_message(message)),
            )
            &&& gesture(mode, found, normalized_message(message)).targets() == found
            &&& record->0.shown(now).present_for_ms == 45_000
            &&& record->0.shown(now).active_for_ms == (if mode.held() {
                45_000
            } else {
                start + 30_000 - now
            })
        }),
{
    let targets = resolutions(service.namespaces, there, refs)->Ok_0;
    let names = names_of(targets);
    let note = normalized_message(message);
    let made = gesture(mode, targets, note);
    let gestured = attended(service, participant, mode, targets, message, there, start);
    let first = RecordView {
        participant,
        attention: Some(made),
        active_until: later(start, ACTIVE_LEASE_MS),
        present_until: later(start, PRESENCE_LEASE_MS),
        sequence: (service.sequence + 1) as u64,
    };
    lemma_resolutions(service.namespaces, there, refs);
    lemma_put(service.records, first);
    law_cleaning_keeps_who_is_present(put(service.records, first), there, start, participant);
    lemma_cleaned(put(service.records, first), there, start);
    assert(made.targets() =~= targets);
    assert(refreshed(first, there, start) == first);
    assert(record_of(gestured.records, participant) == Some(first));
    lemma_others_keep_a_gesture(
        gestured,
        between,
        participant,
        mode,
        names,
        note,
        start,
        now,
    );
    let before = after_calls(gestured, between);
    let held = record_of(before.records, participant)->0;
    lemma_same_record(before.records, participant, again);
    let after = presented(before, again, directory, now);
    let renewal = renewed(Some(held), again, now);
    lemma_put(before.records, renewal);
    law_cleaning_keeps_who_is_present(put(before.records, renewal), directory, now, again);
    let earlier = held.attention->0.targets();
    let found = survivors(targets, directory);
    lemma_survivors_by_name(earlier, targets, directory);
    lemma_all_survive(targets, directory);
    assert(names_of(found).len() == names.len());
    assert(found.len() == targets.len());
    assert(gesture(mode, found, note).targets() =~= found);
    let shown = refreshed(renewal, directory, now);
    assert(record_of(after.records, again) == Some(shown));
    lemma_record_of(after.records, again);
    lemma_everybody_is_shown(after.records, shown, now);
}

proof fn lemma_same_record(records: Seq<RecordView>, one: ParticipantView, other: ParticipantView)
    requires
        one.is(other),
    ensures
        record_of(records, one) == record_of(records, other),
    decreases records.len(),
{
    if records.len() > 0 {
        lemma_same_record(records.drop_last(), one, other);
    }
}

} // verus!
