//! What holds of the awareness service whatever is asked of it.

use vstd::prelude::*;

use crate::awareness::{
    answer, attended, cleaned, cleared, departed, gesture_problem, in_order, is_active, is_idle,
    is_present, later, newest, of_others, presented, put, record_of, refreshed, renewed,
    resolution, resolutions, shown_order, snapshot_of, sought_in, survivors, LookupView,
    RecordView, ServiceView, SoughtView,
};
use crate::semantic_targets::{
    gesture, normalized_message, AttentionMode, ParticipantKind, ParticipantView, RefView,
    TargetView, ACTIVE_LEASE_MS, PRESENCE_LEASE_MS,
};

verus! {

impl ServiceView {
    /// What every operation keeps: each participant stands once, in order, and
    /// no gesture is newer than the count of them.
    pub open spec fn wf(self) -> bool {
        &&& in_order(self.records)
        &&& counted(self.records, self.sequence)
    }
}

/// Whether no record is newer than a count of gestures.
pub open spec fn counted(records: Seq<RecordView>, sequence: u64) -> bool {
    forall|i: int| 0 <= i < records.len() ==> (#[trigger] records[i]).sequence <= sequence
}

/// Whether whoever attends to nothing has no time left to attend, by a clock.
pub open spec fn at_rest(records: Seq<RecordView>, clock: u64) -> bool {
    forall|i: int|
        0 <= i < records.len() ==> (#[trigger] records[i]).attention is None
            ==> records[i].active_until <= clock
}

/// Whether everybody on record is present, by a clock.
pub open spec fn all_present(records: Seq<RecordView>, clock: u64) -> bool {
    forall|i: int| 0 <= i < records.len() ==> (#[trigger] records[i]).present_until > clock
}

impl ServiceView {
    /// What an operation leaves behind, by the clock it ran at: a well-formed
    /// service in which everybody is present and whoever attends to nothing has
    /// no time left to attend.
    pub open spec fn settled(self, clock: u64) -> bool {
        &&& self.wf()
        &&& at_rest(self.records, clock)
        &&& all_present(self.records, clock)
    }
}

proof fn lemma_before_chain(a: ParticipantView, b: ParticipantView, c: ParticipantView)
    requires
        a.before(b),
        b.before(c),
    ensures
        a.before(c),
{
    if a.kind == b.kind && b.kind == c.kind {
        crate::text::lemma_before_transitive(a.id, b.id, c.id);
    }
}

pub(crate) proof fn lemma_put(records: Seq<RecordView>, record: RecordView)
    ensures
        in_order(records) ==> in_order(put(records, record)),
        record_of(put(records, record), record.participant) == Some(record),
        forall|p: ParticipantView|
            !p.is(record.participant) ==> #[trigger] record_of(put(records, record), p)
                == record_of(records, p),
        forall|i: int|
            0 <= i < put(records, record).len() ==> {
                let item = #[trigger] put(records, record)[i];
                item == record || records.contains(item)
            },
        put(records, record).contains(record),
    decreases records.len(),
{
    let result = put(records, record);
    if records.len() == 0 {
        assert(result.drop_last() =~= records);
        assert(result[0] == record);
    } else if records.last().participant.is(record.participant) {
        assert(result.drop_last() =~= records.drop_last());
        assert(result[result.len() - 1] == record);
        assert forall|i: int| 0 <= i < result.len() implies {
            let item = #[trigger] result[i];
            item == record || records.contains(item)
        } by {
            if i < records.len() - 1 {
                assert(records.contains(records[i]));
            }
        }
    } else if records.last().participant.before(record.participant) {
        assert(result.drop_last() =~= records);
        assert(result[result.len() - 1] == record);
        if in_order(records) {
            assert forall|i: int, j: int| 0 <= i < j < result.len() implies (
            #[trigger] result[i]).participant.before((#[trigger] result[j]).participant) by {
                if j == records.len() && i < records.len() - 1 {
                    lemma_before_chain(
                        records[i].participant,
                        records.last().participant,
                        record.participant,
                    );
                }
            }
        }
        assert forall|i: int| 0 <= i < result.len() implies {
            let item = #[trigger] result[i];
            item == record || records.contains(item)
        } by {
            if i < records.len() {
                assert(records.contains(records[i]));
            }
        }
    } else {
        let rest = records.drop_last();
        let inner = put(rest, record);
        let last = records.last();
        lemma_put(rest, record);
        assert(result.drop_last() =~= inner);
        crate::text::lemma_before_total(last.participant.id, record.participant.id);
        assert(record.participant.before(last.participant));
        assert forall|i: int| 0 <= i < inner.len() implies {
            let item = #[trigger] inner[i];
            &&& item == record || records.contains(item)
            &&& in_order(records) ==> item.participant.before(last.participant)
        } by {
            let item = inner[i];
            if item != record {
                let k = choose|k: int| 0 <= k < rest.len() && rest[k] == item;
                assert(rest.contains(item));
                assert(records[k] == item);
            }
        }
        let at = choose|k: int| 0 <= k < inner.len() && inner[k] == record;
        assert(inner.contains(record));
        assert(result[at] == record);
        assert(records[records.len() - 1] == last);
        assert forall|p: ParticipantView| !p.is(record.participant) implies #[trigger] record_of(
            result,
            p,
        ) == record_of(records, p) by {
            assert(record_of(inner, p) == record_of(rest, p));
            assert(result.last() == last);
        }
        if in_order(records) {
            assert(in_order(rest));
            assert forall|i: int, j: int| 0 <= i < j < result.len() implies (
            #[trigger] result[i]).participant.before((#[trigger] result[j]).participant) by {
                if j < inner.len() {
                    assert(inner[i].participant.before(inner[j].participant));
                } else {
                    assert(inner[i].participant.before(last.participant));
                }
            }
        }
    }
}

pub(crate) proof fn lemma_filter_keeps(records: Seq<RecordView>, keep: spec_fn(RecordView) -> bool)
    ensures
        in_order(records) ==> in_order(records.filter(keep)),
        forall|i: int|
            0 <= i < records.filter(keep).len() ==> {
                let item = #[trigger] records.filter(keep)[i];
                keep(item) && records.contains(item)
            },
    decreases records.len(),
{
    reveal(Seq::filter);
    if records.len() > 0 {
        let rest = records.drop_last();
        let last = records.last();
        lemma_filter_keeps(rest, keep);
        let inner = rest.filter(keep);
        let result = records.filter(keep);
        assert(records[records.len() - 1] == last);
        assert forall|i: int| 0 <= i < inner.len() implies {
            let item = #[trigger] inner[i];
            &&& keep(item) && records.contains(item)
            &&& in_order(records) ==> item.participant.before(last.participant)
        } by {
            let item = inner[i];
            assert(rest.contains(item));
            let k = choose|k: int| 0 <= k < rest.len() && rest[k] == item;
            assert(records[k] == item);
        }
        if in_order(records) {
            assert(in_order(rest));
            assert forall|i: int, j: int| 0 <= i < j < result.len() implies (
            #[trigger] result[i]).participant.before((#[trigger] result[j]).participant) by {
                if j < inner.len() {
                    assert(inner[i].participant.before(inner[j].participant));
                } else {
                    assert(inner[i].participant.before(last.participant));
                }
            }
        }
        assert forall|i: int| 0 <= i < result.len() implies {
            let item = #[trigger] result[i];
            keep(item) && records.contains(item)
        } by {
            if i < inner.len() {
                assert(inner[i] == result[i]);
            }
        }
    }
}

pub(crate) proof fn lemma_record_of(records: Seq<RecordView>, p: ParticipantView)
    ensures
        record_of(records, p) is None <==> (forall|i: int|
            0 <= i < records.len() ==> !(#[trigger] records[i]).participant.is(p)),
        record_of(records, p) matches Some(record) ==> records.contains(record)
            && record.participant.is(p),
    decreases records.len(),
{
    if records.len() > 0 {
        let rest = records.drop_last();
        lemma_record_of(rest, p);
        assert(records[records.len() - 1] == records.last());
        assert forall|i: int| 0 <= i < rest.len() implies rest[i] == #[trigger] records[i] by {}
        if !records.last().participant.is(p) && record_of(rest, p) is Some {
            let record = record_of(rest, p)->0;
            let k = choose|k: int| 0 <= k < rest.len() && rest[k] == record;
            assert(records[k] == record);
        }
    }
}

pub(crate) proof fn lemma_one_record(records: Seq<RecordView>, i: int, p: ParticipantView)
    requires
        in_order(records),
        0 <= i < records.len(),
        records[i].participant.is(p),
    ensures
        record_of(records, p) == Some(records[i]),
{
    lemma_record_of(records, p);
    assert(record_of(records, p) is Some);
    let record = record_of(records, p)->0;
    let k = choose|k: int| 0 <= k < records.len() && records[k] == record;
    crate::text::lemma_before_irreflexive(p.id);
    if k < i {
        assert(records[k].participant.before(records[i].participant));
    } else if i < k {
        assert(records[i].participant.before(records[k].participant));
    }
}

/// Whether a cleaned record is one of some records, with the targets that
/// still exist.
pub open spec fn stems_from(
    records: Seq<RecordView>,
    shown: RecordView,
    directory: Seq<(RefView, LookupView)>,
    now: u64,
) -> bool {
    exists|record: RecordView| #[trigger]
        records.contains(record) && record.present_until > now && shown == refreshed(
            record,
            directory,
            now,
        )
}

pub(crate) proof fn lemma_cleaned(
    records: Seq<RecordView>,
    directory: Seq<(RefView, LookupView)>,
    now: u64,
)
    ensures
        in_order(records) ==> in_order(cleaned(records, directory, now)),
        forall|sequence: u64|
            #[trigger] counted(records, sequence) ==> counted(
                cleaned(records, directory, now),
                sequence,
            ),
        forall|i: int|
            0 <= i < cleaned(records, directory, now).len() ==> stems_from(
                records,
                #[trigger] cleaned(records, directory, now)[i],
                directory,
                now,
            ),
{
    let kept = records.filter(is_present(now));
    let result = cleaned(records, directory, now);
    lemma_filter_keeps(records, is_present(now));
    assert forall|i: int| 0 <= i < result.len() implies stems_from(
        records,
        #[trigger] result[i],
        directory,
        now,
    ) by {
        assert(records.contains(kept[i]));
        assert(is_present(now)(kept[i]));
    }
    assert forall|sequence: u64| #[trigger] counted(records, sequence) implies counted(
        result,
        sequence,
    ) by {
        assert forall|i: int| 0 <= i < result.len() implies (#[trigger] result[i]).sequence
            <= sequence by {
            assert(records.contains(kept[i]));
            let k = choose|k: int| 0 <= k < records.len() && records[k] == kept[i];
            assert(records[k].sequence <= sequence);
        }
    }
    if in_order(records) {
        assert forall|i: int, j: int| 0 <= i < j < result.len() implies (
        #[trigger] result[i]).participant.before((#[trigger] result[j]).participant) by {
            assert(kept[i].participant.before(kept[j].participant));
        }
    }
}

/// Cleaning keeps the record of each participant who is present, with the
/// targets that still exist, and drops that of everybody else.
pub proof fn law_cleaning_keeps_who_is_present(
    records: Seq<RecordView>,
    directory: Seq<(RefView, LookupView)>,
    now: u64,
    p: ParticipantView,
)
    requires
        in_order(records),
    ensures
        record_of(cleaned(records, directory, now), p) == (match record_of(records, p) {
            Some(record) => if record.present_until > now {
                Some(refreshed(record, directory, now))
            } else {
                None
            },
            None => None,
        }),
{
    let kept = records.filter(is_present(now));
    let result = cleaned(records, directory, now);
    lemma_filter_keeps(records, is_present(now));
    lemma_cleaned(records, directory, now);
    lemma_record_of(records, p);
    lemma_record_of(result, p);
    if record_of(result, p) is Some {
        let shown = record_of(result, p)->0;
        let i = choose|i: int| 0 <= i < result.len() && result[i] == shown;
        assert(records.contains(kept[i]) && is_present(now)(kept[i]));
        let k = choose|k: int| 0 <= k < records.len() && records[k] == kept[i];
        lemma_one_record(records, k, p);
    } else if record_of(records, p) is Some && record_of(records, p)->0.present_until > now {
        let record = record_of(records, p)->0;
        let k = choose|k: int| 0 <= k < records.len() && records[k] == record;
        broadcast use vstd::seq_lib::group_filter_ensures;

        assert(is_present(now)(record));
        assert(kept.contains(record));
        let i = choose|i: int| 0 <= i < kept.len() && kept[i] == record;
        assert(result[i] == refreshed(record, directory, now));
        assert(result[i].participant.is(p));
    }
}

/// Every operation keeps each participant once, in order, and no gesture newer
/// than the count of them.
pub proof fn law_operations_keep_the_service_well_formed(
    service: ServiceView,
    participant: ParticipantView,
    mode: AttentionMode,
    targets: Seq<TargetView>,
    message: Option<Seq<char>>,
    directory: Seq<(RefView, LookupView)>,
    now: u64,
)
    requires
        service.wf(),
        service.sequence < u64::MAX,
    ensures
        attended(service, participant, mode, targets, message, directory, now).wf(),
        presented(service, participant, directory, now).wf(),
        cleared(service, participant, directory, now).wf(),
        departed(service, participant, directory, now).wf(),
        (ServiceView { records: cleaned(service.records, directory, now), ..service }).wf(),
{
    let records = service.records;
    let next = (service.sequence + 1) as u64;
    lemma_cleaned(records, directory, now);
    let gestured = RecordView {
        participant,
        attention: Some(gesture(mode, targets, normalized_message(message))),
        active_until: later(now, ACTIVE_LEASE_MS),
        present_until: later(now, PRESENCE_LEASE_MS),
        sequence: next,
    };
    lemma_put_counted(records, gestured, service.sequence, next);
    lemma_cleaned(put(records, gestured), directory, now);
    let there = renewed(record_of(records, participant), participant, now);
    lemma_record_of(records, participant);
    if record_of(records, participant) is Some {
        let record = record_of(records, participant)->0;
        let k = choose|k: int| 0 <= k < records.len() && records[k] == record;
        assert(records[k].sequence <= service.sequence);
    }
    lemma_put_counted(records, there, service.sequence, service.sequence);
    lemma_cleaned(put(records, there), directory, now);
    let idle = RecordView {
        participant,
        attention: None,
        active_until: now,
        present_until: later(now, PRESENCE_LEASE_MS),
        sequence: next,
    };
    lemma_put_counted(records, idle, service.sequence, next);
    lemma_cleaned(put(records, idle), directory, now);
    let others = records.filter(of_others(participant));
    lemma_filter_keeps(records, of_others(participant));
    assert forall|i: int| 0 <= i < others.len() implies (#[trigger] others[i]).sequence
        <= service.sequence by {
        assert(records.contains(others[i]));
        let k = choose|k: int| 0 <= k < records.len() && records[k] == others[i];
        assert(records[k].sequence <= service.sequence);
    }
    lemma_cleaned(others, directory, now);
    assert(counted(others, service.sequence));
}

proof fn lemma_put_counted(records: Seq<RecordView>, record: RecordView, was: u64, now: u64)
    requires
        counted(records, was),
        was <= now,
        record.sequence <= now,
    ensures
        counted(put(records, record), now),
        in_order(records) ==> in_order(put(records, record)),
{
    lemma_put(records, record);
    let result = put(records, record);
    assert forall|i: int| 0 <= i < result.len() implies (#[trigger] result[i]).sequence <= now by {
        let item = result[i];
        if item != record {
            assert(records.contains(item));
            let k = choose|k: int| 0 <= k < records.len() && records[k] == item;
            assert(records[k].sequence <= was);
        }
    }
}

proof fn lemma_put_at_rest(records: Seq<RecordView>, record: RecordView, clock: u64, now: u64)
    requires
        at_rest(records, clock),
        clock <= now,
        record.attention is None ==> record.active_until <= now,
    ensures
        at_rest(put(records, record), now),
{
    lemma_put(records, record);
    let result = put(records, record);
    assert forall|i: int|
        0 <= i < result.len() && (#[trigger] result[i]).attention is None implies result[i].active_until
        <= now by {
        let item = result[i];
        if item != record {
            assert(records.contains(item));
            let k = choose|k: int| 0 <= k < records.len() && records[k] == item;
            assert(records[k].attention is None ==> records[k].active_until <= clock);
        }
    }
}

proof fn lemma_cleaned_settles(
    records: Seq<RecordView>,
    directory: Seq<(RefView, LookupView)>,
    clock: u64,
    now: u64,
)
    requires
        at_rest(records, clock),
        clock <= now,
    ensures
        at_rest(cleaned(records, directory, now), now),
        all_present(cleaned(records, directory, now), now),
{
    let result = cleaned(records, directory, now);
    lemma_cleaned(records, directory, now);
    assert forall|i: int| 0 <= i < result.len() implies {
        &&& (#[trigger] result[i]).present_until > now
        &&& result[i].attention is None ==> result[i].active_until <= now
    } by {
        assert(stems_from(records, result[i], directory, now));
        let record = choose|record: RecordView| #[trigger]
            records.contains(record) && record.present_until > now && result[i] == refreshed(
                record,
                directory,
                now,
            );
        let k = choose|k: int| 0 <= k < records.len() && records[k] == record;
        assert(records[k].attention is None ==> records[k].active_until <= clock);
    }
}

/// Under a clock that never runs backwards, every operation leaves everybody on
/// record present, and nobody who attends to nothing with time left to attend.
pub proof fn law_operations_settle_the_service(
    service: ServiceView,
    participant: ParticipantView,
    mode: AttentionMode,
    targets: Seq<TargetView>,
    message: Option<Seq<char>>,
    directory: Seq<(RefView, LookupView)>,
    clock: u64,
    now: u64,
)
    requires
        service.wf(),
        at_rest(service.records, clock),
        clock <= now,
        service.sequence < u64::MAX,
    ensures
        attended(service, participant, mode, targets, message, directory, now).settled(now),
        presented(service, participant, directory, now).settled(now),
        cleared(service, participant, directory, now).settled(now),
        departed(service, participant, directory, now).settled(now),
        (ServiceView { records: cleaned(service.records, directory, now), ..service }).settled(now),
{
    let records = service.records;
    let next = (service.sequence + 1) as u64;
    law_operations_keep_the_service_well_formed(
        service,
        participant,
        mode,
        targets,
        message,
        directory,
        now,
    );
    let gestured = RecordView {
        participant,
        attention: Some(gesture(mode, targets, normalized_message(message))),
        active_until: later(now, ACTIVE_LEASE_MS),
        present_until: later(now, PRESENCE_LEASE_MS),
        sequence: next,
    };
    lemma_put_at_rest(records, gestured, clock, now);
    lemma_cleaned_settles(put(records, gestured), directory, now, now);
    let there = renewed(record_of(records, participant), participant, now);
    lemma_record_of(records, participant);
    if record_of(records, participant) is Some {
        let record = record_of(records, participant)->0;
        let k = choose|k: int| 0 <= k < records.len() && records[k] == record;
        assert(records[k].attention is None ==> records[k].active_until <= clock);
    }
    lemma_put_at_rest(records, there, clock, now);
    lemma_cleaned_settles(put(records, there), directory, now, now);
    let idle = RecordView {
        participant,
        attention: None,
        active_until: now,
        present_until: later(now, PRESENCE_LEASE_MS),
        sequence: next,
    };
    lemma_put_at_rest(records, idle, clock, now);
    lemma_cleaned_settles(put(records, idle), directory, now, now);
    let others = records.filter(of_others(participant));
    lemma_filter_keeps(records, of_others(participant));
    assert forall|i: int|
        0 <= i < others.len() && (#[trigger] others[i]).attention is None implies others[i].active_until
        <= clock by {
        assert(records.contains(others[i]));
        let k = choose|k: int| 0 <= k < records.len() && records[k] == others[i];
        assert(records[k].attention is None ==> records[k].active_until <= clock);
    }
    lemma_cleaned_settles(others, directory, clock, now);
    lemma_cleaned_settles(records, directory, clock, now);
}

/// A snapshot of a settled service shows each participant once: those who
/// attend to something first, people before agents, each in the order of their
/// ids. Everybody shown is present and has time left; whoever is active shows
/// what they attend to, and whoever is not has no time left to attend.
pub proof fn law_a_snapshot_is_coherent(service: ServiceView, now: u64)
    requires
        service.settled(now),
    ensures
        ({
            let snapshot = snapshot_of(service.records, now);
            let shown = snapshot.participants;
            &&& snapshot.schema_version == 1
            &&& snapshot.authority == "context_only"@
            &&& !snapshot.durable
            &&& shown.len() == service.records.len()
            &&& forall|i: int, j: int|
                0 <= i < j < shown.len() ==> {
                    let first = #[trigger] shown[i];
                    let second = #[trigger] shown[j];
                    &&& !first.participant.is(second.participant)
                    &&& second.active ==> first.active
                    &&& first.active == second.active ==> first.participant.before(
                        second.participant,
                    )
                }
            &&& forall|i: int|
                0 <= i < shown.len() ==> {
                    let entry = #[trigger] shown[i];
                    &&& entry.present
                    &&& entry.present_for_ms > 0
                    &&& entry.active <==> entry.status == "active"@
                    &&& entry.active <==> entry.attention is Some
                    &&& entry.active <==> entry.active_for_ms > 0
                    &&& !entry.active ==> entry.status == "present"@ && entry.active_for_ms == 0
                }
        }),
{
    let records = service.records;
    let active = records.filter(is_active(now));
    let idle = records.filter(is_idle(now));
    let both = active + idle;
    let shown = snapshot_of(records, now).participants;
    law_everybody_is_shown_once_in_order(records, now);
    lemma_filter_keeps(records, is_active(now));
    lemma_filter_keeps(records, is_idle(now));
    reveal_strlit("active");
    reveal_strlit("present");
    assert("active"@[0] != "present"@[0]);
    assert forall|i: int| 0 <= i < shown.len() implies {
        let entry = #[trigger] shown[i];
        &&& entry.present
        &&& entry.present_for_ms > 0
        &&& entry.active <==> entry.status == "active"@
        &&& entry.active <==> entry.attention is Some
        &&& entry.active <==> entry.active_for_ms > 0
        &&& !entry.active ==> entry.status == "present"@ && entry.active_for_ms == 0
    } by {
        assert(shown[i] == both[i].shown(now));
        if i < active.len() {
            assert(records.contains(active[i]));
        } else {
            assert(records.contains(idle[i - active.len()]));
        }
        let k = choose|k: int| 0 <= k < records.len() && records[k] == both[i];
        assert(records[k].present_until > now);
        assert(records[k].attention is None ==> records[k].active_until <= now);
    }
}

/// No participant is shown twice, those who attend to something are shown
/// first, and otherwise people stand before agents and each in the order of
/// their ids.
pub proof fn law_everybody_is_shown_once_in_order(records: Seq<RecordView>, now: u64)
    requires
        in_order(records),
    ensures
        ({
            let shown = shown_order(records, now);
            &&& shown.len() == records.len()
            &&& forall|i: int, j: int|
                0 <= i < j < shown.len() ==> {
                    let first = #[trigger] shown[i];
                    let second = #[trigger] shown[j];
                    &&& !first.participant.is(second.participant)
                    &&& second.active ==> first.active
                    &&& first.active == second.active ==> first.participant.before(
                        second.participant,
                    )
                }
        }),
{
    let active = records.filter(is_active(now));
    let idle = records.filter(is_idle(now));
    let both = active + idle;
    let shown = shown_order(records, now);
    lemma_filter_keeps(records, is_active(now));
    lemma_filter_keeps(records, is_idle(now));
    lemma_filters_part(records, now);
    assert forall|i: int, j: int| 0 <= i < j < shown.len() implies {
        let first = #[trigger] shown[i];
        let second = #[trigger] shown[j];
        &&& !first.participant.is(second.participant)
        &&& second.active ==> first.active
        &&& first.active == second.active ==> first.participant.before(second.participant)
    } by {
        assert(shown[i] == both[i].shown(now));
        assert(shown[j] == both[j].shown(now));
        crate::text::lemma_before_irreflexive(both[i].participant.id);
        if j < active.len() {
            assert(active[i].participant.before(active[j].participant));
            assert(is_active(now)(active[i]) && is_active(now)(active[j]));
        } else if i >= active.len() {
            assert(idle[i - active.len()].participant.before(idle[j - active.len()].participant));
            assert(is_idle(now)(idle[i - active.len()]) && is_idle(now)(idle[j - active.len()]));
        } else {
            assert(is_active(now)(active[i]) && is_idle(now)(idle[j - active.len()]));
            assert(records.contains(active[i]) && records.contains(idle[j - active.len()]));
            let a = choose|a: int| 0 <= a < records.len() && records[a] == active[i];
            let b = choose|b: int| 0 <= b < records.len() && records[b] == idle[j - active.len()];
            if records[a].participant.is(records[b].participant) {
                lemma_one_record(records, a, records[b].participant);
                lemma_one_record(records, b, records[b].participant);
            }
        }
    }
}

proof fn lemma_filters_part(records: Seq<RecordView>, now: u64)
    ensures
        records.filter(is_active(now)).len() + records.filter(is_idle(now)).len() == records.len(),
    decreases records.len(),
{
    reveal(Seq::filter);
    if records.len() > 0 {
        lemma_filters_part(records.drop_last(), now);
    }
}

/// A gesture is active for its lease; then its participant is merely present,
/// and after the longer lease they are gone.
pub proof fn law_a_gesture_lapses_before_its_participant(
    record: RecordView,
    start: u64,
    now: u64,
)
    requires
        record.attention is Some,
        record.active_until == later(start, ACTIVE_LEASE_MS),
        record.present_until == later(start, PRESENCE_LEASE_MS),
        start + PRESENCE_LEASE_MS <= u64::MAX,
    ensures
        now < start + ACTIVE_LEASE_MS ==> record.active(now) && record.shown(now).status
            == "active"@,
        start + ACTIVE_LEASE_MS <= now < start + PRESENCE_LEASE_MS ==> {
            &&& is_present(now)(record)
            &&& record.shown(now).present
            &&& !record.shown(now).active
            &&& record.shown(now).status == "present"@
            &&& record.shown(now).attention is None
        },
        start + PRESENCE_LEASE_MS <= now ==> !is_present(now)(record),
{
}

/// A heartbeat renews a live gesture that is held, to as long as its holder is
/// present. It leaves the lease of a brief one alone, and revives nothing.
pub proof fn law_a_heartbeat_renews_only_what_is_held(
    existing: RecordView,
    participant: ParticipantView,
    now: u64,
)
    requires
        now < u64::MAX,
    ensures
        ({
            let after = renewed(Some(existing), participant, now);
            &&& after.present_until > now
            &&& after.sequence == existing.sequence
            &&& existing.active(now) ==> after.attention == existing.attention
            &&& existing.active(now) && existing.attention->0.mode.held() ==> after.active_until
                == after.present_until
            &&& existing.active(now) && !existing.attention->0.mode.held()
                ==> after.active_until == existing.active_until
            &&& !existing.active(now) ==> !after.active(now)
        }),
{
}

/// Only a person's change moves the revision that a waiting agent watches, and
/// a heartbeat never does.
pub proof fn law_an_agent_never_wakes_itself(
    service: ServiceView,
    participant: ParticipantView,
    mode: AttentionMode,
    targets: Seq<TargetView>,
    message: Option<Seq<char>>,
    directory: Seq<(RefView, LookupView)>,
    now: u64,
)
    ensures
        participant.kind is Agent ==> {
            &&& attended(service, participant, mode, targets, message, directory, now).human_sequence
                == service.human_sequence
            &&& cleared(service, participant, directory, now).human_sequence
                == service.human_sequence
            &&& departed(service, participant, directory, now).human_sequence
                == service.human_sequence
        },
        participant.kind is Human ==> {
            &&& attended(service, participant, mode, targets, message, directory, now).human_sequence
                != service.human_sequence
            &&& cleared(service, participant, directory, now).human_sequence
                != service.human_sequence
        },
        presented(service, participant, directory, now).human_sequence == service.human_sequence,
{
}

/// Who left is gone at once.
pub proof fn law_departure_is_immediate(
    service: ServiceView,
    participant: ParticipantView,
    directory: Seq<(RefView, LookupView)>,
    now: u64,
)
    ensures
        record_of(departed(service, participant, directory, now).records, participant) is None,
{
    let others = service.records.filter(of_others(participant));
    let result = cleaned(others, directory, now);
    lemma_filter_keeps(service.records, of_others(participant));
    lemma_cleaned(others, directory, now);
    lemma_record_of(result, participant);
    assert forall|i: int| 0 <= i < result.len() implies !(
    #[trigger] result[i]).participant.is(participant) by {
        assert(stems_from(others, result[i], directory, now));
        let record = choose|record: RecordView| #[trigger]
            others.contains(record) && record.present_until > now && result[i] == refreshed(
                record,
                directory,
                now,
            );
        let k = choose|k: int| 0 <= k < others.len() && others[k] == record;
        assert(of_others(participant)(others[k]));
    }
}

proof fn lemma_survivors(targets: Seq<TargetView>, directory: Seq<(RefView, LookupView)>)
    ensures
        forall|i: int|
            0 <= i < survivors(targets, directory).len() ==> {
                let target = #[trigger] survivors(targets, directory)[i];
                answer(directory, target.target) == LookupView::Found(target)
            },
    decreases targets.len(),
{
    if targets.len() > 0 {
        lemma_survivors(targets.drop_last(), directory);
    }
}

/// What is read back never holds a target that does not exist, and each target
/// is as it is now.
pub proof fn law_a_missing_target_is_never_read_back(
    records: Seq<RecordView>,
    directory: Seq<(RefView, LookupView)>,
    now: u64,
    at: int,
)
    requires
        0 <= at < cleaned(records, directory, now).len(),
    ensures
        cleaned(records, directory, now)[at].attention matches Some(attention) ==> (forall|i: int|
            0 <= i < attention.targets().len() ==> {
                let target = #[trigger] attention.targets()[i];
                answer(directory, target.target) == LookupView::Found(target)
            }),
{
    lemma_cleaned(records, directory, now);
    let shown = cleaned(records, directory, now)[at];
    assert(stems_from(records, shown, directory, now));
    let record = choose|record: RecordView| #[trigger]
        records.contains(record) && record.present_until > now && shown == refreshed(
            record,
            directory,
            now,
        );
    if shown.attention is Some {
        let left = survivors(record.attention->0.targets(), directory);
        lemma_survivors(record.attention->0.targets(), directory);
        assert(shown.attention->0.targets() =~= left);
    }
}

/// Whether a gesture names one target before it names another.
pub open spec fn mentioned_first(refs: Seq<RefView>, one: RefView, other: RefView) -> bool {
    exists|k: int|
        0 <= k < refs.len() && #[trigger] refs[k] == one && !refs.take(k + 1).contains(other)
}

proof fn lemma_mentioned_first(refs: Seq<RefView>, one: RefView, other: RefView)
    requires
        refs.len() > 0,
        mentioned_first(refs.drop_last(), one, other),
    ensures
        mentioned_first(refs, one, other),
{
    let rest = refs.drop_last();
    let k = choose|k: int|
        0 <= k < rest.len() && #[trigger] rest[k] == one && !rest.take(k + 1).contains(other);
    assert(refs[k] == one);
    assert(refs.take(k + 1) =~= rest.take(k + 1));
}

pub(crate) proof fn lemma_resolutions(
    namespaces: Seq<Seq<char>>,
    directory: Seq<(RefView, LookupView)>,
    refs: Seq<RefView>,
)
    requires
        resolutions(namespaces, directory, refs) is Ok,
    ensures
        ({
            let targets = resolutions(namespaces, directory, refs)->Ok_0;
            &&& survivors(targets, directory) == targets
            &&& targets.len() <= refs.len()
            &&& refs.len() > 0 ==> targets.len() > 0
            &&& forall|i: int|
                0 <= i < targets.len() ==> refs.contains((#[trigger] targets[i]).target)
            &&& forall|i: int, j: int|
                0 <= i < j < targets.len() ==> (#[trigger] targets[i]).target != (
                #[trigger] targets[j]).target
            &&& forall|i: int, j: int|
                0 <= i < j < targets.len() ==> mentioned_first(
                    refs,
                    (#[trigger] targets[i]).target,
                    (#[trigger] targets[j]).target,
                )
            &&& forall|k: int|
                0 <= k < refs.len() ==> exists|i: int|
                    0 <= i < targets.len() && (#[trigger] targets[i]).target == #[trigger] refs[k]
        }),
    decreases refs.len(),
{
    if refs.len() > 0 {
        let rest = refs.drop_last();
        let last = refs.last();
        lemma_resolutions(namespaces, directory, rest);
        let done = resolutions(namespaces, directory, rest)->Ok_0;
        let targets = resolutions(namespaces, directory, refs)->Ok_0;
        assert(refs[refs.len() - 1] == last);
        assert forall|i: int| 0 <= i < done.len() implies refs.contains(
            (#[trigger] done[i]).target,
        ) by {
            let k = choose|k: int| 0 <= k < rest.len() && rest[k] == done[i].target;
            assert(rest.contains(done[i].target));
            assert(refs[k] == done[i].target);
        }
        assert forall|i: int, j: int| 0 <= i < j < done.len() implies mentioned_first(
            refs,
            (#[trigger] done[i]).target,
            (#[trigger] done[j]).target,
        ) by {
            lemma_mentioned_first(refs, done[i].target, done[j].target);
        }
        if rest.contains(last) {
            let at = choose|k: int| 0 <= k < rest.len() && rest[k] == last;
            assert forall|k: int| 0 <= k < refs.len() implies exists|i: int|
                0 <= i < targets.len() && (#[trigger] targets[i]).target == #[trigger] refs[k] by {
                if k == refs.len() - 1 {
                    assert(rest[at] == refs[k]);
                } else {
                    assert(rest[k] == refs[k]);
                }
            }
        } else {
            let found = resolution(namespaces, directory, last)->Ok_0;
            assert(targets == done.push(found));
            assert(targets.drop_last() =~= done);
            assert forall|i: int, j: int| 0 <= i < j < targets.len() implies (
            #[trigger] targets[i]).target != (#[trigger] targets[j]).target by {
                if j == done.len() {
                    assert(rest.contains(done[i].target));
                }
            }
            assert forall|i: int, j: int| 0 <= i < j < targets.len() implies mentioned_first(
                refs,
                (#[trigger] targets[i]).target,
                (#[trigger] targets[j]).target,
            ) by {
                if j == done.len() {
                    assert(rest.contains(done[i].target));
                    let k = choose|k: int| 0 <= k < rest.len() && rest[k] == done[i].target;
                    assert(refs[k] == done[i].target);
                    let named = refs.take(k + 1);
                    if named.contains(last) {
                        let m = choose|m: int| 0 <= m < named.len() && named[m] == last;
                        assert(rest[m] == last);
                    }
                } else {
                    assert(targets[i] == done[i] && targets[j] == done[j]);
                }
            }
            assert forall|k: int| 0 <= k < refs.len() implies exists|i: int|
                0 <= i < targets.len() && (#[trigger] targets[i]).target == #[trigger] refs[k] by {
                if k == refs.len() - 1 {
                    assert(targets[done.len() as int].target == refs[k]);
                } else {
                    assert(rest[k] == refs[k]);
                    let i = choose|i: int| 0 <= i < done.len() && done[i].target == rest[k];
                    assert(targets[i].target == refs[k]);
                }
            }
        }
    }
}

/// A gesture carries each target that it names, once, in the order in which they
/// are first named: a repeated one does not count again.
pub proof fn law_a_repeated_target_counts_once(
    namespaces: Seq<Seq<char>>,
    directory: Seq<(RefView, LookupView)>,
    refs: Seq<RefView>,
)
    requires
        resolutions(namespaces, directory, refs) is Ok,
    ensures
        ({
            let targets = resolutions(namespaces, directory, refs)->Ok_0;
            &&& targets.len() <= refs.len()
            &&& forall|i: int|
                0 <= i < targets.len() ==> refs.contains((#[trigger] targets[i]).target)
            &&& forall|i: int, j: int|
                0 <= i < j < targets.len() ==> (#[trigger] targets[i]).target != (
                #[trigger] targets[j]).target
            &&& forall|i: int, j: int|
                0 <= i < j < targets.len() ==> mentioned_first(
                    refs,
                    (#[trigger] targets[i]).target,
                    (#[trigger] targets[j]).target,
                )
            &&& forall|k: int|
                0 <= k < refs.len() ==> exists|i: int|
                    0 <= i < targets.len() && (#[trigger] targets[i]).target == #[trigger] refs[k]
        }),
{
    lemma_resolutions(namespaces, directory, refs);
}

proof fn lemma_newest(
    records: Seq<RecordView>,
    kind: ParticipantKind,
    sought: SoughtView,
    now: u64,
    record: RecordView,
)
    requires
        records.contains(record),
        sought_in(record, kind, sought, now),
        forall|i: int|
            0 <= i < records.len() ==> #[trigger] records[i] == record || records[i].sequence
                < record.sequence,
    ensures
        newest(records, kind, sought, now) == Some(record),
    decreases records.len(),
{
    let rest = records.drop_last();
    let last = records.last();
    lemma_newest_is_there(rest, kind, sought, now);
    assert(records[records.len() - 1] == last);
    assert forall|i: int| 0 <= i < rest.len() implies #[trigger] rest[i] == record
        || rest[i].sequence < record.sequence by {
        assert(records[i] == rest[i]);
    }
    if last == record {
        let best = newest(rest, kind, sought, now);
        if best is Some {
            let k = choose|k: int| 0 <= k < rest.len() && rest[k] == best->0;
            assert(rest[k] == best->0);
        }
    } else {
        let k = choose|k: int| 0 <= k < records.len() && records[k] == record;
        assert(rest[k] == record);
        lemma_newest(rest, kind, sought, now, record);
    }
}

proof fn lemma_newest_is_there(
    records: Seq<RecordView>,
    kind: ParticipantKind,
    sought: SoughtView,
    now: u64,
)
    ensures
        newest(records, kind, sought, now) matches Some(record) ==> records.contains(record)
            && sought_in(record, kind, sought, now),
    decreases records.len(),
{
    if records.len() > 0 {
        let rest = records.drop_last();
        lemma_newest_is_there(rest, kind, sought, now);
        assert(records[records.len() - 1] == records.last());
        if newest(rest, kind, sought, now) is Some {
            let record = newest(rest, kind, sought, now)->0;
            let k = choose|k: int| 0 <= k < rest.len() && rest[k] == record;
            assert(records[k] == record);
        }
    }
}

/// An accepted gesture is exactly what is read back: it is its participant's
/// record, it is active, and it is the newest one of its kind.
pub proof fn law_an_accepted_gesture_is_read_back(
    service: ServiceView,
    participant: ParticipantView,
    mode: AttentionMode,
    refs: Seq<RefView>,
    message: Option<Seq<char>>,
    directory: Seq<(RefView, LookupView)>,
    now: u64,
)
    requires
        service.wf(),
        service.sequence < u64::MAX,
        now < u64::MAX,
        gesture_problem(service, participant, refs, message, directory) is None,
    ensures
        ({
            let targets = resolutions(service.namespaces, directory, refs)->Ok_0;
            let after = attended(service, participant, mode, targets, message, directory, now);
            let made = gesture(mode, targets, normalized_message(message));
            let record = record_of(after.records, participant);
            &&& record is Some
            &&& record->0.participant == participant
            &&& record->0.attention == Some(made)
            &&& record->0.active(now)
            &&& newest(after.records, participant.kind, SoughtView::Any, now) == record
        }),
{
    let targets = resolutions(service.namespaces, directory, refs)->Ok_0;
    let after = attended(service, participant, mode, targets, message, directory, now);
    let made = gesture(mode, targets, normalized_message(message));
    let next = (service.sequence + 1) as u64;
    let record = RecordView {
        participant,
        attention: Some(made),
        active_until: later(now, ACTIVE_LEASE_MS),
        present_until: later(now, PRESENCE_LEASE_MS),
        sequence: next,
    };
    lemma_resolutions(service.namespaces, directory, refs);
    lemma_put(service.records, record);
    let held = put(service.records, record);
    law_cleaning_keeps_who_is_present(held, directory, now, participant);
    assert(made.targets() =~= targets);
    assert(refreshed(record, directory, now) == record);
    assert(record_of(after.records, participant) == Some(record));
    lemma_record_of(after.records, participant);
    lemma_cleaned(held, directory, now);
    assert forall|i: int| 0 <= i < after.records.len() implies #[trigger] after.records[i] == record
        || after.records[i].sequence < record.sequence by {
        assert(stems_from(held, after.records[i], directory, now));
        let earlier = choose|earlier: RecordView| #[trigger]
            held.contains(earlier) && earlier.present_until > now && after.records[i] == refreshed(
                earlier,
                directory,
                now,
            );
        let k = choose|k: int| 0 <= k < held.len() && held[k] == earlier;
        assert(held[k] == record || service.records.contains(held[k]));
        if held[k] != record {
            let m = choose|m: int| 0 <= m < service.records.len() && service.records[m] == held[k];
            assert(service.records[m].sequence <= service.sequence);
        }
    }
    lemma_newest(after.records, participant.kind, SoughtView::Any, now, record);
}

/// A gesture leaves the records of everybody else as cleaning leaves them.
pub proof fn law_a_gesture_leaves_others_alone(
    service: ServiceView,
    participant: ParticipantView,
    mode: AttentionMode,
    targets: Seq<TargetView>,
    message: Option<Seq<char>>,
    directory: Seq<(RefView, LookupView)>,
    now: u64,
    other: ParticipantView,
)
    requires
        service.wf(),
        !other.is(participant),
    ensures
        record_of(
            attended(service, participant, mode, targets, message, directory, now).records,
            other,
        ) == record_of(cleaned(service.records, directory, now), other),
{
    let record = RecordView {
        participant,
        attention: Some(gesture(mode, targets, normalized_message(message))),
        active_until: later(now, ACTIVE_LEASE_MS),
        present_until: later(now, PRESENCE_LEASE_MS),
        sequence: (service.sequence + 1) as u64,
    };
    lemma_put(service.records, record);
    law_cleaning_keeps_who_is_present(put(service.records, record), directory, now, other);
    law_cleaning_keeps_who_is_present(service.records, directory, now, other);
}

} // verus!
