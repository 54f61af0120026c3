//! What the host gives out and keeps: labels, tokens, models, paths, records and
//! how it is doing.

use vstd::prelude::*;

use crate::activity::{size_note, start_records, ActivityOutcome, Listening, RecordView};
use crate::json::{group_reading, JsonView};
use crate::caller::{AttachedAgent, Person};
use crate::labels::{agent_labels, base_label, chosen_label, free_number, numbered, person_names};
use crate::lists::lemma_first_index;
use crate::paths::under;
use crate::providers::ProviderView;
use crate::replica::{
    frames, picture_bytes, reaction, stats_value, ActionView, PictureReplyView, Stats, WsEvent,
};
use crate::runtime::{overrides_among, token_text, LivenessView};
use crate::services::{
    absent_message, entry_names, mistyped_message, provide_problem, rejected_message, staging,
};
use crate::text::{blank, debug_text, decimal, opt_text, trimmed};
use crate::text_laws::{lemma_mentions, mentions};

verus! {

/// The names of the wire differ from each other.
proof fn lemma_names()
    ensures
        "ws_subscribers"@.len() == 14,
        "ws_subscribers"@[0] == 'w',
        "sse_subscribers"@.len() == 15,
        "provider"@.len() == 8,
        "ready"@.len() == 5,
        "ready"@[0] == 'r',
        "warming"@.len() == 7,
        "provider_error"@.len() == 14,
        "provider_error"@[0] == 'p',
        "busy"@.len() == 4,
        "audio"@.len() == 5,
        "audio"@[0] == 'a',
{
    reveal_strlit("ws_subscribers");
    reveal_strlit("sse_subscribers");
    reveal_strlit("provider");
    reveal_strlit("ready");
    reveal_strlit("warming");
    reveal_strlit("provider_error");
    reveal_strlit("busy");
    reveal_strlit("audio");
}

// Labels.

/// A label starts from the proposed name, trimmed and cut to a hundred
/// characters; where nothing is proposed it is a general one.
pub proof fn law_a_label_starts_from_what_is_proposed(proposed: Seq<char>)
    ensures
        blank(proposed) ==> base_label(proposed) == "agent"@,
        !blank(proposed) ==> base_label(proposed).is_prefix_of(trimmed(proposed)),
        !blank(proposed) && trimmed(proposed).len() <= 100 ==> base_label(proposed) == trimmed(
            proposed,
        ),
        !blank(proposed) && trimmed(proposed).len() > 100 ==> base_label(proposed).len() == 100,
{
    let own = trimmed(proposed);
    if !blank(proposed) {
        let base = base_label(proposed);
        assert(own.subrange(0, base.len() as int) =~= base);
    }
}

/// A label that has to be told apart gets the lowest number, from two to
/// ninety-nine, that is free, and the fresh id where none is.
pub proof fn law_a_taken_label_gets_the_lowest_free_number(
    proposed: Seq<char>,
    taken: Seq<Seq<char>>,
    fresh: Seq<char>,
    number: nat,
)
    requires
        taken.contains(base_label(proposed)),
        2 <= number <= 99,
        forall|lower: nat|
            2 <= lower < number ==> taken.contains(
                base_label(proposed) + "-"@ + #[trigger] decimal(lower),
            ),
    ensures
        !taken.contains(base_label(proposed) + "-"@ + decimal(number)) ==> chosen_label(
            proposed,
            taken,
            fresh,
        ) == base_label(proposed) + "-"@ + decimal(number),
        number == 99 && taken.contains(base_label(proposed) + "-"@ + decimal(number))
            ==> chosen_label(proposed, taken, fresh) == base_label(proposed) + "-"@ + fresh,
{
    let base = base_label(proposed);
    let free = |k: int| !taken.contains(numbered(base, k));
    lemma_first_index(98, free);
    assert forall|k: int| 0 <= k < number - 2 implies !(#[trigger] free(k)) by {
        assert(taken.contains(base + "-"@ + decimal((k + 2) as nat)));
    }
    let last = number - 2;
    if !taken.contains(base + "-"@ + decimal(number)) {
        assert(numbered(base, last) == base + "-"@ + decimal(number));
        assert(free(last));
        let found = free_number(base, taken)->0;
        assert(free(found));
        assert(found == last);
    } else if number == 99 {
        assert forall|k: int| 0 <= k < 98 implies !(#[trigger] free(k)) by {
            if k == 97 {
                assert(numbered(base, 97) == base + "-"@ + decimal(99));
            }
        }
    }
}

// The runtime.

/// A model is remembered for a provider exactly where one was stored that says
/// something, and it is the one that was stored last; the single connection keeps
/// its model elsewhere.
pub proof fn law_a_stored_model_is_remembered(
    providers: Seq<ProviderView>,
    stored: Seq<Option<Seq<char>>>,
    at: int,
)
    requires
        providers.len() == stored.len(),
        0 <= at < providers.len(),
        forall|j: int| at < j < providers.len() ==> (#[trigger] providers[j]).id != providers[at].id,
    ensures
        ({
            let kept = overrides_among(providers, stored, providers.len());
            &&& stored[at] matches Some(model) ==> (model.len() > 0 && providers[at].id
                != "openai"@ ==> kept.contains_key(providers[at].id) && kept[providers[at].id]
                == model)
            &&& !kept.contains_key("openai"@)
        }),
{
    lemma_remembered(providers, stored, at, providers.len());
}

proof fn lemma_remembered(
    providers: Seq<ProviderView>,
    stored: Seq<Option<Seq<char>>>,
    at: int,
    n: nat,
)
    requires
        providers.len() == stored.len(),
        n <= providers.len(),
        0 <= at < providers.len(),
        forall|j: int| at < j < providers.len() ==> (#[trigger] providers[j]).id != providers[at].id,
    ensures
        ({
            let kept = overrides_among(providers, stored, n);
            &&& at < n ==> (stored[at] matches Some(model) ==> (model.len() > 0 && providers[at].id
                != "openai"@ ==> kept.contains_key(providers[at].id) && kept[providers[at].id]
                == model))
            &&& !kept.contains_key("openai"@)
            &&& forall|id: Seq<char>| #[trigger] kept.contains_key(id) ==> kept[id].len() > 0
            &&& forall|id: Seq<char>| #[trigger]
                kept.contains_key(id) ==> exists|i: int|
                    0 <= i < n && (#[trigger] providers[i]).id == id && stored[i] == Some(kept[id])
        }),
    decreases n,
{
    if n > 0 {
        let m = (n - 1) as nat;
        lemma_remembered(providers, stored, at, m);
        let before = overrides_among(providers, stored, m);
        let kept = overrides_among(providers, stored, n);
        let id = providers[m as int].id;
        assert forall|name: Seq<char>| #[trigger] kept.contains_key(name) implies exists|i: int|
            0 <= i < n && (#[trigger] providers[i]).id == name && stored[i] == Some(kept[name]) by {
            if kept != before && name == id {
                assert(providers[m as int].id == name);
            } else {
                assert(before.contains_key(name));
                let i = choose|i: int|
                    0 <= i < m && (#[trigger] providers[i]).id == name && stored[i] == Some(
                        before[name],
                    );
                assert(providers[i].id == name);
            }
        }
    }
}

/// Nothing is remembered that was not stored for a provider of that id, no model
/// that says nothing, and none for the single connection.
pub proof fn law_only_stored_models_are_remembered(
    providers: Seq<ProviderView>,
    stored: Seq<Option<Seq<char>>>,
    id: Seq<char>,
)
    requires
        providers.len() == stored.len(),
        providers.len() > 0,
        overrides_among(providers, stored, providers.len()).contains_key(id),
    ensures
        exists|i: int|
            0 <= i < providers.len() && (#[trigger] providers[i]).id == id && stored[i] == Some(
                overrides_among(providers, stored, providers.len())[id],
            ),
        overrides_among(providers, stored, providers.len())[id].len() > 0,
        id != "openai"@,
{
    lemma_remembered(providers, stored, providers.len() - 1, providers.len());
}

/// The agents' token is the configured one, trimmed, wherever one is configured,
/// and a fresh one otherwise.
pub proof fn law_a_configured_token_is_used(configured: Seq<char>, fresh: Seq<char>)
    ensures
        !blank(configured) ==> token_text(Some(configured), fresh) == trimmed(configured),
        blank(configured) ==> token_text(Some(configured), fresh) == fresh,
        token_text(None, fresh) == fresh,
{
}

/// An agent that makes no call is quiet since it last spoke; calls that overlap
/// keep it from being quiet until the last has ended, and one that runs for more
/// than eleven minutes counts no more.
pub proof fn law_an_agent_in_a_call_is_not_quiet(before: LivenessView, start: u64, now: u64)
    requires
        before.in_flight < usize::MAX,
        start <= now,
    ensures
        ({
            let during = before.called(start);
            &&& during.in_flight == before.in_flight + 1
            &&& now - start <= 660_000_000_000 ==> during.quiet(now) is None
            &&& now - start > 660_000_000_000 ==> during.quiet(now) == Some((now - start) as u64)
            &&& during.ended(now).in_flight == before.in_flight
            &&& during.ended(now).last_seen == now
            &&& before.in_flight == 0 && before.last_seen <= now ==> before.quiet(now) == Some(
                (now - before.last_seen) as u64,
            )
        }),
{
}

// The binary transport.

/// A frame of the state goes to the client as it is, what the surface answers
/// goes to everybody as it is, a heartbeat is nothing to do about, and a client
/// that is gone is left.
pub proof fn law_frames_go_out_as_they_are(event: WsEvent)
    ensures
        event matches WsEvent::Outbound(frame) ==> reaction(event) == ActionView::Send(frame@),
        event matches WsEvent::Binary(Ok(replies)) ==> (
        reaction(event) matches ActionView::Broadcast(list) && list.len() == replies@.len() && (
        forall|k: int| 0 <= k < list.len() ==> #[trigger] list[k] == replies@[k]@)),
        event matches WsEvent::Binary(Err(message)) ==> reaction(event) is Close,
        event is Heartbeat <==> reaction(event) is Ignore,
        event is Gone <==> reaction(event) is Stop,
        event is Lagged || event is Ended || event is Text ==> reaction(event) is Close,
{
    if let WsEvent::Binary(outcome) = event {
        if let Ok(replies) = outcome {
            assert(frames(replies@).len() == replies@.len());
        }
    }
}

/// A picture is read out as it is, and without one the reason is said.
pub proof fn law_a_picture_is_read_out_or_its_absence_explained(
    picture: Result<Option<Vec<u8>>, String>,
)
    ensures
        picture matches Ok(Some(png)) ==> picture_bytes(picture) == PictureReplyView::Png(png@),
        picture matches Err(error) ==> picture_bytes(picture) == PictureReplyView::Unavailable(
            error@,
        ),
        picture matches Ok(None) ==> picture_bytes(picture) == PictureReplyView::Unavailable(
            "renderer unavailable"@,
        ),
{
}

/// How the runtime is doing is told in full.
pub proof fn law_the_runtime_tells_how_it_is(stats: Stats)
    ensures
        ({
            let told = stats_value(stats);
            &&& told.member("ws_subscribers"@) == Some(
                JsonView::Number(decimal(stats.ws_subscribers as nat)),
            )
            &&& told.member("sse_subscribers"@) == Some(
                JsonView::Number(decimal(stats.sse_subscribers as nat)),
            )
            &&& told.text_member("provider"@) == Some(stats.provider@)
            &&& told.truth_member("ready"@) == Some(stats.ready)
            &&& told.truth_member("warming"@) == Some(stats.warming)
            &&& told.text_member("provider_error"@) == opt_text(stats.provider_error)
            &&& told.truth_member("busy"@) == Some(stats.busy)
            &&& told.truth_member("audio"@) == Some(stats.audio)
        }),
{
    broadcast use group_reading;

    lemma_names();
}

// Paths.

/// An absolute path stays as it is; any other stands under the directory, with
/// one slash between the two.
pub proof fn law_a_path_stands_under_its_directory(dir: Seq<char>, path: Seq<char>)
    ensures
        ({
            let whole = under(dir, path);
            &&& path.len() > 0 && path[0] == '/' ==> whole == path
            &&& path.is_suffix_of(whole)
            &&& !(path.len() > 0 && path[0] == '/') ==> {
                &&& dir.is_prefix_of(whole)
                &&& dir.len() > 0 && dir.last() != '/' ==> whole.len() == dir.len() + 1 + path.len()
                    && whole[dir.len() as int] == '/'
                &&& dir.len() == 0 || dir.last() == '/' ==> whole.len() == dir.len() + path.len()
            }
        }),
{
    reveal_strlit("/");
    let whole = under(dir, path);
    assert("/"@ =~= seq!['/']);
    assert(whole.subrange(whole.len() - path.len(), whole.len() as int) =~= path);
    if !(path.len() > 0 && path[0] == '/') {
        assert(whole.subrange(0, dir.len() as int) =~= dir);
    }
}

// Records.

/// A message's record says how long the message is and nothing of what it says.
pub proof fn law_a_size_is_noted_and_no_text(one: Seq<char>, other: Seq<char>)
    ensures
        one.len() == other.len() ==> size_note(one) == size_note(other),
        decimal(one.len()).is_prefix_of(size_note(one)),
{
    let note = size_note(one);
    let digits = decimal(one.len());
    assert(note.subrange(0, digits.len() as int) =~= digits);
}

/// That a client comes and goes is on record, for each way of listening under a
/// name of its own.
pub proof fn law_listeners_are_on_record(one: Listening, other: Listening)
    ensures
        one.text() == other.text() ==> one == other,
        one.arrival() matches RecordView::Connection { name, outcome, .. } && name == one.text()
            && outcome == ActivityOutcome::Connected,
        one.departure() matches RecordView::Connection { name, outcome, .. } && name
            == one.text() && outcome == ActivityOutcome::Disconnected,
        Listening::Events.text() == "connection.sse"@,
        Listening::Replica.text() == "connection.websocket"@,
{
    reveal_strlit("connection.sse");
    reveal_strlit("connection.websocket");
    assert("connection.sse"@.len() != "connection.websocket"@.len());
}

/// That an application starts is on record with the address that it listens at
/// and the provider that was selected.
pub proof fn law_a_start_is_on_record(address: Seq<char>, provider: Seq<char>)
    ensures
        ({
            let records = start_records(address, provider);
            &&& records.len() == 2
            &&& records[0] matches RecordView::Lifecycle { name, outcome, detail, .. } && name
                == "runtime.started"@ && outcome == ActivityOutcome::Started && (
            detail matches Some(text) && address.is_suffix_of(text))
            &&& records[1] matches RecordView::Provider { name, provider: selected, .. } && name
                == "provider.selected"@ && selected == provider
        }),
{
    let text = "listening on "@ + address;
    assert(text.subrange(text.len() - address.len(), text.len() as int) =~= address);
}

// Services.

/// A service is provided exactly where its name says something and nothing is
/// provided under it yet.
pub proof fn law_a_service_is_provided_once<S>(services: Seq<(Seq<char>, S)>, name: Seq<char>)
    ensures
        provide_problem(services, name) is None <==> !blank(name) && forall|i: int|
            0 <= i < services.len() ==> (#[trigger] services[i]).0 != name,
{
    let names = entry_names(services);
    if names.contains(name) {
        let k = choose|k: int| 0 <= k < names.len() && names[k] == name;
        assert(services[k].0 == name);
    }
    assert forall|i: int| 0 <= i < services.len() && (#[trigger] services[i]).0 == name implies
        names.contains(name) by {
        assert(names[i] == name);
    }
}

/// What is said of a service that is missing, or is something else, names it; a
/// rejected transaction names who rejected it and why.
pub proof fn law_a_failure_names_its_cause<S>(
    services: Seq<(Seq<char>, S)>,
    name: Seq<char>,
    expected: Seq<char>,
    extension: Seq<char>,
    error: Seq<char>,
)
    ensures
        mentions(absent_message(services, name), debug_text(name)),
        mentions(mistyped_message(name, expected), debug_text(name)),
        expected.is_suffix_of(mistyped_message(name, expected)),
        mentions(rejected_message(name, extension, error), extension),
        mentions(rejected_message(name, extension, error), error),
{
    let quoted = debug_text(name);
    let absent = absent_message(services, name);
    let rest = " was not provided (available: "@ + crate::text::debug_list(entry_names(services))
        + ")"@;
    assert(absent =~= "host service "@ + quoted + rest);
    lemma_mentions(absent, "host service "@, quoted, rest);
    let mistyped = mistyped_message(name, expected);
    assert(mistyped =~= "host service "@ + quoted + (" was provided, but not as "@ + expected));
    lemma_mentions(
        mistyped,
        "host service "@,
        quoted,
        " was provided, but not as "@ + expected,
    );
    assert(mistyped.subrange(mistyped.len() - expected.len(), mistyped.len() as int) =~= expected);
    let rejected = rejected_message(name, extension, error);
    let head = "transaction on document "@ + quoted + " was rejected by "@;
    let tail = ": "@ + error + "; no participant's write was applied"@;
    assert(rejected =~= head + extension + tail);
    lemma_mentions(rejected, head, extension, tail);
    assert(rejected =~= (head + extension + ": "@) + error
        + "; no participant's write was applied"@);
    lemma_mentions(
        rejected,
        head + extension + ": "@,
        error,
        "; no participant's write was applied"@,
    );
}

/// Every agent's label and every person's name counts as taken, and nothing
/// else does.
pub proof fn law_every_name_in_the_room_is_taken(
    agents: Seq<AttachedAgent>,
    people: Seq<Person>,
    name: Seq<char>,
)
    ensures
        (agent_labels(agents) + person_names(people)).contains(name) <==> (exists|i: int|
            0 <= i < agents.len() && (#[trigger] agents[i]).label@ == name) || (exists|i: int|
            0 <= i < people.len() && (#[trigger] people[i]).name@ == name),
{
    let taken = agent_labels(agents) + person_names(people);
    if taken.contains(name) {
        let k = choose|k: int| 0 <= k < taken.len() && taken[k] == name;
        if k < agents.len() {
            assert(agents[k].label@ == name);
        } else {
            assert(people[k - agents.len()].name@ == name);
        }
    }
    if exists|i: int| 0 <= i < agents.len() && (#[trigger] agents[i]).label@ == name {
        let i = choose|i: int| 0 <= i < agents.len() && (#[trigger] agents[i]).label@ == name;
        assert(taken[i] == name);
    }
    if exists|i: int| 0 <= i < people.len() && (#[trigger] people[i]).name@ == name {
        let i = choose|i: int| 0 <= i < people.len() && (#[trigger] people[i]).name@ == name;
        assert(taken[agents.len() + i] == name);
    }
}

/// A participant's refusal keeps its reason, and what it stages is what it would
/// write.
pub proof fn law_a_refusal_keeps_its_reason<W>(outcome: Result<W, String>)
    ensures
        outcome matches Ok(write) ==> staging(outcome) == Ok::<W, Seq<char>>(write),
        outcome matches Err(error) ==> staging(outcome) == Err::<W, Seq<char>>(error@),
{
}

} // verus!
