//! What the person's requests lead to, whatever they say.

use vstd::prelude::*;

use crate::activity::{lifecycle_records, ActivityOutcome, RecordView};
use crate::caller::{narrowed_caller, Caller};
use crate::decisions::error_reply;
use crate::events::EventView;
use crate::json::{group_reading, item_under, lists_under, under, JsonView};
use crate::narration::LineView;
use crate::text::{blank, decimal, trimmed};
use crate::text_laws::{lemma_mentions, mentions};
use crate::turns::{
    ask_step, focus_answer, history_value, interrupt_answer, join_step, mission_event,
    model_question, person_value, point_step, pointing_reply, ran_reply, replay, state_value,
    stranger_value, tool_request_step, transport_status, turn_refusal, writing_actor, AskView,
    IndicatedView, JoinView, PersonView, PointView, Resolution, StateBacking, ToolRequestView,
};

verus! {

/// The names and words of the wire differ from each other.
proof fn lemma_names()
    ensures
        "by"@.len() == 2,
        "by"@[0] == 'b',
        "by_id"@.len() == 5,
        "by_id"@[0] == 'b',
        "text"@.len() == 4,
        "text"@[0] == 't',
        "origin"@.len() == 6,
        "origin"@[0] == 'o',
        "ok"@.len() == 2,
        "ok"@[0] == 'o',
        "busy"@.len() == 4,
        "busy"@[0] == 'b',
        "busy"@[1] == 'u',
        ""@.len() == 0,
        "interrupted"@.len() == 11,
        "idle"@.len() == 4,
        "idle"@[0] == 'i',
        "error"@.len() == 5,
        "error"@[0] == 'e',
        "result"@.len() == 6,
        "result"@[0] == 'r',
        "joined"@.len() == 6,
        "joined"@[0] == 'j',
        "id"@.len() == 2,
        "id"@[0] == 'i',
        "name"@.len() == 4,
        "name"@[0] == 'n',
        "hue"@.len() == 3,
        "principal"@.len() == 9,
        "principal"@[0] == 'p',
        "invitable"@.len() == 9,
        "invitable"@[0] == 'i',
        "token"@.len() == 5,
        "token"@[0] == 't',
        "backing"@.len() == 7,
        "backing"@[0] == 'b',
        "body"@.len() == 4,
        "body"@[0] == 'b',
        "body"@[1] == 'o',
        "chrome"@.len() == 6,
        "chrome"@[0] == 'c',
        "crdt"@.len() == 4,
        "crdt"@[0] == 'c',
        "last_writer_wins"@.len() == 16,
        "last_writer_wins"@[0] == 'l',
        "revision_history"@.len() == 16,
        "revision_history"@[0] == 'r',
        "ephemeral"@.len() == 9,
        "ephemeral"@[0] == 'e',
        "composite"@.len() == 9,
        "composite"@[0] == 'c',
        "entries"@.len() == 7,
        "entries"@[0] == 'e',
        "ready"@.len() == 5,
        "ready"@[0] == 'r',
        "done"@.len() == 4,
        "done"@[0] == 'd',
        "failed"@.len() == 6,
        "failed"@[0] == 'f',
        "warming"@.len() == 7,
        "warming"@[0] == 'w',
        "thinking"@.len() == 8,
        "thinking"@[0] == 't',
        "awaiting"@.len() == 8,
        "awaiting"@[0] == 'a',
{
    reveal_strlit("by");
    reveal_strlit("by_id");
    reveal_strlit("text");
    reveal_strlit("origin");
    reveal_strlit("ok");
    reveal_strlit("busy");
    reveal_strlit("");
    reveal_strlit("interrupted");
    reveal_strlit("idle");
    reveal_strlit("error");
    reveal_strlit("result");
    reveal_strlit("joined");
    reveal_strlit("id");
    reveal_strlit("name");
    reveal_strlit("hue");
    reveal_strlit("principal");
    reveal_strlit("invitable");
    reveal_strlit("token");
    reveal_strlit("backing");
    reveal_strlit("body");
    reveal_strlit("chrome");
    reveal_strlit("crdt");
    reveal_strlit("last_writer_wins");
    reveal_strlit("revision_history");
    reveal_strlit("ephemeral");
    reveal_strlit("composite");
    reveal_strlit("entries");
    reveal_strlit("ready");
    reveal_strlit("done");
    reveal_strlit("failed");
    reveal_strlit("warming");
    reveal_strlit("thinking");
    reveal_strlit("awaiting");
}

/// Whatever is indicated or was pointed at, what the model is asked ends with the
/// question. It is the question alone where nothing is indicated and nothing was
/// pointed at in the last thirty seconds; what is indicated comes before what was
/// pointed at, and the text in front names it.
pub proof fn law_the_question_reaches_the_model(
    question: Seq<char>,
    indicated: Option<IndicatedView>,
    pointed: Option<(Seq<char>, u128)>,
)
    ensures
        ({
            let text = model_question(question, indicated, pointed);
            let lately = pointed is Some && (pointed->0).1 <= 30_000_000_000u128;
            &&& question.is_suffix_of(text)
            &&& indicated is None && !lately ==> text == question
            &&& indicated is Some || lately ==> text.len() > question.len()
            &&& indicated matches Some(target) ==> {
                &&& mentions(text, target.extension_id + ":"@ + target.target_id)
                &&& mentions(text, target.description)
                &&& text == model_question(question, indicated, None)
            }
            &&& indicated is None && lately ==> mentions(text, (pointed->0).0)
        }),
{
    let text = model_question(question, indicated, pointed);
    assert(text.subrange(text.len() - question.len(), text.len() as int) =~= question);
    reveal_strlit("[Semantic attention context: the human is indicating ");
    reveal_strlit("[Pointing context: the learner is indicating ");
    assert("[Semantic attention context: the human is indicating "@.len() > 0);
    assert("[Pointing context: the learner is indicating "@.len() > 0);
    if let Some(target) = indicated {
        let head = "[Semantic attention context: the human is indicating "@;
        let named = target.extension_id + ":"@ + target.target_id;
        let rest = ". When they say \"this\", \"that\", \"here\", or \"it\", they mean this semantic target. Attention is context only, never authority or permission.]\n\n"@
            + question;
        assert(text =~= head + named + (": "@ + target.description + rest));
        lemma_mentions(text, head, named, ": "@ + target.description + rest);
        assert(text =~= (head + named + ": "@) + target.description + rest);
        lemma_mentions(text, head + named + ": "@, target.description, rest);
    } else if let Some((phrase, elapsed)) = pointed {
        if elapsed <= 30_000_000_000 {
            let head = "[Pointing context: the learner is indicating "@;
            let rest = ". When they say \"this\", \"that\", \"here\", or \"it\", they mean THIS object. Answer about it directly; don't ask which one they mean.]\n\n"@
                + question;
            assert(text =~= head + phrase + rest);
            lemma_mentions(text, head, phrase, rest);
        }
    }
}

/// A question of at most eight hundred characters that says something begins a
/// turn exactly where the assistant is up and no other turn runs: the clients
/// are shown who asked and what, and the model is asked it, whatever else is in
/// the request.
pub proof fn law_a_question_begins_a_turn(
    body: JsonView,
    asker: Option<PersonView>,
    ready: bool,
    busy: bool,
    indicated: Option<IndicatedView>,
    pointed: Option<(Seq<char>, u128)>,
    asked: Seq<char>,
)
    requires
        body.text_member("question"@) == Some(asked),
        !blank(asked),
        trimmed(asked).len() <= 800,
    ensures
        ({
            let step = ask_step(body, asker, ready, busy, indicated, pointed);
            &&& step is Begin <==> ready && !busy
            &&& step matches AskView::Begin { by, question, shown, for_model } ==> {
                &&& question == trimmed(asked)
                &&& trimmed(asked).is_suffix_of(for_model)
                &&& for_model == model_question(trimmed(asked), indicated, pointed)
                &&& shown matches EventView::Custom { name, value } && {
                    &&& name == "surface.ask"@
                    &&& value.text_member("text"@) == Some(trimmed(asked))
                    &&& value.text_member("by"@) == Some(by)
                    &&& value.text_member("by_id"@) == (match asker {
                        Some(person) => Some(person.participant_id),
                        None => None,
                    })
                    &&& body.text_member("origin"@) matches Some(origin) ==> value.text_member(
                        "origin"@,
                    ) == Some(origin)
                }
                &&& asker matches Some(person) ==> by == person.name
                &&& asker is None ==> by == (match body.text_member("by"@) {
                    Some(name) if !blank(name) => trimmed(name),
                    _ => "you"@,
                })
            }
        }),
{
    broadcast use group_reading;

    lemma_names();
    law_the_question_reaches_the_model(trimmed(asked), indicated, pointed);
}

/// A question that says nothing, or more than eight hundred characters, is
/// answered and begins no turn; so is one that comes too early or while another
/// turn runs, and then the answer says which.
pub proof fn law_a_question_that_cannot_be_asked_is_answered(
    body: JsonView,
    asker: Option<PersonView>,
    ready: bool,
    busy: bool,
    indicated: Option<IndicatedView>,
    pointed: Option<(Seq<char>, u128)>,
)
    ensures
        ({
            let step = ask_step(body, asker, ready, busy, indicated, pointed);
            let asked = body.text_member("question"@);
            let empty = match asked {
                Some(text) => blank(text),
                None => true,
            };
            let long = match asked {
                Some(text) => trimmed(text).len() > 800,
                None => false,
            };
            &&& empty ==> step == AskView::Answer(error_reply(200, "empty question"@))
            &&& long ==> step == AskView::Answer(error_reply(200, "question too long"@))
            &&& !empty && !long && !ready ==> step == AskView::Answer(
                error_reply(200, "tutor still warming up"@),
            )
            &&& !empty && !long && ready && busy ==> (step matches AskView::Answer(reply)
                && reply.status == 200 && reply.body.truth_member("ok"@) == Some(false)
                && reply.body.truth_member("busy"@) == Some(true))
        }),
{
    broadcast use group_reading;

    lemma_names();
    crate::text::lemma_blank(""@);
}

/// A mission is shown with its text.
pub proof fn law_a_mission_is_shown_with_its_text(text: Seq<char>)
    ensures
        mission_event(text) matches EventView::Custom { name, value } && name
            == "surface.mission"@ && value.text_member("text"@) == Some(text),
{
    broadcast use group_reading;

}

/// A turn is refused exactly where the assistant is not up or another turn runs.
pub proof fn law_a_turn_is_refused_only_for_cause(ready: bool, busy: bool)
    ensures
        turn_refusal(ready, busy) is None <==> ready && !busy,
{
}

/// An interrupt is answered as idle where nothing runs, as refused where no turn
/// took it, and otherwise by what became of the provider; it is `ok` exactly
/// where the assistant is idle afterwards, and `interrupted` exactly where a
/// turn took it.
pub proof fn law_an_interrupt_is_answered_by_what_became_of_it(
    busy: bool,
    woke: nat,
    settled: bool,
    ready: bool,
)
    ensures
        ({
            let reply = interrupt_answer(busy, woke, settled, ready);
            let idle = !busy || (woke > 0 && settled && ready);
            &&& reply.body.truth_member("ok"@) == Some(idle)
            &&& reply.body.truth_member("interrupted"@) == Some(busy && woke > 0)
            &&& reply.body.truth_member("idle"@) == (if idle {
                Some(true)
            } else {
                None
            })
            &&& reply.body.text_member("error"@) is Some <==> !idle
            &&& reply.status == 200 <==> idle
            &&& busy && woke == 0 ==> reply.status == 503
            &&& busy && woke > 0 && !settled ==> reply.status == 504
            &&& busy && woke > 0 && settled && !ready ==> reply.status == 502
        }),
{
    broadcast use group_reading;

    lemma_names();
}

/// A posted action with a name runs under that name with the arguments of the
/// request, `null` where it gives none, exactly where its caller is somebody;
/// for nobody it is refused, and that goes on record with the action's name.
pub proof fn law_a_posted_action_runs_as_it_was_posted(
    body: JsonView,
    established: Caller,
    run: Option<Seq<char>>,
    name: Seq<char>,
)
    requires
        body.text_member("name"@) == Some(name),
        name.len() > 0,
    ensures
        ({
            let caller = narrowed_caller(established, body.member("as"@));
            match tool_request_step(body, established, run) {
                ToolRequestView::Dispatch { caller: by, name: named, arguments } => {
                    &&& caller != Caller::Unknown
                    &&& by == caller
                    &&& named == name
                    &&& arguments == under(body, "args"@)
                },
                ToolRequestView::Unidentified { reply, records } => {
                    &&& caller == Caller::Unknown
                    &&& reply.status == 403
                    &&& reply.body.truth_member("ok"@) == Some(false)
                    &&& reply.body.text_member("result"@) is Some
                    &&& records.len() == 2
                    &&& records[0] matches RecordView::Action { by, action, outcome, run: at, .. }
                        && by == Caller::Unknown && action == name && outcome
                        == ActivityOutcome::Failed && at == run
                },
                ToolRequestView::Answer(_) => false,
            }
        }),
{
    broadcast use group_reading;

    lemma_names();
}

/// A posted action without a name runs nothing.
pub proof fn law_a_nameless_action_runs_nothing(
    body: JsonView,
    established: Caller,
    run: Option<Seq<char>>,
)
    requires
        body.text_member("name"@) matches Some(name) ==> name.len() == 0,
    ensures
        tool_request_step(body, established, run) == ToolRequestView::Answer(
            error_reply(200, "missing tool name"@),
        ),
{
    lemma_names();
}

/// What an action writes carries a person's name, id and colour exactly where
/// the caller is the person and the person is known; everybody else writes under
/// their role alone.
pub proof fn law_only_a_person_writes_as_a_person(caller: Caller, person: Option<PersonView>)
    ensures
        ({
            let actor = writing_actor(caller, person);
            &&& actor.caller == caller
            &&& actor.label is Some <==> caller is Human && person is Some
            &&& actor.participant_id is Some <==> caller is Human && person is Some
            &&& caller is Human && person is Some ==> actor.label == Some((person->0).name)
                && actor.participant_id == Some((person->0).participant_id) && actor.hue == Some(
                (person->0).hue,
            ) && actor.responsible == Some((person->0).principal_key)
            &&& !(caller is Human && person is Some) ==> actor.hue is None
                && actor.responsible is None
        }),
{
}

/// The answer after an action ran carries what the action said, and its status
/// says whether it succeeded.
pub proof fn law_an_action_is_answered_with_what_it_said(result: Seq<char>, ok: bool)
    ensures
        ran_reply(result, ok).body.text_member("result"@) == Some(result),
        ran_reply(result, ok).body.truth_member("ok"@) == Some(ok),
        ran_reply(result, ok).status == 200 <==> ok,
        !ok ==> ran_reply(result, ok).status == 422,
{
    broadcast use group_reading;

    lemma_names();
}

/// A pointing event is resolved under its own name and id, both trimmed, exactly
/// where it has both; otherwise it is told which is missing.
pub proof fn law_a_pointing_event_needs_a_name_and_an_id(body: JsonView)
    ensures
        ({
            let named = body.text_member("name"@);
            let id = under(body, "value"@).text_member("id"@);
            let has_name = named is Some && !blank(named->0);
            let has_id = id is Some && !blank(id->0);
            &&& has_name && has_id ==> point_step(body) == (PointView::Resolve {
                name: trimmed(named->0),
                id: trimmed(id->0),
            })
            &&& !has_name ==> point_step(body) == PointView::Answer(
                error_reply(400, "missing semantic event name"@),
            )
            &&& has_name && !has_id ==> point_step(body) == PointView::Answer(
                error_reply(400, "missing semantic focus id"@),
            )
        }),
{
}

/// A pointing event is accepted exactly where what it points at was found; a
/// failure is passed on in its own words.
pub proof fn law_pointing_is_accepted_where_it_finds_something(
    name: Seq<char>,
    id: Seq<char>,
    resolution: Resolution,
)
    ensures
        ({
            let reply = pointing_reply(name, id, resolution);
            &&& reply.status == 200 <==> resolution is Found
            &&& reply.body.truth_member("ok"@) == Some(resolution is Found)
            &&& resolution is Unknown ==> reply.status == 422
            &&& resolution matches Resolution::Failed(message) ==> reply.status == 503
                && reply.body.text_member("error"@) == Some(message@)
        }),
{
    broadcast use group_reading;

    lemma_names();
}

/// Who asks to join under a name gets that name proposed, trimmed: a known
/// person is renamed, and somebody new is admitted. Without a name a known
/// person stays as they are, and somebody new is admitted all the same.
pub proof fn law_joining_proposes_the_name_that_was_given(body: JsonView, known: bool)
    ensures
        ({
            let named = body.text_member("name"@);
            let given = named is Some && !blank(named->0);
            &&& given && known ==> join_step(Some(body), known) == (JoinView::Rename {
                proposed: trimmed(named->0),
            })
            &&& given && !known ==> join_step(Some(body), known) == (JoinView::Admit {
                proposed: trimmed(named->0),
            })
            &&& !given && known ==> join_step(Some(body), known) is Welcome
            &&& !given && !known ==> join_step(Some(body), known) == (JoinView::Admit {
                proposed: "someone"@,
            })
        }),
        known ==> join_step(None, known) is Welcome,
        !known ==> join_step(None, known) == (JoinView::Admit { proposed: "someone"@ }),
{
}

/// A person is told who they are in the room; a stranger is told that they have
/// not joined.
pub proof fn law_a_person_is_told_who_they_are(person: PersonView, invitable: bool)
    ensures
        ({
            let told = person_value(person, invitable);
            &&& told.truth_member("ok"@) == Some(true)
            &&& told.truth_member("joined"@) == Some(true)
            &&& told.text_member("id"@) == Some(person.participant_id)
            &&& told.text_member("name"@) == Some(person.name)
            &&& told.member("hue"@) == Some(JsonView::Number(decimal(person.hue as nat)))
            &&& told.text_member("principal"@) == Some(person.principal_key)
            &&& told.truth_member("invitable"@) == Some(invitable)
            &&& told.member("token"@) is None
            &&& stranger_value().truth_member("joined"@) == Some(false)
            &&& stranger_value().truth_member("ok"@) == Some(true)
            &&& stranger_value().member("id"@) is None
        }),
{
    broadcast use group_reading;

    lemma_names();
}

/// The state that a client starts from says how it is kept, and carries the body
/// and the chrome as they are.
pub proof fn law_a_state_is_carried_as_it_is(
    backing: StateBacking,
    other: StateBacking,
    body: JsonView,
    chrome: Option<JsonView>,
)
    ensures
        state_value(backing, body, chrome).member("body"@) == Some(body),
        under(state_value(backing, body, chrome), "chrome"@) == (match chrome {
            Some(value) => value,
            None => JsonView::Null,
        }),
        state_value(backing, body, chrome).text_member("backing"@) == (match backing {
            StateBacking::Crdt => Some("crdt"@),
            StateBacking::LastWriterWins => Some("last_writer_wins"@),
            StateBacking::RevisionHistory => Some("revision_history"@),
            StateBacking::Ephemeral => Some("ephemeral"@),
            StateBacking::Composite => Some("composite"@),
        }),
        backing.word() == other.word() ==> backing == other,
{
    broadcast use group_reading;

    lemma_names();
}

/// The transcript that a client is sent holds every line in order, with who said
/// it and what.
pub proof fn law_a_transcript_is_sent_in_full(lines: Seq<LineView>)
    ensures
        lists_under(history_value(lines), "entries"@, lines.len()),
        forall|k: int|
            0 <= k < lines.len() ==> {
                let told = #[trigger] item_under(history_value(lines), "entries"@, k);
                &&& told.text_member("by"@) == Some(lines[k].by)
                &&& told.text_member("text"@) == Some(lines[k].text)
            },
{
    broadcast use group_reading;

    lemma_names();
}

/// A client that connects is sent everything that it has missed, in order: how
/// the assistant is, the state, that the assistant waits where it does, the
/// surface's own events, every waiting decision, the transcript where there is
/// one, and what is streaming.
pub proof fn law_a_connecting_client_misses_nothing(
    tutor: JsonView,
    snapshot: EventView,
    awaiting: bool,
    chrome: Seq<EventView>,
    pending: Seq<EventView>,
    history: Seq<LineView>,
    active: Seq<EventView>,
)
    ensures
        ({
            let events = replay(tutor, snapshot, awaiting, chrome, pending, history, active);
            let waits: int = if awaiting {
                1
            } else {
                0
            };
            let lines: int = if history.len() > 0 {
                1
            } else {
                0
            };
            let first = 2 + waits;
            let second = first + chrome.len();
            let third = second + pending.len();
            &&& events.len() == third + lines + active.len()
            &&& events[0] == (EventView::Custom { name: "surface.tutor"@, value: tutor })
            &&& events[1] == snapshot
            &&& awaiting ==> (events[2] matches EventView::Custom { name, value } && name
                == "surface.tutor"@ && value.text_member("state"@) == Some("awaiting"@))
            &&& events.subrange(first, second) == chrome
            &&& events.subrange(second, third) == pending
            &&& history.len() > 0 ==> events[third] == (EventView::Custom {
                name: "surface.history"@,
                value: history_value(history),
            })
            &&& events.skip(third + lines) == active
        }),
{
    broadcast use group_reading;

    let events = replay(tutor, snapshot, awaiting, chrome, pending, history, active);
    let waits: int = if awaiting {
        1
    } else {
        0
    };
    let lines: int = if history.len() > 0 {
        1
    } else {
        0
    };
    let first = 2 + waits;
    let second = first + chrome.len();
    let third = second + pending.len();
    assert(events.subrange(first, second) =~= chrome);
    assert(events.subrange(second, third) =~= pending);
    assert(events.skip(third + lines) =~= active);
}

/// A surface without a binary transport is told apart from one whose transport
/// is down.
pub proof fn law_a_missing_transport_is_no_failure(error: Seq<char>)
    ensures
        transport_status(error) == 501 <==> error
            == "binary websocket transport is not implemented for this surface"@,
        transport_status(error) == 501 || transport_status(error) == 503,
{
}

/// What goes on record when the lifecycle moves on says the word, the run and
/// what it was about; a provider that got ready is named, and a failure is on
/// record as one.
pub proof fn law_the_lifecycle_is_on_record(
    word: Seq<char>,
    question: Option<Seq<char>>,
    run: Option<Seq<char>>,
    provider: Seq<char>,
)
    ensures
        ({
            let records = lifecycle_records(word, question, run, provider);
            &&& records.len() >= 1
            &&& records[0] matches RecordView::Lifecycle { name, outcome, run: at, detail } && {
                &&& word.is_suffix_of(name)
                &&& at == run
                &&& detail == question
                &&& word == "failed"@ <==> outcome == ActivityOutcome::Failed
                &&& word == "ready"@ || word == "done"@ <==> outcome
                    == ActivityOutcome::Succeeded
                &&& word == "warming"@ || word == "thinking"@ || word == "awaiting"@
                    <==> outcome == ActivityOutcome::Started
            }
            &&& word == "ready"@ ==> records.len() == 2 && (
            records[1] matches RecordView::Provider { outcome, run: at, provider: named, .. }
                && outcome == ActivityOutcome::Succeeded && at == run && named == provider)
            &&& word == "failed"@ ==> records.len() == 2 && (
            records[1] matches RecordView::Failure { run: at, error, .. } && at == run && (
            question matches Some(why) ==> error == why))
            &&& word != "ready"@ && word != "failed"@ ==> records.len() == 1
        }),
{
    lemma_names();
    let name = "lifecycle."@ + word;
    assert(name.subrange(name.len() - word.len(), name.len() as int) =~= word);
}

/// An action that nobody known posted runs nothing: it is refused, and on record
/// are the action that was asked for and a failure that says what the answer
/// says.
pub proof fn law_a_strangers_action_is_refused_and_on_record(
    body: JsonView,
    established: Caller,
    run: Option<Seq<char>>,
    name: Seq<char>,
)
    requires
        body.text_member("name"@) == Some(name),
        name.len() > 0,
        narrowed_caller(established, body.member("as"@)) is Unknown,
    ensures
        tool_request_step(body, established, run) matches ToolRequestView::Unidentified {
            reply,
            records,
        } && {
            &&& reply.status == 403
            &&& reply.body.truth_member("ok"@) == Some(false)
            &&& records.len() == 2
            &&& records[0] matches RecordView::Action { by, action, run: at, detail, .. } && by
                is Unknown && action == name && at == run && detail == reply.body.text_member(
                "result"@,
            )
            &&& records[1] matches RecordView::Failure { caller, run: at, error, .. } && caller
                == Some(Caller::Unknown) && at == run && reply.body.text_member("result"@) == Some(
                error,
            )
        },
{
    broadcast use group_reading;

    reveal_strlit("ok");
    reveal_strlit("result");
    assert("ok"@.len() != "result"@.len());
}

/// A pointing event finds what the surface's state says of its id where the
/// surface takes the event as pointing, and finds nothing where it does not,
/// whatever the state would say.
pub proof fn law_only_pointing_events_point(
    focus_events: Seq<Seq<char>>,
    event: Seq<char>,
    answer: Result<Option<String>, String>,
)
    ensures
        !focus_events.contains(event) ==> focus_answer(focus_events, event, answer) is Unknown,
        focus_events.contains(event) ==> match focus_answer(focus_events, event, answer) {
            Resolution::Found(phrase) => answer == Ok::<Option<String>, String>(Some(phrase)),
            Resolution::Unknown => answer == Ok::<Option<String>, String>(None),
            Resolution::Failed(error) => answer == Err::<Option<String>, String>(error),
        },
{
}

} // verus!
