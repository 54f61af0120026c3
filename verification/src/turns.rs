//! What the person's requests lead to: a question, a mission, an interrupt, an
//! action, a pointed-at object, joining the room, and reconnecting.

use vstd::prelude::*;

use crate::activity::{record_views, refused_stranger, stranger_records, Record, RecordView};
use crate::caller::{narrow_action_route_caller, narrowed_caller, Actor, ActorView, Caller, Person};
use crate::decisions::{error_reply, reply_error};
use crate::events::{custom, event_views, Event, EventView};
use crate::gate::{action_route_caller, caller_of, Headers};
use crate::json::{
    empty_object, json_bool, json_items, json_null, json_number, json_text, lemma_array_view,
    object, text_or, Json, JsonView,
};
use crate::mcp::{member_of, nonblank, or_null};
use crate::narration::{line_views, Line, LineView};
use crate::routes::{
    goes_out, refusal_body, refusal_json, surface_route_response, Reply, ReplyView, RouteResponse,
    WireResponse,
};
use crate::text::{
    concat2, concat3, concat4, concat5, debug_quote, debug_text, decimal, opt_str, same, texts,
    to_decimal, trim, trimmed,
};

verus! {

/// An answer that succeeded at HTTP's level and carries an error.
pub open spec fn soft_error(message: Seq<char>) -> ReplyView {
    error_reply(200, message)
}

/// `{"ok": true}`.
pub open spec fn ok_reply() -> ReplyView {
    ReplyView { status: 200, body: empty_object().with("ok"@, JsonView::Bool(true)) }
}

/// `{"ok": true}`.
pub fn reply_ok() -> (reply: Reply)
    ensures
        reply@ == ok_reply(),
{
    Reply { status: 200, body: object().with("ok", json_bool(true)) }
}

// Turns.

/// What keeps a turn from being accepted.
pub open spec fn turn_refusal(ready: bool, busy: bool) -> Option<ReplyView> {
    if !ready {
        Some(soft_error("tutor still warming up"@))
    } else if busy {
        Some(
            ReplyView {
                status: 200,
                body: empty_object().with("ok"@, JsonView::Bool(false)).with(
                    "busy"@,
                    JsonView::Bool(true),
                ),
            },
        )
    } else {
        None
    }
}

pub open spec fn opt_reply(reply: Option<Reply>) -> Option<ReplyView> {
    match reply {
        Some(reply) => Some(reply@),
        None => None,
    }
}

/// What keeps a turn from being accepted: the assistant is not up, or another
/// turn runs.
pub fn refuse_turn(ready: bool, busy: bool) -> (reply: Option<Reply>)
    ensures
        opt_reply(reply) == turn_refusal(ready, busy),
{
    if !ready {
        Some(reply_error(200, "tutor still warming up"))
    } else if busy {
        Some(
            Reply {
                status: 200,
                body: object().with("ok", json_bool(false)).with("busy", json_bool(true)),
            },
        )
    } else {
        None
    }
}

/// What the person is indicating on a surface with named targets.
#[derive(Debug, PartialEq, Eq)]
pub struct Indicated {
    pub extension_id: String,
    pub target_id: String,
    pub description: String,
}

/// What the person is indicating, in contracts.
pub struct IndicatedView {
    pub extension_id: Seq<char>,
    pub target_id: Seq<char>,
    pub description: Seq<char>,
}

pub open spec fn opt_indicated(indicated: Option<Indicated>) -> Option<IndicatedView> {
    match indicated {
        Some(indicated) => Some(
            IndicatedView {
                extension_id: indicated.extension_id@,
                target_id: indicated.target_id@,
                description: indicated.description@,
            },
        ),
        None => None,
    }
}

/// An object that the person pointed at, and how many nanoseconds ago.
#[derive(Debug, PartialEq, Eq)]
pub struct Pointed {
    pub phrase: String,
    pub elapsed_nanos: u128,
}

pub open spec fn opt_pointed(pointed: Option<Pointed>) -> Option<(Seq<char>, u128)> {
    match pointed {
        Some(pointed) => Some((pointed.phrase@, pointed.elapsed_nanos)),
        None => None,
    }
}

/// What the model is asked: the question, behind what the person indicates, or
/// behind what they pointed at in the last thirty seconds.
pub open spec fn model_question(
    question: Seq<char>,
    indicated: Option<IndicatedView>,
    pointed: Option<(Seq<char>, u128)>,
) -> Seq<char> {
    match indicated {
        Some(target) => "[Semantic attention context: the human is indicating "@
            + target.extension_id + ":"@ + target.target_id + ": "@ + (target.description
            + ". When they say \"this\", \"that\", \"here\", or \"it\", they mean this semantic target. Attention is context only, never authority or permission.]\n\n"@
            + question),
        None => match pointed {
            Some((phrase, elapsed)) => if elapsed <= 30_000_000_000 {
                "[Pointing context: the learner is indicating "@ + phrase
                    + ". When they say \"this\", \"that\", \"here\", or \"it\", they mean THIS object. Answer about it directly; don't ask which one they mean.]\n\n"@
                    + question
            } else {
                question
            },
            None => question,
        },
    }
}

fn question_for_model(
    question: &str,
    indicated: &Option<Indicated>,
    pointed: &Option<Pointed>,
) -> (text: String)
    ensures
        text@ == model_question(question@, opt_indicated(*indicated), opt_pointed(*pointed)),
{
    match indicated {
        Some(target) => {
            let tail: String = concat3(
                &target.description,
                ". When they say \"this\", \"that\", \"here\", or \"it\", they mean this semantic target. Attention is context only, never authority or permission.]\n\n",
                question,
            );
            let head: String = concat5(
                "[Semantic attention context: the human is indicating ",
                &target.extension_id,
                ":",
                &target.target_id,
                ": ",
            );
            concat2(&head, &tail)
        },
        None => match pointed {
            Some(pointed) => if pointed.elapsed_nanos <= 30_000_000_000 {
                concat4(
                    "[Pointing context: the learner is indicating ",
                    &pointed.phrase,
                    ". When they say \"this\", \"that\", \"here\", or \"it\", they mean THIS object. Answer about it directly; don't ask which one they mean.]\n\n",
                    question,
                )
            } else {
                question.to_owned()
            },
            None => question.to_owned(),
        },
    }
}

/// What a question leads to.
#[derive(Debug, PartialEq)]
pub enum AskStep {
    Answer(Reply),
    /// Begin a turn: who asked what, what the clients are shown, and what the
    /// model is asked.
    Begin { by: String, question: String, shown: Event, for_model: String },
}

/// A question's step in contracts.
pub enum AskView {
    Answer(ReplyView),
    Begin {
        by: Seq<char>,
        question: Seq<char>,
        shown: EventView,
        for_model: Seq<char>,
    },
}

impl View for AskStep {
    type V = AskView;

    open spec fn view(&self) -> AskView {
        match self {
            AskStep::Answer(reply) => AskView::Answer(reply@),
            AskStep::Begin { by, question, shown, for_model } => AskView::Begin {
                by: by@,
                question: question@,
                shown: shown@,
                for_model: for_model@,
            },
        }
    }
}

/// A person in contracts.
pub struct PersonView {
    pub participant_id: Seq<char>,
    pub name: Seq<char>,
    pub hue: u16,
    pub principal_key: Seq<char>,
}

impl View for Person {
    type V = PersonView;

    open spec fn view(&self) -> PersonView {
        PersonView {
            participant_id: self.participant_id@,
            name: self.name@,
            hue: self.hue,
            principal_key: self.principal_key@,
        }
    }
}

pub open spec fn opt_person(person: Option<&Person>) -> Option<PersonView> {
    match person {
        Some(person) => Some(person@),
        None => None,
    }
}

/// Whose question it is: the person whom the host admitted, whatever the
/// request says, and otherwise whom the request names.
pub open spec fn asker_name(asker: Option<PersonView>, body: JsonView) -> Seq<char> {
    match asker {
        Some(person) => person.name,
        None => text_or(nonblank(body.text_member("by"@)), "you"@),
    }
}

/// What the clients are shown of a question.
pub open spec fn ask_event(
    asker: Option<PersonView>,
    body: JsonView,
    question: Seq<char>,
) -> EventView {
    EventView::Custom {
        name: "surface.ask"@,
        value: empty_object().with("by"@, JsonView::Text(asker_name(asker, body))).with(
            "by_id"@,
            match asker {
                Some(person) => JsonView::Text(person.participant_id),
                None => JsonView::Null,
            },
        ).with("text"@, JsonView::Text(question)).with(
            "origin"@,
            JsonView::Text(text_or(body.text_member("origin"@), ""@)),
        ),
    }
}

/// What a question leads to: it has to say something, in eight hundred
/// characters at most, to an assistant that is up and has no other turn.
pub open spec fn ask_step(
    body: JsonView,
    asker: Option<PersonView>,
    ready: bool,
    busy: bool,
    indicated: Option<IndicatedView>,
    pointed: Option<(Seq<char>, u128)>,
) -> AskView {
    let question = trimmed(text_or(body.text_member("question"@), ""@));
    if question.len() == 0 {
        AskView::Answer(soft_error("empty question"@))
    } else if question.len() > 800 {
        AskView::Answer(soft_error("question too long"@))
    } else {
        match turn_refusal(ready, busy) {
            Some(reply) => AskView::Answer(reply),
            None => AskView::Begin {
                by: asker_name(asker, body),
                question,
                shown: ask_event(asker, body, question),
                for_model: model_question(question, indicated, pointed),
            },
        }
    }
}

/// Decides a question.
pub fn ask_request(
    body: &Json,
    asker: Option<&Person>,
    ready: bool,
    busy: bool,
    indicated: &Option<Indicated>,
    pointed: &Option<Pointed>,
) -> (step: AskStep)
    ensures
        step@ == ask_step(
            body@,
            opt_person(asker),
            ready,
            busy,
            opt_indicated(*indicated),
            opt_pointed(*pointed),
        ),
{
    let question: &str = trim(body.str_member_or("question", ""));
    if question.is_empty() {
        return AskStep::Answer(reply_error(200, "empty question"));
    }
    if question.unicode_len() > 800 {
        return AskStep::Answer(reply_error(200, "question too long"));
    }
    match refuse_turn(ready, busy) {
        Some(reply) => {
            return AskStep::Answer(reply);
        },
        None => {},
    }
    let by: String = match asker {
        Some(person) => person.name.clone(),
        None => match body.str_member("by") {
            Some(by) => {
                let by: &str = trim(by);
                if by.is_empty() {
                    "you".to_owned()
                } else {
                    by.to_owned()
                }
            },
            None => "you".to_owned(),
        },
    };
    let by_id: Json = match asker {
        Some(person) => json_text(&person.participant_id),
        None => json_null(),
    };
    let shown: Event = custom(
        "surface.ask",
        object().with("by", json_text(&by)).with("by_id", by_id).with(
            "text",
            json_text(question),
        ).with("origin", json_text(body.str_member_or("origin", ""))),
    );
    AskStep::Begin {
        by,
        question: question.to_owned(),
        shown,
        for_model: question_for_model(question, indicated, pointed),
    }
}

/// The answer to a turn that no provider could take.
pub fn unavailable_reply() -> (reply: Reply)
    ensures
        reply@ == soft_error("tutor unavailable"@),
{
    reply_error(200, "tutor unavailable")
}

/// What a mission leads to once the surface has answered it.
#[derive(Debug, PartialEq)]
pub enum MissionStep {
    /// The surface did not accept it; its own answer goes out.
    Answer(WireResponse),
    /// A turn begins with this text, which the clients are shown.
    Begin { text: String, shown: Event },
}

/// What the clients are shown of a mission.
pub open spec fn mission_event(text: Seq<char>) -> EventView {
    EventView::Custom {
        name: "surface.mission"@,
        value: empty_object().with("text"@, JsonView::Text(text)),
    }
}

/// Decides a mission by the surface's own answer: any but status 200 goes out as
/// it is, and no turn begins.
pub fn mission_turn(response: RouteResponse, body: &Json) -> (step: MissionStep)
    ensures
        match step {
            MissionStep::Answer(wire) => response.status != 200 && goes_out(response, wire),
            MissionStep::Begin { text, shown } => {
                &&& response.status == 200
                &&& text@ == trimmed(text_or(body@.text_member("text"@), ""@))
                &&& shown@ == mission_event(text@)
            },
        },
{
    if response.status != 200 {
        return MissionStep::Answer(surface_route_response(response));
    }
    let text: &str = trim(body.str_member_or("text", ""));
    MissionStep::Begin {
        text: text.to_owned(),
        shown: custom("surface.mission", object().with("text", json_text(text))),
    }
}

/// A question from a person whom the host admitted carries that person's name,
/// whatever name the request gives itself.
pub proof fn law_an_admitted_person_asks_under_their_own_name(
    body: JsonView,
    person: PersonView,
    ready: bool,
    busy: bool,
    indicated: Option<IndicatedView>,
    pointed: Option<(Seq<char>, u128)>,
)
    ensures
        ask_step(body, Some(person), ready, busy, indicated, pointed) matches AskView::Begin {
            by,
            ..
        } ==> by == person.name,
{
}

/// No question is accepted while another turn runs, or before the assistant is
/// up.
pub proof fn law_turns_never_overlap(
    body: JsonView,
    asker: Option<PersonView>,
    ready: bool,
    busy: bool,
    indicated: Option<IndicatedView>,
    pointed: Option<(Seq<char>, u128)>,
)
    requires
        busy || !ready,
    ensures
        ask_step(body, asker, ready, busy, indicated, pointed) is Answer,
{
}

// Interrupting.

/// The answer to an interrupt: `woke` turns took the signal, and the provider
/// settled or not in time.
pub open spec fn interrupt_answer(busy: bool, woke: nat, settled: bool, ready: bool) -> ReplyView {
    if !busy {
        ReplyView {
            status: 200,
            body: empty_object().with("ok"@, JsonView::Bool(true)).with(
                "interrupted"@,
                JsonView::Bool(false),
            ).with("idle"@, JsonView::Bool(true)),
        }
    } else if woke == 0 {
        ReplyView {
            status: 503,
            body: empty_object().with("ok"@, JsonView::Bool(false)).with(
                "interrupted"@,
                JsonView::Bool(false),
            ).with("error"@, JsonView::Text("no active provider turn accepted the interrupt"@)),
        }
    } else if !settled {
        ReplyView {
            status: 504,
            body: empty_object().with("ok"@, JsonView::Bool(false)).with(
                "interrupted"@,
                JsonView::Bool(true),
            ).with("error"@, JsonView::Text("provider did not acknowledge interrupt"@)),
        }
    } else if !ready {
        ReplyView {
            status: 502,
            body: empty_object().with("ok"@, JsonView::Bool(false)).with(
                "interrupted"@,
                JsonView::Bool(true),
            ).with(
                "error"@,
                JsonView::Text("provider session failed while acknowledging interrupt"@),
            ),
        }
    } else {
        ReplyView {
            status: 200,
            body: empty_object().with("ok"@, JsonView::Bool(true)).with(
                "interrupted"@,
                JsonView::Bool(true),
            ).with("idle"@, JsonView::Bool(true)),
        }
    }
}

fn interrupt_body(ok: bool, interrupted: bool, error: &str) -> (body: Json)
    ensures
        body@ == empty_object().with("ok"@, JsonView::Bool(ok)).with(
            "interrupted"@,
            JsonView::Bool(interrupted),
        ).with("error"@, JsonView::Text(error@)),
{
    object().with("ok", json_bool(ok)).with("interrupted", json_bool(interrupted)).with(
        "error",
        json_text(error),
    )
}

fn idle_body(interrupted: bool) -> (body: Json)
    ensures
        body@ == empty_object().with("ok"@, JsonView::Bool(true)).with(
            "interrupted"@,
            JsonView::Bool(interrupted),
        ).with("idle"@, JsonView::Bool(true)),
{
    object().with("ok", json_bool(true)).with("interrupted", json_bool(interrupted)).with(
        "idle",
        json_bool(true),
    )
}

/// The answer to an interrupt, where it is known already: nothing runs, or no
/// turn took the signal.
pub fn interrupt_refused(busy: bool, woke: usize) -> (reply: Option<Reply>)
    ensures
        match reply {
            Some(reply) => (!busy || woke == 0) && forall|settled: bool, ready: bool|
                reply@ == #[trigger] interrupt_answer(busy, woke as nat, settled, ready),
            None => busy && woke > 0,
        },
{
    if !busy {
        Some(Reply { status: 200, body: idle_body(false) })
    } else if woke == 0 {
        Some(
            Reply {
                status: 503,
                body: interrupt_body(
                    false,
                    false,
                    "no active provider turn accepted the interrupt",
                ),
            },
        )
    } else {
        None
    }
}

/// The answer to an interrupt that a turn took.
pub fn interrupt_settled(settled: bool, ready: bool) -> (reply: Reply)
    ensures
        forall|woke: nat|
            woke > 0 ==> reply@ == #[trigger] interrupt_answer(true, woke, settled, ready),
{
    if !settled {
        Reply {
            status: 504,
            body: interrupt_body(false, true, "provider did not acknowledge interrupt"),
        }
    } else if !ready {
        Reply {
            status: 502,
            body: interrupt_body(
                false,
                true,
                "provider session failed while acknowledging interrupt",
            ),
        }
    } else {
        Reply { status: 200, body: idle_body(true) }
    }
}

// Actions.

/// What a posted action leads to.
#[derive(Debug, PartialEq)]
pub enum ToolRequest {
    Answer(Reply),
    /// Answer a caller who is nobody, and put that on record.
    Unidentified { reply: Reply, records: Vec<Record> },
    /// Run the action.
    Dispatch { caller: Caller, name: String, arguments: Json },
}

/// A posted action in contracts.
pub enum ToolRequestView {
    Answer(ReplyView),
    Unidentified { reply: ReplyView, records: Seq<RecordView> },
    Dispatch { caller: Caller, name: Seq<char>, arguments: JsonView },
}

impl View for ToolRequest {
    type V = ToolRequestView;

    open spec fn view(&self) -> ToolRequestView {
        match self {
            ToolRequest::Answer(reply) => ToolRequestView::Answer(reply@),
            ToolRequest::Unidentified { reply, records } => ToolRequestView::Unidentified {
                reply: reply@,
                records: record_views(records@),
            },
            ToolRequest::Dispatch { caller, name, arguments } => ToolRequestView::Dispatch {
                caller: *caller,
                name: name@,
                arguments: arguments@,
            },
        }
    }
}

/// What a posted action leads to: the credentials establish the caller, the
/// body may narrow it, and an unknown caller runs nothing. `run` is the turn that
/// runs.
pub open spec fn tool_request_step(
    body: JsonView,
    established: Caller,
    run: Option<Seq<char>>,
) -> ToolRequestView {
    let name = text_or(body.text_member("name"@), ""@);
    let caller = narrowed_caller(established, body.member("as"@));
    if name.len() == 0 {
        ToolRequestView::Answer(soft_error("missing tool name"@))
    } else if caller is Unknown {
        ToolRequestView::Unidentified {
            reply: ReplyView {
                status: 403,
                body: refusal_body("unrecognized caller identity; no action was dispatched"@),
            },
            records: stranger_records(
                "action.identity_unrecognized"@,
                name,
                run,
                "unrecognized caller identity; no action was dispatched"@,
            ),
        }
    } else {
        ToolRequestView::Dispatch { caller, name, arguments: or_null(body.member("args"@)) }
    }
}

/// Decides a posted action, up to running it.
pub fn tool_request(
    body: &Json,
    headers: &Headers,
    agent_token: &str,
    human_token: &str,
    run: Option<&str>,
) -> (step: ToolRequest)
    ensures
        step@ == tool_request_step(
            body@,
            caller_of(headers@, agent_token@, human_token@),
            opt_str(run),
        ),
{
    let name: &str = body.str_member_or("name", "");
    if name.is_empty() {
        return ToolRequest::Answer(reply_error(200, "missing tool name"));
    }
    let established: Caller = action_route_caller(headers, agent_token, human_token);
    let caller: Caller = narrow_action_route_caller(established, body.get("as"));
    if caller == Caller::Unknown {
        let message: &str = "unrecognized caller identity; no action was dispatched";
        return ToolRequest::Unidentified {
            reply: Reply { status: 403, body: refusal_json(message) },
            records: refused_stranger("action.identity_unrecognized", name, run, message),
        };
    }
    let arguments: Json = match body.get("args") {
        Some(arguments) => arguments.copy(),
        None => json_null(),
    };
    ToolRequest::Dispatch { caller, name: name.to_owned(), arguments }
}

/// Whose name an action's writes carry: a person's only where the caller is the
/// person.
pub open spec fn writing_actor(caller: Caller, person: Option<PersonView>) -> ActorView {
    match (caller, person) {
        (Caller::Human, Some(person)) => ActorView {
            caller,
            label: Some(person.name),
            participant_id: Some(person.participant_id),
            hue: Some(person.hue),
            responsible: Some(person.principal_key),
        },
        _ => ActorView {
            caller,
            label: None,
            participant_id: None,
            hue: None,
            responsible: None,
        },
    }
}

/// Whose name an action's writes carry.
pub fn tool_actor(caller: Caller, person: Option<&Person>) -> (actor: Actor)
    ensures
        actor@ == writing_actor(caller, opt_person(person)),
{
    match person {
        Some(person) => if caller == Caller::Human {
            Actor::person(caller, person)
        } else {
            Actor::anonymous(caller)
        },
        None => Actor::anonymous(caller),
    }
}

/// The answer after an action ran.
pub open spec fn ran_reply(result: Seq<char>, ok: bool) -> ReplyView {
    ReplyView {
        status: if ok {
            200
        } else {
            422
        },
        body: empty_object().with("ok"@, JsonView::Bool(ok)).with(
            "result"@,
            JsonView::Text(result),
        ),
    }
}

/// The answer after an action ran.
pub fn tool_reply(result: &str, ok: bool) -> (reply: Reply)
    ensures
        reply@ == ran_reply(result@, ok),
{
    Reply {
        status: if ok {
            200
        } else {
            422
        },
        body: object().with("ok", json_bool(ok)).with("result", json_text(result)),
    }
}

/// An action that the body of a request asks for as the person runs as the
/// person only where the credentials established the person.
pub proof fn law_a_request_body_never_claims_the_person(
    body: JsonView,
    established: Caller,
    run: Option<Seq<char>>,
)
    ensures
        tool_request_step(body, established, run) matches ToolRequestView::Dispatch {
            caller,
            ..
        } ==> {
            &&& caller is Human ==> established is Human
            &&& !(established is Unknown)
        },
{
}

// Pointing.

/// What a pointing event leads to.
#[derive(Debug, PartialEq)]
pub enum PointStep {
    Answer(Reply),
    /// Ask the surface what this event points at.
    Resolve { name: String, id: String },
}

/// A pointing step in contracts.
pub enum PointView {
    Answer(ReplyView),
    Resolve { name: Seq<char>, id: Seq<char> },
}

impl View for PointStep {
    type V = PointView;

    open spec fn view(&self) -> PointView {
        match self {
            PointStep::Answer(reply) => PointView::Answer(reply@),
            PointStep::Resolve { name, id } => PointView::Resolve { name: name@, id: id@ },
        }
    }
}

/// The id of what a pointing event points at.
pub open spec fn pointed_id(body: JsonView) -> Option<Seq<char>> {
    match member_of(body.member("value"@), "id"@) {
        Some(id) => nonblank(id.text()),
        None => None,
    }
}

/// What a pointing event leads to: it needs a name and an id.
pub open spec fn point_step(body: JsonView) -> PointView {
    match nonblank(body.text_member("name"@)) {
        None => PointView::Answer(error_reply(400, "missing semantic event name"@)),
        Some(name) => match pointed_id(body) {
            None => PointView::Answer(error_reply(400, "missing semantic focus id"@)),
            Some(id) => PointView::Resolve { name, id },
        },
    }
}

/// Decides a pointing event, up to resolving it.
pub fn point_request(body: &Json) -> (step: PointStep)
    ensures
        step@ == point_step(body@),
{
    let name: &str = match body.str_member("name") {
        Some(name) => trim(name),
        None => {
            return PointStep::Answer(reply_error(400, "missing semantic event name"));
        },
    };
    if name.is_empty() {
        return PointStep::Answer(reply_error(400, "missing semantic event name"));
    }
    let id: &str = match body.get("value") {
        Some(value) => match value.get("id") {
            Some(id) => match id.as_str() {
                Some(id) => trim(id),
                None => {
                    return PointStep::Answer(reply_error(400, "missing semantic focus id"));
                },
            },
            None => {
                return PointStep::Answer(reply_error(400, "missing semantic focus id"));
            },
        },
        None => {
            return PointStep::Answer(reply_error(400, "missing semantic focus id"));
        },
    };
    if id.is_empty() {
        return PointStep::Answer(reply_error(400, "missing semantic focus id"));
    }
    PointStep::Resolve { name: name.to_owned(), id: id.to_owned() }
}

/// What the surface made of a pointing event: the phrase for what it points at,
/// nothing, or that it could not tell.
#[derive(Debug, PartialEq, Eq)]
pub enum Resolution {
    Found(String),
    Unknown,
    Failed(String),
}

/// The answer to a pointing event: only a resolved one is accepted.
pub open spec fn pointing_reply(
    name: Seq<char>,
    id: Seq<char>,
    resolution: Resolution,
) -> ReplyView {
    match resolution {
        Resolution::Found(_) => ok_reply(),
        Resolution::Unknown => error_reply(
            422,
            "semantic event "@ + debug_text(name) + " did not resolve focus target "@
                + debug_text(id),
        ),
        Resolution::Failed(message) => error_reply(503, message@),
    }
}

/// The answer to a pointing event.
pub fn point_reply(name: &str, id: &str, resolution: &Resolution) -> (reply: Reply)
    ensures
        reply@ == pointing_reply(name@, id@, *resolution),
{
    match resolution {
        Resolution::Found(_) => reply_ok(),
        Resolution::Unknown => reply_error(
            422,
            &concat4(
                "semantic event ",
                &debug_quote(name),
                " did not resolve focus target ",
                &debug_quote(id),
            ),
        ),
        Resolution::Failed(message) => reply_error(503, message),
    }
}

/// Whether a surface takes an event as pointing at something.
pub fn declares_focus_event(focus_events: &Vec<String>, name: &str) -> (result: bool)
    ensures
        result == texts(focus_events@).contains(name@),
{
    crate::text::list_contains(focus_events, name)
}

/// What a pointing event points at.
pub open spec fn focus_answer(
    focus_events: Seq<Seq<char>>,
    event: Seq<char>,
    answer: Result<Option<String>, String>,
) -> Resolution {
    if focus_events.contains(event) {
        match answer {
            Ok(Some(phrase)) => Resolution::Found(phrase),
            Ok(None) => Resolution::Unknown,
            Err(error) => Resolution::Failed(error),
        }
    } else {
        Resolution::Unknown
    }
}

/// What a pointing event points at: what the surface's state says of the id, and
/// nothing where the surface does not take the event as pointing. `answer` counts
/// only where it does.
pub fn resolve_focus(
    focus_events: &Vec<String>,
    event: &str,
    answer: Result<Option<String>, String>,
) -> (resolution: Resolution)
    ensures
        resolution == focus_answer(texts(focus_events@), event@, answer),
{
    if !declares_focus_event(focus_events, event) {
        return Resolution::Unknown;
    }
    match answer {
        Ok(Some(phrase)) => Resolution::Found(phrase),
        Ok(None) => Resolution::Unknown,
        Err(error) => Resolution::Failed(error),
    }
}

/// A pointing event that the surface does not declare is never accepted, whatever
/// the surface's state says of the id.
pub proof fn law_an_undeclared_event_points_at_nothing(
    focus_events: Seq<Seq<char>>,
    event: Seq<char>,
    one: Result<Option<String>, String>,
    other: Result<Option<String>, String>,
)
    requires
        !focus_events.contains(event),
    ensures
        focus_answer(focus_events, event, one) == focus_answer(focus_events, event, other),
        focus_answer(focus_events, event, one) is Unknown,
{
}

// Joining.

/// What a request to join leads to.
#[derive(Debug, PartialEq, Eq)]
pub enum JoinStep {
    /// The person is known and stays as they are.
    Welcome,
    /// The person is known and asks for another name.
    Rename { proposed: String },
    /// The person is new and is admitted under this name, or one like it.
    Admit { proposed: String },
}

/// A join step in contracts.
pub enum JoinView {
    Welcome,
    Rename { proposed: Seq<char> },
    Admit { proposed: Seq<char> },
}

impl View for JoinStep {
    type V = JoinView;

    open spec fn view(&self) -> JoinView {
        match self {
            JoinStep::Welcome => JoinView::Welcome,
            JoinStep::Rename { proposed } => JoinView::Rename { proposed: proposed@ },
            JoinStep::Admit { proposed } => JoinView::Admit { proposed: proposed@ },
        }
    }
}

/// The name that a request to join proposes.
pub open spec fn proposed_name(body: Option<JsonView>) -> Option<Seq<char>> {
    match body {
        Some(body) => nonblank(body.text_member("name"@)),
        None => None,
    }
}

/// What a request to join leads to.
pub open spec fn join_step(body: Option<JsonView>, known: bool) -> JoinView {
    match proposed_name(body) {
        Some(proposed) => if known {
            JoinView::Rename { proposed }
        } else {
            JoinView::Admit { proposed }
        },
        None => if known {
            JoinView::Welcome
        } else {
            JoinView::Admit { proposed: "someone"@ }
        },
    }
}

/// Decides a request to join. `known` is whether the request's token is that of
/// a person in the room.
pub fn join_request(body: Option<&Json>, known: bool) -> (step: JoinStep)
    ensures
        step@ == join_step(crate::json::opt_json(body), known),
{
    let proposed: Option<&str> = match body {
        Some(body) => match body.str_member("name") {
            Some(name) => {
                let name: &str = trim(name);
                if name.is_empty() {
                    None
                } else {
                    Some(name)
                }
            },
            None => None,
        },
        None => None,
    };
    match proposed {
        Some(proposed) => if known {
            JoinStep::Rename { proposed: proposed.to_owned() }
        } else {
            JoinStep::Admit { proposed: proposed.to_owned() }
        },
        None => if known {
            JoinStep::Welcome
        } else {
            JoinStep::Admit { proposed: "someone".to_owned() }
        },
    }
}

/// The cookie that lets a person come back as themselves.
pub open spec fn person_cookie_text(token: Seq<char>) -> Seq<char> {
    "agui_person"@ + "="@ + token + "; Path=/; Max-Age=86400; SameSite=Lax; HttpOnly"@
}

/// The cookie that lets a person come back as themselves.
pub fn person_cookie(token: &str) -> (cookie: String)
    ensures
        cookie@ == person_cookie_text(token@),
{
    concat4("agui_person", "=", token, "; Path=/; Max-Age=86400; SameSite=Lax; HttpOnly")
}

/// What a person is told about themselves. The token is no part of it.
pub open spec fn person_value(person: PersonView, invitable: bool) -> JsonView {
    empty_object().with("ok"@, JsonView::Bool(true)).with("joined"@, JsonView::Bool(true)).with(
        "id"@,
        JsonView::Text(person.participant_id),
    ).with("name"@, JsonView::Text(person.name)).with(
        "hue"@,
        JsonView::Number(decimal(person.hue as nat)),
    ).with("principal"@, JsonView::Text(person.principal_key)).with(
        "invitable"@,
        JsonView::Bool(invitable),
    )
}

/// What a person is told about themselves.
pub fn person_json(person: &Person, invitable: bool) -> (value: Json)
    ensures
        value@ == person_value(person@, invitable),
{
    object().with("ok", json_bool(true)).with("joined", json_bool(true)).with(
        "id",
        json_text(&person.participant_id),
    ).with("name", json_text(&person.name)).with(
        "hue",
        json_number(&to_decimal(person.hue as u64)),
    ).with("principal", json_text(&person.principal_key)).with("invitable", json_bool(invitable))
}

/// What somebody is told who has not joined.
pub open spec fn stranger_value() -> JsonView {
    empty_object().with("ok"@, JsonView::Bool(true)).with("joined"@, JsonView::Bool(false))
}

/// What somebody is told who has not joined.
pub fn stranger_json() -> (value: Json)
    ensures
        value@ == stranger_value(),
{
    object().with("ok", json_bool(true)).with("joined", json_bool(false))
}

// Reconnecting.

/// How a surface owns its state.
#[derive(Clone, Copy, Debug, PartialEq, Eq, Structural)]
pub enum StateBacking {
    Crdt,
    LastWriterWins,
    RevisionHistory,
    Ephemeral,
    Composite,
}

impl StateBacking {
    pub open spec fn word(self) -> Seq<char> {
        match self {
            StateBacking::Crdt => "crdt"@,
            StateBacking::LastWriterWins => "last_writer_wins"@,
            StateBacking::RevisionHistory => "revision_history"@,
            StateBacking::Ephemeral => "ephemeral"@,
            StateBacking::Composite => "composite"@,
        }
    }

    /// The backing's name on the wire.
    pub fn wire_name(self) -> (name: &'static str)
        ensures
            name@ == self.word(),
    {
        match self {
            StateBacking::Crdt => "crdt",
            StateBacking::LastWriterWins => "last_writer_wins",
            StateBacking::RevisionHistory => "revision_history",
            StateBacking::Ephemeral => "ephemeral",
            StateBacking::Composite => "composite",
        }
    }
}

/// The state that a client starts from.
#[derive(Debug, PartialEq)]
pub struct StateSnapshot {
    pub backing: StateBacking,
    pub body: Json,
    pub chrome: Option<Json>,
}

/// A state on the wire.
pub open spec fn state_value(
    backing: StateBacking,
    body: JsonView,
    chrome: Option<JsonView>,
) -> JsonView {
    empty_object().with("backing"@, JsonView::Text(backing.word())).with("body"@, body).with(
        "chrome"@,
        or_null(chrome),
    )
}

/// The event that carries a snapshot.
pub fn snapshot_event(snapshot: StateSnapshot) -> (event: Event)
    ensures
        event@ == EventView::StateSnapshot(
            state_value(
                snapshot.backing,
                snapshot.body@,
                crate::mcp::owned_json(snapshot.chrome),
            ),
        ),
{
    let chrome: Json = match snapshot.chrome {
        Some(chrome) => chrome,
        None => json_null(),
    };
    Event::StateSnapshot(
        object().with("backing", json_text(snapshot.backing.wire_name())).with(
            "body",
            snapshot.body,
        ).with("chrome", chrome),
    )
}

/// The transcript for a client that connects.
pub open spec fn history_value(lines: Seq<LineView>) -> JsonView {
    empty_object().with(
        "entries"@,
        JsonView::Array(
            Seq::new(
                lines.len(),
                |i: int|
                    empty_object().with("by"@, JsonView::Text(lines[i].by)).with(
                        "text"@,
                        JsonView::Text(lines[i].text),
                    ),
            ),
        ),
    )
}

fn history_json(history: &Vec<Line>) -> (value: Json)
    ensures
        value@ == history_value(line_views(history@)),
{
    let mut items: Vec<Json> = Vec::new();
    let mut i: usize = 0;
    while i < history.len()
        invariant
            i <= history@.len(),
            items@.len() == i,
            forall|k: int|
                0 <= k < i ==> (#[trigger] items@[k])@ == empty_object().with(
                    "by"@,
                    JsonView::Text(history@[k].by@),
                ).with("text"@, JsonView::Text(history@[k].text@)),
        decreases history@.len() - i,
    {
        items.push(
            object().with("by", json_text(&history[i].by)).with(
                "text",
                json_text(&history[i].text),
            ),
        );
        i += 1;
    }
    proof {
        lemma_array_view(items);
        assert(json_items(items@) =~= Seq::new(
            line_views(history@).len(),
            |i: int|
                empty_object().with("by"@, JsonView::Text(line_views(history@)[i].by)).with(
                    "text"@,
                    JsonView::Text(line_views(history@)[i].text),
                ),
        ));
    }
    object().with("entries", Json::Array(items))
}

/// What a client that connects is sent, in order: how the assistant is doing,
/// the surface's state, whose turn it is, the surface's own events, the
/// decisions that wait, the transcript, and the message that is streaming.
pub open spec fn replay(
    tutor: JsonView,
    snapshot: EventView,
    awaiting: bool,
    chrome: Seq<EventView>,
    pending: Seq<EventView>,
    history: Seq<LineView>,
    active: Seq<EventView>,
) -> Seq<EventView> {
    Seq::empty().push(EventView::Custom { name: "surface.tutor"@, value: tutor }).push(snapshot)
        + (if awaiting {
        Seq::empty().push(
            EventView::Custom {
                name: "surface.tutor"@,
                value: empty_object().with("state"@, JsonView::Text("awaiting"@)),
            },
        )
    } else {
        Seq::empty()
    }) + chrome + pending + (if history.len() > 0 {
        Seq::empty().push(
            EventView::Custom { name: "surface.history"@, value: history_value(history) },
        )
    } else {
        Seq::empty()
    }) + active
}

fn append_events(events: &mut Vec<Event>, more: Vec<Event>)
    ensures
        event_views(final(events)@) == event_views(old(events)@) + event_views(more@),
{
    let mut more: Vec<Event> = more;
    let ghost before = events@;
    let ghost added = more@;
    events.append(&mut more);
    proof {
        assert(events@ =~= before + added);
        assert(event_views(events@) =~= event_views(before) + event_views(added));
    }
}

fn push_event(events: &mut Vec<Event>, event: Event)
    ensures
        event_views(final(events)@) == event_views(old(events)@).push(event@),
{
    let ghost before = events@;
    events.push(event);
    proof {
        assert(event_views(events@) =~= event_views(before).push(event@));
    }
}

/// What a client that connects is sent, in order.
pub fn replay_events(
    tutor: Json,
    snapshot: Event,
    awaiting: bool,
    chrome: Vec<Event>,
    pending: Vec<Event>,
    history: &Vec<Line>,
    active: Vec<Event>,
) -> (events: Vec<Event>)
    ensures
        event_views(events@) == replay(
            tutor@,
            snapshot@,
            awaiting,
            event_views(chrome@),
            event_views(pending@),
            line_views(history@),
            event_views(active@),
        ),
{
    let mut events: Vec<Event> = Vec::new();
    proof {
        assert(event_views(events@) =~= Seq::empty());
    }
    push_event(&mut events, custom("surface.tutor", tutor));
    push_event(&mut events, snapshot);
    let ghost head = event_views(events@);
    if awaiting {
        let event: Event = custom("surface.tutor", object().with("state", json_text("awaiting")));
        push_event(&mut events, event);
    }
    proof {
        if awaiting {
            assert(event_views(events@) =~= head + Seq::empty().push(
                EventView::Custom {
                    name: "surface.tutor"@,
                    value: empty_object().with("state"@, JsonView::Text("awaiting"@)),
                },
            ));
        } else {
            assert(event_views(events@) =~= head + Seq::<EventView>::empty());
        }
    }
    append_events(&mut events, chrome);
    append_events(&mut events, pending);
    let ghost middle = event_views(events@);
    if history.len() > 0 {
        push_event(&mut events, custom("surface.history", history_json(history)));
    }
    proof {
        if history@.len() > 0 {
            assert(event_views(events@) =~= middle + Seq::empty().push(
                EventView::Custom {
                    name: "surface.history"@,
                    value: history_value(line_views(history@)),
                },
            ));
        } else {
            assert(event_views(events@) =~= middle + Seq::<EventView>::empty());
        }
    }
    append_events(&mut events, active);
    events
}

/// A client that connects hears first how the assistant is doing and then the
/// surface's state. Beyond the surface's own events, the decisions that wait and
/// the message that is streaming, the host adds custom events alone.
pub proof fn law_connecting_is_not_a_turn(
    tutor: JsonView,
    snapshot: EventView,
    awaiting: bool,
    chrome: Seq<EventView>,
    pending: Seq<EventView>,
    history: Seq<LineView>,
    active: Seq<EventView>,
)
    ensures
        ({
            let events = replay(tutor, snapshot, awaiting, chrome, pending, history, active);
            &&& events.len() >= 2
            &&& events[0] == (EventView::Custom { name: "surface.tutor"@, value: tutor })
            &&& events[1] == snapshot
            &&& events.len() == 2 + (if awaiting {
                1int
            } else {
                0
            }) + chrome.len() + pending.len() + (if history.len() > 0 {
                1int
            } else {
                0
            }) + active.len()
            &&& forall|i: int|
                0 <= i < events.len() ==> {
                    let event = #[trigger] events[i];
                    ||| event is Custom
                    ||| event == snapshot
                    ||| chrome.contains(event)
                    ||| pending.contains(event)
                    ||| active.contains(event)
                }
        }),
{
    let events = replay(tutor, snapshot, awaiting, chrome, pending, history, active);
    let turn: int = if awaiting {
        1
    } else {
        0
    };
    let lines: int = if history.len() > 0 {
        1
    } else {
        0
    };
    assert forall|i: int| 0 <= i < events.len() implies {
        let event = #[trigger] events[i];
        ||| event is Custom
        ||| event == snapshot
        ||| chrome.contains(event)
        ||| pending.contains(event)
        ||| active.contains(event)
    } by {
        let from_chrome = i - 2 - turn;
        let from_pending = from_chrome - chrome.len();
        let from_active = from_pending - pending.len() - lines;
        if 0 <= from_chrome < chrome.len() {
            assert(events[i] == chrome[from_chrome]);
        } else if 0 <= from_pending < pending.len() {
            assert(events[i] == pending[from_pending]);
        } else if 0 <= from_active {
            assert(events[i] == active[from_active]);
        }
    }
}

/// The status with which a surface's refusal of the binary transport is
/// answered.
pub open spec fn transport_status(error: Seq<char>) -> u16 {
    if error == "binary websocket transport is not implemented for this surface"@ {
        501
    } else {
        503
    }
}

/// The status with which a surface's refusal of the binary transport is
/// answered: not implemented where the surface has none, and unavailable
/// otherwise.
pub fn websocket_refusal_status(error: &str) -> (status: u16)
    ensures
        status == transport_status(error@),
{
    if same(error, "binary websocket transport is not implemented for this surface") {
        501
    } else {
        503
    }
}

/// What a client on the binary transport is sent first, or the status and the
/// words with which it is turned away before the connection is made.
pub fn websocket_replay_or_status(hello: Result<Vec<Vec<u8>>, String>) -> (result: Result<
    Vec<Vec<u8>>,
    (u16, String),
>)
    ensures
        match hello {
            Ok(frames) => result == Ok::<Vec<Vec<u8>>, (u16, String)>(frames),
            Err(error) => result == Err::<Vec<Vec<u8>>, (u16, String)>(
                (transport_status(error@), error),
            ),
        },
{
    match hello {
        Ok(frames) => Ok(frames),
        Err(error) => {
            let status: u16 = websocket_refusal_status(&error);
            Err((status, error))
        },
    }
}

} // verus!
