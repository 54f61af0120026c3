//! What a surface's routes take and answer, and how a mutation route runs its
//! action.

use vstd::prelude::*;

use crate::actions::{action_index, action_views, find_action, ActionDef, ActionView};
use crate::activity::{record_views, refused_stranger, stranger_records, Record, RecordView};
use crate::caller::Caller;
use crate::gate::{field_text, FieldView, Headers};
use crate::json::{
    empty_object, json_bool, json_members, json_text, lemma_object_view, member_value, object,
    parsed_bytes, Json, JsonView,
};
use crate::text::{
    ascii_lowered, before, concat2, concat4, opt_str, same, split, split_on, text_before, texts,
    to_ascii_lowercase, trim, trimmed,
};

verus! {

/// An answer with a status and a JSON body.
#[derive(Debug, PartialEq)]
pub struct Reply {
    pub status: u16,
    pub body: Json,
}

/// An answer in contracts.
pub struct ReplyView {
    pub status: u16,
    pub body: JsonView,
}

impl View for Reply {
    type V = ReplyView;

    open spec fn view(&self) -> ReplyView {
        ReplyView { status: self.status, body: self.body@ }
    }
}

/// What a surface route sends back.
#[derive(Debug, PartialEq)]
pub enum RouteBody {
    Json(Json),
    /// Served verbatim as HTML.
    Html(String),
    /// Served verbatim as plain text.
    Text(String),
}

/// A route's body in contracts.
pub enum BodyView {
    Json(JsonView),
    Html(Seq<char>),
    Text(Seq<char>),
}

impl View for RouteBody {
    type V = BodyView;

    open spec fn view(&self) -> BodyView {
        match self {
            RouteBody::Json(value) => BodyView::Json(value@),
            RouteBody::Html(text) => BodyView::Html(text@),
            RouteBody::Text(text) => BodyView::Text(text@),
        }
    }
}

impl RouteBody {
    /// The JSON body, if the route returned JSON.
    pub fn as_json(&self) -> (result: Option<&Json>)
        ensures
            match result {
                Some(value) => self@ == BodyView::Json(value@),
                None => !(self@ is Json),
            },
    {
        match self {
            RouteBody::Json(value) => Some(value),
            _ => None,
        }
    }

    /// The rendered markup or text, if the route returned either.
    pub fn as_str(&self) -> (result: Option<&str>)
        ensures
            match result {
                Some(text) => self@ == BodyView::Html(text@) || self@ == BodyView::Text(text@),
                None => self@ is Json,
            },
    {
        match self {
            RouteBody::Html(text) => Some(text.as_str()),
            RouteBody::Text(text) => Some(text.as_str()),
            RouteBody::Json(_) => None,
        }
    }
}

/// The answer of a surface route.
#[derive(Debug, PartialEq)]
pub struct RouteResponse {
    pub status: u16,
    pub body: RouteBody,
}

impl RouteResponse {
    pub fn json(status: u16, body: Json) -> (response: RouteResponse)
        ensures
            response.status == status,
            response.body@ == BodyView::Json(body@),
    {
        RouteResponse { status, body: RouteBody::Json(body) }
    }

    pub fn html(status: u16, markup: String) -> (response: RouteResponse)
        ensures
            response.status == status,
            response.body@ == BodyView::Html(markup@),
    {
        RouteResponse { status, body: RouteBody::Html(markup) }
    }

    pub fn text(status: u16, text: String) -> (response: RouteResponse)
        ensures
            response.status == status,
            response.body@ == BodyView::Text(text@),
    {
        RouteResponse { status, body: RouteBody::Text(text) }
    }
}

/// An answer as it goes out: a status, a content type and a body.
#[derive(Debug, PartialEq)]
pub struct WireResponse {
    pub status: u16,
    pub content_type: &'static str,
    pub body: RouteBody,
}

/// The content type that goes with a body.
pub open spec fn content_type(body: BodyView) -> Seq<char> {
    match body {
        BodyView::Json(_) => "application/json"@,
        BodyView::Html(_) => "text/html; charset=utf-8"@,
        BodyView::Text(_) => "text/plain; charset=utf-8"@,
    }
}

/// The status that a surface may answer with.
pub fn surface_status(status: u16) -> (result: Option<u16>)
    ensures
        result == (if 100 <= status <= 599 {
            Some(status)
        } else {
            None::<u16>
        }),
{
    if 100 <= status && status <= 599 {
        Some(status)
    } else {
        None
    }
}

/// `{"ok": false, "error": message}`.
pub open spec fn error_body(message: Seq<char>) -> JsonView {
    empty_object().with("ok"@, JsonView::Bool(false)).with("error"@, JsonView::Text(message))
}

/// `{"ok": false, "error": message}`.
pub fn error_json(message: &str) -> (result: Json)
    ensures
        result@ == error_body(message@),
{
    object().with("ok", json_bool(false)).with("error", json_text(message))
}

/// `{"ok": false, "result": message}`.
pub open spec fn refusal_body(message: Seq<char>) -> JsonView {
    empty_object().with("ok"@, JsonView::Bool(false)).with("result"@, JsonView::Text(message))
}

/// `{"ok": false, "result": message}`.
pub fn refusal_json(message: &str) -> (result: Json)
    ensures
        result@ == refusal_body(message@),
{
    object().with("ok", json_bool(false)).with("result", json_text(message))
}

/// Whether this is what goes out for a surface's answer: the body as it is, under
/// its content type; an impossible status is answered with an error instead.
pub open spec fn goes_out(response: RouteResponse, wire: WireResponse) -> bool {
    if 100 <= response.status <= 599 {
        &&& wire.status == response.status
        &&& wire.body@ == response.body@
        &&& wire.content_type@ == content_type(response.body@)
    } else {
        &&& wire.status == 500
        &&& wire.body@ == BodyView::Json(
            error_body("surface route returned an invalid HTTP status"@),
        )
        &&& wire.content_type@ == "application/json"@
    }
}

/// Turns a surface's answer into what goes out.
pub fn surface_route_response(response: RouteResponse) -> (wire: WireResponse)
    ensures
        goes_out(response, wire),
{
    match surface_status(response.status) {
        None => WireResponse {
            status: 500,
            content_type: "application/json",
            body: RouteBody::Json(error_json("surface route returned an invalid HTTP status")),
        },
        Some(status) => {
            let content_type: &'static str = match &response.body {
                RouteBody::Json(_) => "application/json",
                RouteBody::Html(_) => "text/html; charset=utf-8",
                RouteBody::Text(_) => "text/plain; charset=utf-8",
            };
            WireResponse { status, content_type, body: response.body }
        },
    }
}

// Request bodies.

/// What `form_urlencoded::parse` gives for the bytes of a form: the decoded
/// names and values in order.
pub uninterp spec fn form_pairs(body: Seq<u8>) -> Seq<(Seq<char>, Seq<char>)>;

/// The names and values of a list of pairs.
pub open spec fn pair_views(pairs: Seq<(String, String)>) -> Seq<(Seq<char>, Seq<char>)> {
    Seq::new(pairs.len(), |i: int| (pairs[i].0@, pairs[i].1@))
}

/// `form_urlencoded::parse`: the decoded names and values of a form in order,
/// a function of the bytes alone.
#[verifier::external_body]
fn parse_form(body: &[u8]) -> (pairs: Vec<(String, String)>)
    ensures
        pair_views(pairs@) == form_pairs(body@),
{
    form_urlencoded::parse(body).map(|(name, value)| (name.into_owned(), value.into_owned())).collect()
}

/// The members of an object in the order of their names, with one more member;
/// it takes the place of an earlier one of the same name.
pub open spec fn insert_member(
    members: Seq<(Seq<char>, JsonView)>,
    name: Seq<char>,
    value: JsonView,
) -> Seq<(Seq<char>, JsonView)>
    decreases members.len(),
{
    if members.len() == 0 {
        seq![(name, value)]
    } else if members[0].0 == name {
        seq![(name, value)] + members.skip(1)
    } else if text_before(name, members[0].0) {
        seq![(name, value)] + members
    } else {
        seq![members[0]] + insert_member(members.skip(1), name, value)
    }
}

/// The members of the object that a form stands for.
pub open spec fn form_members(pairs: Seq<(Seq<char>, Seq<char>)>) -> Seq<(Seq<char>, JsonView)>
    decreases pairs.len(),
{
    if pairs.len() == 0 {
        Seq::empty()
    } else {
        insert_member(
            form_members(pairs.drop_last()),
            pairs.last().0,
            JsonView::Text(pairs.last().1),
        )
    }
}

/// The value of the last pair of that name.
pub open spec fn last_value(pairs: Seq<(Seq<char>, Seq<char>)>, name: Seq<char>) -> Option<
    Seq<char>,
>
    decreases pairs.len(),
{
    if pairs.len() == 0 {
        None
    } else if pairs.last().0 == name {
        Some(pairs.last().1)
    } else {
        last_value(pairs.drop_last(), name)
    }
}

proof fn lemma_insert_member_lookup(
    members: Seq<(Seq<char>, JsonView)>,
    name: Seq<char>,
    value: JsonView,
    sought: Seq<char>,
)
    ensures
        sought != name ==> member_value(insert_member(members, name, value), sought)
            == member_value(members, sought),
        member_value(insert_member(members, name, value), name) == Some(value),
    decreases members.len(),
{
    let result = insert_member(members, name, value);
    if members.len() == 0 {
        assert(result.skip(1) =~= members);
    } else if members[0].0 == name {
        assert(result.skip(1) =~= members.skip(1));
    } else if text_before(name, members[0].0) {
        assert(result.skip(1) =~= members);
    } else {
        lemma_insert_member_lookup(members.skip(1), name, value, sought);
        assert(result.skip(1) =~= insert_member(members.skip(1), name, value));
    }
}

/// A form field read back from the decoded object is the last value that the
/// form gave it; a name that the form does not hold is absent.
pub proof fn law_a_repeated_form_field_keeps_its_last_value(
    pairs: Seq<(Seq<char>, Seq<char>)>,
    name: Seq<char>,
)
    ensures
        JsonView::Object(form_members(pairs)).text_member(name) == last_value(pairs, name),
        JsonView::Object(form_members(pairs)).member(name) is Some <==> last_value(pairs, name) is Some,
    decreases pairs.len(),
{
    if pairs.len() > 0 {
        law_a_repeated_form_field_keeps_its_last_value(pairs.drop_last(), name);
        lemma_insert_member_lookup(
            form_members(pairs.drop_last()),
            pairs.last().0,
            JsonView::Text(pairs.last().1),
            name,
        );
    }
}

fn insert_sorted(members: &mut Vec<(String, Json)>, name: String, value: Json)
    ensures
        json_members(final(members)@) == insert_member(
            json_members(old(members)@),
            name@,
            value@,
        ),
{
    let ghost all = json_members(members@);
    let mut i: usize = 0;
    proof {
        assert(all.skip(0) =~= all);
        assert(all.take(0) + insert_member(all.skip(0), name@, value@) =~= insert_member(
            all,
            name@,
            value@,
        ));
    }
    while i < members.len()
        invariant
            i <= members@.len(),
            *members == *old(members),
            all == json_members(members@),
            insert_member(all, name@, value@) == all.take(i as int) + insert_member(
                all.skip(i as int),
                name@,
                value@,
            ),
        decreases members@.len() - i,
    {
        proof {
            assert(all.skip(i as int)[0] == all[i as int]);
            assert(all.skip(i as int).skip(1) =~= all.skip(i + 1));
        }
        if same(&members[i].0, &name) {
            members.set(i, (name, value));
            proof {
                assert(json_members(members@) =~= all.take(i as int) + (seq![(name@, value@)]
                    + all.skip(i + 1)));
            }
            return;
        }
        if before(&name, &members[i].0) {
            members.insert(i, (name, value));
            proof {
                assert(json_members(members@) =~= all.take(i as int) + (seq![(name@, value@)]
                    + all.skip(i as int)));
            }
            return;
        }
        proof {
            assert(all.take(i as int) + (seq![all[i as int]] + insert_member(
                all.skip(i + 1),
                name@,
                value@,
            )) =~= all.take(i + 1) + insert_member(all.skip(i + 1), name@, value@));
        }
        i += 1;
    }
    members.push((name, value));
    proof {
        assert(all.skip(all.len() as int) =~= Seq::empty());
        assert(json_members(members@) =~= all.take(all.len() as int) + seq![(name@, value@)]);
    }
}

/// The object that a form's names and values stand for.
pub fn form_object(pairs: Vec<(String, String)>) -> (result: Json)
    ensures
        result@ == JsonView::Object(form_members(pair_views(pairs@))),
{
    let mut members: Vec<(String, Json)> = Vec::new();
    let ghost all = pair_views(pairs@);
    let mut i: usize = 0;
    proof {
        assert(json_members(members@) =~= form_members(all.take(0)));
    }
    while i < pairs.len()
        invariant
            i <= pairs@.len(),
            all == pair_views(pairs@),
            json_members(members@) == form_members(all.take(i as int)),
        decreases pairs@.len() - i,
    {
        insert_sorted(&mut members, pairs[i].0.clone(), json_text(&pairs[i].1));
        proof {
            assert(all.take(i + 1).drop_last() =~= all.take(i as int));
            assert(all.take(i + 1).last() == all[i as int]);
        }
        i += 1;
    }
    proof {
        assert(all.take(all.len() as int) =~= all);
        lemma_object_view(members);
    }
    Json::Object(members)
}

/// Whether a request says that its body is a form.
pub open spec fn form_encoded(headers: Seq<FieldView>) -> bool {
    field_text(headers, "content-type"@) matches Some(kind) && ascii_lowered(
        trimmed(split_on(kind, ';')[0]),
    ) == ascii_lowered("application/x-www-form-urlencoded"@)
}

fn is_form_encoded(headers: &Headers) -> (result: bool)
    ensures
        result == form_encoded(headers@),
{
    match headers.text("content-type") {
        Some(kind) => {
            let pieces: Vec<String> = split(kind, ';');
            proof {
                assert(texts(pieces@)[0] == pieces@[0]@);
            }
            same(
                &to_ascii_lowercase(trim(&pieces[0])),
                &to_ascii_lowercase("application/x-www-form-urlencoded"),
            )
        },
        None => false,
    }
}

/// What a route makes of a JSON parser's outcome: the document, or an answer
/// that carries the parser's complaint.
pub open spec fn json_body(parsed: Result<JsonView, Seq<char>>) -> Result<
    Option<JsonView>,
    ReplyView,
> {
    match parsed {
        Ok(value) => Ok(Some(value)),
        Err(message) => Err(
            ReplyView { status: 400, body: error_body("invalid JSON body: "@ + message) },
        ),
    }
}

/// What a route makes of its request's body.
pub open spec fn decoded_body(headers: Seq<FieldView>, body: Seq<u8>) -> Result<
    Option<JsonView>,
    ReplyView,
> {
    if body.len() == 0 {
        Ok(None)
    } else if form_encoded(headers) {
        Ok(Some(JsonView::Object(form_members(form_pairs(body)))))
    } else {
        json_body(parsed_bytes(body))
    }
}

/// The outcome of a JSON parser.
pub open spec fn parse_view(parsed: Result<Json, String>) -> Result<JsonView, Seq<char>> {
    match parsed {
        Ok(value) => Ok(value@),
        Err(message) => Err(message@),
    }
}

/// A decoded body, or the answer in its place.
pub open spec fn decode_view(decoded: Result<Option<Json>, Reply>) -> Result<
    Option<JsonView>,
    ReplyView,
> {
    match decoded {
        Ok(Some(value)) => Ok(Some(value@)),
        Ok(None) => Ok(None),
        Err(reply) => Err(reply@),
    }
}

/// What a route makes of a JSON parser's outcome.
pub fn json_body_or_reply(parsed: Result<Json, String>) -> (result: Result<Option<Json>, Reply>)
    ensures
        decode_view(result) == json_body(parse_view(parsed)),
{
    match parsed {
        Ok(value) => Ok(Some(value)),
        Err(message) => Err(
            Reply { status: 400, body: error_json(&concat2("invalid JSON body: ", &message)) },
        ),
    }
}

/// Decodes a request's body: nothing where it is empty, an object where it is
/// a form, and JSON otherwise.
pub fn decode_route_body(headers: &Headers, body: &[u8]) -> (result: Result<Option<Json>, Reply>)
    ensures
        decode_view(result) == decoded_body(headers@, body@),
{
    if body.len() == 0 {
        return Ok(None);
    }
    if is_form_encoded(headers) {
        Ok(Some(form_object(parse_form(body))))
    } else {
        json_body_or_reply(Json::parse_bytes(body))
    }
}

// Mutation routes.

/// What a mutation route does with a request.
#[derive(Debug, PartialEq)]
pub enum ActionRouteStep {
    /// Answer at once; no action runs.
    Answer(Reply),
    /// Answer a caller who is nobody, and put that on record.
    Unidentified { reply: Reply, records: Vec<Record> },
    /// Let the dispatcher word its refusal, without any arguments, and answer
    /// with that.
    Refuse,
    /// Run the action with these arguments.
    Dispatch(Json),
}

/// A mutation route's step in contracts.
pub enum StepView {
    Answer(ReplyView),
    Unidentified { reply: ReplyView, records: Seq<RecordView> },
    Refuse,
    Dispatch(JsonView),
}

impl View for ActionRouteStep {
    type V = StepView;

    open spec fn view(&self) -> StepView {
        match self {
            ActionRouteStep::Answer(reply) => StepView::Answer(reply@),
            ActionRouteStep::Unidentified { reply, records } => StepView::Unidentified {
                reply: reply@,
                records: record_views(records@),
            },
            ActionRouteStep::Refuse => StepView::Refuse,
            ActionRouteStep::Dispatch(arguments) => StepView::Dispatch(arguments@),
        }
    }
}

/// What a mutation route does with a request, given what its body decodes to:
/// identity first, then the action's audience, and only then the arguments.
/// `named` is the action's name, and `run` the turn that runs.
pub open spec fn route_step(
    caller: Caller,
    named: Seq<char>,
    action: Option<ActionView>,
    decoded: Result<Option<JsonView>, ReplyView>,
    run: Option<Seq<char>>,
) -> StepView {
    if caller is Unknown {
        StepView::Unidentified {
            reply: ReplyView {
                status: 403,
                body: refusal_body(
                    "caller identity was not established; no action was dispatched"@,
                ),
            },
            records: stranger_records(
                "action.identity_unestablished"@,
                named,
                run,
                "caller identity was not established; no action was dispatched"@,
            ),
        }
    } else {
        match action {
            None => StepView::Answer(
                ReplyView {
                    status: 500,
                    body: refusal_body("action-backed route is not available"@),
                },
            ),
            Some(action) => if !caller.allowed(action.audience) {
                StepView::Refuse
            } else {
                match decoded {
                    Ok(Some(arguments)) => StepView::Dispatch(arguments),
                    Ok(None) => StepView::Dispatch(empty_object()),
                    Err(reply) => StepView::Answer(reply),
                }
            },
        }
    }
}

/// What a mutation route does with a request before any action runs.
pub fn action_route_request(
    caller: Caller,
    actions: &Vec<ActionDef>,
    action: &str,
    headers: &Headers,
    body: &[u8],
    run: Option<&str>,
) -> (step: ActionRouteStep)
    ensures
        step@ == route_step(
            caller,
            action@,
            find_action(action_views(actions@), action@),
            decoded_body(headers@, body@),
            opt_str(run),
        ),
{
    if caller == Caller::Unknown {
        let message: &str = "caller identity was not established; no action was dispatched";
        return ActionRouteStep::Unidentified {
            reply: Reply { status: 403, body: refusal_json(message) },
            records: refused_stranger("action.identity_unestablished", action, run, message),
        };
    }
    let index: usize = match action_index(actions, action) {
        Some(index) => index,
        None => {
            return ActionRouteStep::Answer(
                Reply { status: 500, body: refusal_json("action-backed route is not available") },
            );
        },
    };
    if !caller.may_call(actions[index].audience) {
        return ActionRouteStep::Refuse;
    }
    match decode_route_body(headers, body) {
        Ok(Some(arguments)) => ActionRouteStep::Dispatch(arguments),
        Ok(None) => ActionRouteStep::Dispatch(object()),
        Err(reply) => ActionRouteStep::Answer(reply),
    }
}

/// Whether a caller may run an action of a name.
#[derive(Debug, PartialEq)]
pub enum Admission {
    Admitted,
    /// The action is not for this caller, and this is what they are told.
    Refused(String),
    /// No action has this name.
    Undeclared,
}

/// An admission in contracts.
pub enum AdmissionView {
    Admitted,
    Refused(Seq<char>),
    Undeclared,
}

impl View for Admission {
    type V = AdmissionView;

    open spec fn view(&self) -> AdmissionView {
        match self {
            Admission::Admitted => AdmissionView::Admitted,
            Admission::Refused(message) => AdmissionView::Refused(message@),
            Admission::Undeclared => AdmissionView::Undeclared,
        }
    }
}

/// Whether a caller may run an action of a name, which its audience decides.
pub open spec fn admission_of(
    actions: Seq<ActionView>,
    caller: Caller,
    name: Seq<char>,
) -> AdmissionView {
    match find_action(actions, name) {
        None => AdmissionView::Undeclared,
        Some(action) => if caller.allowed(action.audience) {
            AdmissionView::Admitted
        } else {
            AdmissionView::Refused("action '"@ + name + "' is not available to "@ + caller.name())
        },
    }
}

/// Decides whether a caller may run an action, before its arguments are read.
pub fn admission(actions: &Vec<ActionDef>, caller: Caller, name: &str) -> (admission: Admission)
    ensures
        admission@ == admission_of(action_views(actions@), caller, name@),
{
    match action_index(actions, name) {
        None => Admission::Undeclared,
        Some(index) => if caller.may_call(actions[index].audience) {
            Admission::Admitted
        } else {
            Admission::Refused(
                concat4("action '", name, "' is not available to ", caller.label()),
            )
        },
    }
}

/// The answer to a caller whom the dispatcher refused.
pub fn refused_reply(result: &str) -> (reply: Reply)
    ensures
        reply@ == (ReplyView { status: 403, body: refusal_body(result@) }),
{
    Reply { status: 403, body: refusal_json(result) }
}

/// The answer after an action ran: an error where it failed, and nothing where
/// it succeeded and the route renders its result.
pub fn dispatched_reply(result: &str, ok: bool) -> (reply: Option<Reply>)
    ensures
        match reply {
            Some(reply) => !ok && reply@ == (ReplyView {
                status: 422,
                body: refusal_body(result@),
            }),
            None => ok,
        },
{
    if ok {
        None
    } else {
        Some(Reply { status: 422, body: refusal_json(result) })
    }
}

/// A caller who may not use an action gets the same step whatever the request's
/// body holds, and no action is dispatched.
pub proof fn law_refusal_comes_before_the_arguments(
    caller: Caller,
    named: Seq<char>,
    action: Option<ActionView>,
    one: Result<Option<JsonView>, ReplyView>,
    other: Result<Option<JsonView>, ReplyView>,
    run: Option<Seq<char>>,
)
    requires
        caller is Unknown || action is None || !caller.allowed(action->Some_0.audience),
    ensures
        route_step(caller, named, action, one, run) == route_step(
            caller,
            named,
            action,
            other,
            run,
        ),
        !(route_step(caller, named, action, one, run) is Dispatch),
{
}

/// An action is dispatched only for a caller whom its audience admits.
pub proof fn law_dispatch_implies_permission(
    caller: Caller,
    named: Seq<char>,
    action: Option<ActionView>,
    decoded: Result<Option<JsonView>, ReplyView>,
    run: Option<Seq<char>>,
)
    requires
        route_step(caller, named, action, decoded, run) is Dispatch,
    ensures
        action matches Some(action) && caller.allowed(action.audience),
{
}

} // verus!
