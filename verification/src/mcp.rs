//! The tool protocol that agents speak to the host: which actions they see, and
//! what each of their messages is answered.

use vstd::prelude::*;

use crate::actions::{action_views, ActionDef, ActionView};
use crate::caller::{ActionAudience, Actor, ActorView, AttachedAgent, Caller};
use crate::gate::{
    authorized, bears_token, field_text, first_field, local_origin, origin_allowed, FieldView,
    Headers,
};
use crate::json::{
    empty_object, json_bool, json_items, json_number, json_text, json_texts, lemma_array_view,
    object, opt_json, parsed_bytes, text_array, text_or, Json, JsonView,
};
use crate::labels::{
    agent_labels, chosen_label, fresh_hex, fresh_id, law_a_chosen_label_is_never_empty,
    unique_participant_label, unique_participant_label_with,
};
use crate::lists::{
    first_index, first_problem, lemma_first_index, lemma_first_index_grows,
    lemma_first_problem_grows, reports,
};
use crate::routes::{parse_view, Reply, ReplyView};
use crate::semantic_targets::{Participant, ParticipantKind, ParticipantView};
use crate::text::{
    blank, concat2, concat3, concat4, copy_opt, debug_quote, debug_text, is_blank, opt_str,
    opt_text, same, texts, trim, trimmed,
};

verus! {

/// The protocol revision that the host speaks.
pub open spec fn protocol_version() -> Seq<char> {
    "2025-06-18"@
}

// Who a client says it is.

/// What a client says about itself when it starts. It is a proposed name, never
/// an identity.
#[derive(Debug, PartialEq, Eq)]
pub struct ClientIdentity {
    pub name: String,
    pub version: Option<String>,
    pub title: Option<String>,
}

/// A client's claim in contracts.
pub struct IdentityView {
    pub name: Seq<char>,
    pub version: Option<Seq<char>>,
    pub title: Option<Seq<char>>,
}

impl View for ClientIdentity {
    type V = IdentityView;

    open spec fn view(&self) -> IdentityView {
        IdentityView {
            name: self.name@,
            version: opt_text(self.version),
            title: opt_text(self.title),
        }
    }
}

/// A trimmed text, where it is not blank.
pub open spec fn nonblank(text: Option<Seq<char>>) -> Option<Seq<char>> {
    match text {
        Some(text) => if blank(text) {
            None
        } else {
            Some(trimmed(text))
        },
        None => None,
    }
}

/// The member of a member.
pub open spec fn member_of(value: Option<JsonView>, name: Seq<char>) -> Option<JsonView> {
    match value {
        Some(value) => value.member(name),
        None => None,
    }
}

/// The identity that a message proposes: only a starting message with client
/// information proposes one.
pub open spec fn proposed_identity(message: JsonView) -> Option<IdentityView> {
    if message.text_member("method"@) != Some("initialize"@) {
        None
    } else {
        match member_of(message.member("params"@), "clientInfo"@) {
            None => None,
            Some(info) => Some(
                IdentityView {
                    name: text_or(nonblank(info.text_member("name"@)), "unidentified agent"@),
                    version: nonblank(info.text_member("version"@)),
                    title: nonblank(info.text_member("title"@)),
                },
            ),
        }
    }
}

/// An optional identity in contracts.
pub open spec fn opt_identity(identity: Option<ClientIdentity>) -> Option<IdentityView> {
    match identity {
        Some(identity) => Some(identity@),
        None => None,
    }
}

fn nonblank_member(info: &Json, name: &str) -> (text: Option<String>)
    ensures
        opt_text(text) == nonblank(info@.text_member(name@)),
{
    match info.str_member(name) {
        Some(text) => {
            let text: &str = trim(text);
            if text.is_empty() {
                None
            } else {
                Some(text.to_owned())
            }
        },
        None => None,
    }
}

fn is_method(message: &Json, method: &str) -> (result: bool)
    ensures
        result == (message@.text_member("method"@) == Some(method@)),
{
    match message.str_member("method") {
        Some(name) => same(name, method),
        None => false,
    }
}

/// The identity that a message proposes.
pub fn client_identity(message: &Json) -> (identity: Option<ClientIdentity>)
    ensures
        opt_identity(identity) == proposed_identity(message@),
{
    if !is_method(message, "initialize") {
        return None;
    }
    let params: &Json = match message.get("params") {
        Some(params) => params,
        None => {
            return None;
        },
    };
    let info: &Json = match params.get("clientInfo") {
        Some(info) => info,
        None => {
            return None;
        },
    };
    Some(
        ClientIdentity {
            name: match nonblank_member(info, "name") {
                Some(name) => name,
                None => "unidentified agent".to_owned(),
            },
            version: nonblank_member(info, "version"),
            title: nonblank_member(info, "title"),
        },
    )
}

/// The session that a client presents.
pub fn session_id(headers: &Headers) -> (session: Option<String>)
    ensures
        opt_text(session) == nonblank(field_text(headers@, "mcp-session-id"@)),
{
    match headers.text("mcp-session-id") {
        Some(session) => {
            let session: &str = trim(session);
            if session.is_empty() {
                None
            } else {
                Some(session.to_owned())
            }
        },
        None => None,
    }
}

// The catalog.

/// Which clients of an agent a tool is for.
pub open spec fn visibility(audience: ActionAudience) -> Option<Seq<Seq<char>>> {
    match audience {
        ActionAudience::Human => None,
        ActionAudience::Agent => Some(Seq::empty().push("model"@)),
        ActionAudience::Both => Some(Seq::empty().push("model"@).push("app"@)),
    }
}

/// Which clients of an agent a tool is for; an action for the person alone is
/// no tool at all.
pub fn mcp_apps_visibility(audience: ActionAudience) -> (result: Option<Vec<String>>)
    ensures
        match result {
            Some(list) => visibility(audience) == Some(texts(list@)),
            None => visibility(audience) is None,
        },
        result is Some <==> audience.admits_agent(),
{
    let mut list: Vec<String> = Vec::new();
    match audience {
        ActionAudience::Human => None,
        ActionAudience::Agent => {
            list.push("model".to_owned());
            proof {
                assert(texts(list@) =~= Seq::empty().push("model"@));
            }
            Some(list)
        },
        ActionAudience::Both => {
            list.push("model".to_owned());
            list.push("app".to_owned());
            proof {
                assert(texts(list@) =~= Seq::empty().push("model"@).push("app"@));
            }
            Some(list)
        },
    }
}

/// One action as agents see it.
#[derive(Debug, PartialEq)]
pub struct ToolSchema {
    pub name: String,
    pub description: String,
    pub input_schema: Json,
    pub visibility: Vec<String>,
    pub include_state_snapshot: bool,
}

/// A tool in contracts.
pub struct ToolView {
    pub name: Seq<char>,
    pub description: Seq<char>,
    pub input_schema: JsonView,
    pub visibility: Seq<Seq<char>>,
    pub include_state_snapshot: bool,
}

impl View for ToolSchema {
    type V = ToolView;

    open spec fn view(&self) -> ToolView {
        ToolView {
            name: self.name@,
            description: self.description@,
            input_schema: self.input_schema@,
            visibility: texts(self.visibility@),
            include_state_snapshot: self.include_state_snapshot,
        }
    }
}

pub open spec fn tool_views(tools: Seq<ToolSchema>) -> Seq<ToolView> {
    Seq::new(tools.len(), |i: int| tools[i]@)
}

/// The actions that agents see.
#[derive(Debug, PartialEq)]
pub struct Catalog {
    pub tools: Vec<ToolSchema>,
}

/// Whether an earlier action that agents see has the same name.
pub open spec fn named_before(actions: Seq<ActionView>, i: int) -> bool {
    exists|j: int|
        0 <= j < i && (#[trigger] actions[j]).audience.admits_agent() && actions[j].name
            == actions[i].name
}

/// Whether a schema says that its values are objects.
pub open spec fn object_schema(schema: JsonView) -> bool {
    schema.text_member("type"@) == Some("object"@)
}

/// What is wrong with an action that agents see.
pub open spec fn tool_problem(actions: Seq<ActionView>, i: int) -> Option<Seq<char>> {
    let action = actions[i];
    if !action.audience.admits_agent() {
        None
    } else if blank(action.name) {
        Some("agent-visible action has an empty name"@)
    } else if named_before(actions, i) {
        Some(
            "agent-visible action "@ + debug_text(action.name) + " is declared more than once"@,
        )
    } else if !object_schema(action.parameters) {
        Some(
            "agent-visible action "@ + debug_text(action.name)
                + " input schema must declare type=object"@,
        )
    } else {
        None
    }
}

/// An action as agents see it.
pub open spec fn tool_of(action: ActionView) -> ToolView {
    ToolView {
        name: action.name,
        description: action.description,
        input_schema: action.parameters,
        visibility: visibility(action.audience)->0,
        include_state_snapshot: action.include_state_snapshot,
    }
}

/// The tools among the first `n` actions, in order.
pub open spec fn tools_among(actions: Seq<ActionView>, n: nat) -> Seq<ToolView>
    decreases n,
{
    if n == 0 {
        Seq::empty()
    } else {
        let before = tools_among(actions, (n - 1) as nat);
        if actions[n - 1].audience.admits_agent() {
            before.push(tool_of(actions[n - 1]))
        } else {
            before
        }
    }
}

/// What is wrong with the actions as a catalog.
pub open spec fn catalog_problem(actions: Seq<ActionView>) -> Option<Seq<char>> {
    first_problem(actions.len(), |i: int| tool_problem(actions, i))
}

fn name_seen(actions: &Vec<ActionDef>, i: usize) -> (seen: bool)
    requires
        i < actions@.len(),
    ensures
        seen == named_before(action_views(actions@), i as int),
{
    let ghost all = action_views(actions@);
    let mut j: usize = 0;
    while j < i
        invariant
            j <= i < actions@.len(),
            all == action_views(actions@),
            forall|k: int|
                0 <= k < j ==> !((#[trigger] all[k]).audience.admits_agent() && all[k].name
                    == all[i as int].name),
        decreases i - j,
    {
        if actions[j].audience.agent() && same(&actions[j].name, &actions[i].name) {
            proof {
                assert(all[j as int].audience.admits_agent());
            }
            return true;
        }
        j += 1;
    }
    false
}

fn has_object_schema(schema: &Json) -> (result: bool)
    ensures
        result == object_schema(schema@),
{
    match schema.str_member("type") {
        Some(kind) => same(kind, "object"),
        None => false,
    }
}

fn check_tool(actions: &Vec<ActionDef>, i: usize) -> (outcome: Result<(), String>)
    requires
        i < actions@.len(),
        actions@[i as int].audience.admits_agent(),
    ensures
        reports(outcome, tool_problem(action_views(actions@), i as int)),
{
    if is_blank(&actions[i].name) {
        return Err("agent-visible action has an empty name".to_owned());
    }
    if name_seen(actions, i) {
        return Err(
            concat3(
                "agent-visible action ",
                &debug_quote(&actions[i].name),
                " is declared more than once",
            ),
        );
    }
    if !has_object_schema(&actions[i].parameters) {
        return Err(
            concat3(
                "agent-visible action ",
                &debug_quote(&actions[i].name),
                " input schema must declare type=object",
            ),
        );
    }
    Ok(())
}

/// The first tool of that name.
pub open spec fn find_tool(tools: Seq<ToolView>, name: Seq<char>) -> Option<ToolView>
    decreases tools.len(),
{
    if tools.len() == 0 {
        None
    } else if tools[0].name == name {
        Some(tools[0])
    } else {
        find_tool(tools.skip(1), name)
    }
}

/// A tool on the wire.
pub open spec fn wire_tool(tool: ToolView) -> JsonView {
    empty_object().with("name"@, JsonView::Text(tool.name)).with(
        "description"@,
        JsonView::Text(tool.description),
    ).with("inputSchema"@, tool.input_schema).with(
        "_meta"@,
        empty_object().with(
            "ui"@,
            empty_object().with("visibility"@, text_array(tool.visibility)),
        ),
    )
}

/// A catalog on the wire.
pub open spec fn wire_list(tools: Seq<ToolView>) -> JsonView {
    JsonView::Array(Seq::new(tools.len(), |i: int| wire_tool(tools[i])))
}

impl Catalog {
    /// The catalog of the actions that agents may see, in order. Actions for
    /// the person alone are left out.
    pub fn from_actions(actions: &Vec<ActionDef>) -> (result: Result<Catalog, String>)
        ensures
            reports(result, catalog_problem(action_views(actions@))),
            result matches Ok(catalog) ==> tool_views(catalog.tools@) == tools_among(
                action_views(actions@),
                actions@.len(),
            ),
    {
        let ghost all = action_views(actions@);
        let ghost problem = |i: int| tool_problem(all, i);
        let mut tools: Vec<ToolSchema> = Vec::new();
        let mut i: usize = 0;
        proof {
            assert(tool_views(tools@) =~= tools_among(all, 0));
        }
        while i < actions.len()
            invariant
                i <= actions@.len(),
                all == action_views(actions@),
                problem == (|i: int| tool_problem(all, i)),
                first_problem(i as nat, problem) is None,
                tool_views(tools@) == tools_among(all, i as nat),
            decreases actions@.len() - i,
        {
            match mcp_apps_visibility(actions[i].audience) {
                None => {},
                Some(visibility) => {
                    match check_tool(actions, i) {
                        Ok(()) => {},
                        Err(message) => {
                            proof {
                                lemma_first_problem_grows((i + 1) as nat, all.len(), problem);
                            }
                            return Err(message);
                        },
                    }
                    let ghost before = tools@;
                    let tool: ToolSchema = ToolSchema {
                        name: actions[i].name.clone(),
                        description: actions[i].description.clone(),
                        input_schema: actions[i].parameters.copy(),
                        visibility,
                        include_state_snapshot: actions[i].include_state_snapshot,
                    };
                    proof {
                        assert(tool@ == tool_of(all[i as int]));
                    }
                    tools.push(tool);
                    proof {
                        assert(tool_views(tools@) =~= tool_views(before).push(tool@));
                    }
                },
            }
            i += 1;
        }
        Ok(Catalog { tools })
    }

    /// The tool of that name.
    pub fn get(&self, name: &str) -> (result: Option<&ToolSchema>)
        ensures
            match result {
                Some(tool) => find_tool(tool_views(self.tools@), name@) == Some(tool@),
                None => find_tool(tool_views(self.tools@), name@) is None,
            },
    {
        let ghost all = tool_views(self.tools@);
        let mut i: usize = 0;
        proof {
            assert(all.skip(0) =~= all);
        }
        while i < self.tools.len()
            invariant
                i <= self.tools@.len(),
                all == tool_views(self.tools@),
                find_tool(all, name@) == find_tool(all.skip(i as int), name@),
            decreases self.tools@.len() - i,
        {
            if same(&self.tools[i].name, name) {
                return Some(&self.tools[i]);
            }
            proof {
                assert(all.skip(i as int).skip(1) =~= all.skip(i + 1));
            }
            i += 1;
        }
        None
    }

    /// The catalog on the wire.
    pub fn wire_tools(&self) -> (result: Json)
        ensures
            result@ == wire_list(tool_views(self.tools@)),
    {
        let mut items: Vec<Json> = Vec::new();
        let mut i: usize = 0;
        while i < self.tools.len()
            invariant
                i <= self.tools@.len(),
                items@.len() == i,
                forall|k: int| 0 <= k < i ==> (#[trigger] items@[k])@ == wire_tool(self.tools@[k]@),
            decreases self.tools@.len() - i,
        {
            let tool: &ToolSchema = &self.tools[i];
            items.push(
                object().with("name", json_text(&tool.name)).with(
                    "description",
                    json_text(&tool.description),
                ).with("inputSchema", tool.input_schema.copy()).with(
                    "_meta",
                    object().with(
                        "ui",
                        object().with("visibility", json_texts(&tool.visibility)),
                    ),
                ),
            );
            i += 1;
        }
        proof {
            lemma_array_view(items);
            assert(json_items(items@) =~= wire_list(tool_views(self.tools@))->Array_0);
        }
        Json::Array(items)
    }
}

/// No tool of a catalog stands for an action that is for the person alone; each
/// tool is an action that agents may see.
pub proof fn law_the_catalog_never_discloses_human_only_actions(actions: Seq<ActionView>, n: nat)
    requires
        n <= actions.len(),
    ensures
        forall|k: int|
            0 <= k < tools_among(actions, n).len() ==> exists|i: int|
                0 <= i < n && (#[trigger] actions[i]).audience.admits_agent() && tool_of(actions[i])
                    == #[trigger] tools_among(actions, n)[k],
    decreases n,
{
    if n > 0 {
        law_the_catalog_never_discloses_human_only_actions(actions, (n - 1) as nat);
        let before = tools_among(actions, (n - 1) as nat);
        let tools = tools_among(actions, n);
        assert forall|k: int| 0 <= k < tools.len() implies exists|i: int|
            0 <= i < n && (#[trigger] actions[i]).audience.admits_agent() && tool_of(actions[i])
                == #[trigger] tools[k] by {
            if k < before.len() {
                assert(tools[k] == before[k]);
                let i = choose|i: int|
                    0 <= i < n - 1 && (#[trigger] actions[i]).audience.admits_agent() && tool_of(
                        actions[i],
                    ) == before[k];
                assert(actions[i].audience.admits_agent());
            } else {
                assert(actions[n - 1].audience.admits_agent());
            }
        }
    }
}

/// Every action that agents may see is in the catalog, in the order of the
/// actions.
pub proof fn law_the_catalog_holds_every_visible_action_in_order(actions: Seq<ActionView>, n: nat)
    requires
        n <= actions.len(),
    ensures
        tools_among(actions, n) =~= actions.take(n as int).filter(
            |action: ActionView| action.audience.admits_agent(),
        ).map_values(|action: ActionView| tool_of(action)),
    decreases n,
{
    let visible = |action: ActionView| action.audience.admits_agent();
    let project = |action: ActionView| tool_of(action);
    if n == 0 {
        reveal(Seq::filter);
        assert(actions.take(0) =~= Seq::empty());
    } else {
        law_the_catalog_holds_every_visible_action_in_order(actions, (n - 1) as nat);
        crate::lists::lemma_filter_next(actions, visible, n - 1);
        let before = actions.take(n - 1).filter(visible);
        if visible(actions[n - 1]) {
            assert(before.push(actions[n - 1]).map_values(project) =~= before.map_values(
                project,
            ).push(tool_of(actions[n - 1])));
        }
    }
}

// Messages.

/// A JSON-RPC error.
pub open spec fn rpc_error(id: JsonView, code: Seq<char>, message: Seq<char>) -> JsonView {
    empty_object().with("jsonrpc"@, JsonView::Text("2.0"@)).with("id"@, id).with(
        "error"@,
        empty_object().with("code"@, JsonView::Number(code)).with(
            "message"@,
            JsonView::Text(message),
        ),
    )
}

/// A JSON-RPC error.
pub fn error(id: Json, code: &str, message: &str) -> (result: Json)
    ensures
        result@ == rpc_error(id@, code@, message@),
{
    object().with("jsonrpc", json_text("2.0")).with("id", id).with(
        "error",
        object().with("code", json_number(code)).with("message", json_text(message)),
    )
}

/// A JSON-RPC answer.
pub open spec fn rpc_result(id: JsonView, result: JsonView) -> JsonView {
    empty_object().with("jsonrpc"@, JsonView::Text("2.0"@)).with("id"@, id).with("result"@, result)
}

/// A JSON-RPC answer.
pub fn answer(id: Json, result: Json) -> (response: Json)
    ensures
        response@ == rpc_result(id@, result@),
{
    object().with("jsonrpc", json_text("2.0")).with("id", id).with("result", result)
}

/// What a message leads to.
#[derive(Debug, PartialEq)]
pub enum HandleStep {
    /// The message is a notification and gets no answer.
    Accepted,
    /// The message is answered at once.
    Answer(Json),
    /// The message starts a session: the host remembers the version and
    /// answers.
    Initialized { version: String, answer: Json },
    /// The message calls a tool; the call's result answers it.
    Call { id: Json, params: Option<Json> },
}

/// A message's step in contracts.
pub enum HandleView {
    Accepted,
    Answer(JsonView),
    Initialized { version: Seq<char>, answer: JsonView },
    Call { id: JsonView, params: Option<JsonView> },
}

/// An optional value in contracts.
pub open spec fn owned_json(value: Option<Json>) -> Option<JsonView> {
    match value {
        Some(value) => Some(value@),
        None => None,
    }
}

impl View for HandleStep {
    type V = HandleView;

    open spec fn view(&self) -> HandleView {
        match self {
            HandleStep::Accepted => HandleView::Accepted,
            HandleStep::Answer(value) => HandleView::Answer(value@),
            HandleStep::Initialized { version, answer } => HandleView::Initialized {
                version: version@,
                answer: answer@,
            },
            HandleStep::Call { id, params } => HandleView::Call {
                id: id@,
                params: owned_json(*params),
            },
        }
    }
}

/// The value of an optional member, or `null`.
pub open spec fn or_null(value: Option<JsonView>) -> JsonView {
    match value {
        Some(value) => value,
        None => JsonView::Null,
    }
}

/// What the host says when a session starts.
pub open spec fn welcome(server_version: Seq<char>) -> JsonView {
    empty_object().with("protocolVersion"@, JsonView::Text(protocol_version())).with(
        "capabilities"@,
        empty_object().with("tools"@, empty_object().with("listChanged"@, JsonView::Bool(false))),
    ).with(
        "serverInfo"@,
        empty_object().with("name"@, JsonView::Text("ag-ui-surface"@)).with(
            "version"@,
            JsonView::Text(server_version),
        ),
    )
}

/// The version that a starting message asks for.
pub open spec fn requested_version(message: JsonView) -> Option<Seq<char>> {
    match message.member("params"@) {
        Some(params) => params.text_member("protocolVersion"@),
        None => None,
    }
}

/// What a message leads to.
pub open spec fn handle_step(
    tools: Seq<ToolView>,
    server_version: Seq<char>,
    message: JsonView,
) -> HandleView {
    let id = message.member("id"@);
    if !(message is Object) {
        HandleView::Answer(rpc_error(JsonView::Null, "-32600"@, "invalid JSON-RPC request"@))
    } else if message.text_member("jsonrpc"@) != Some("2.0"@) {
        HandleView::Answer(rpc_error(or_null(id), "-32600"@, "invalid JSON-RPC version"@))
    } else {
        match message.text_member("method"@) {
            None => HandleView::Answer(
                rpc_error(or_null(id), "-32600"@, "JSON-RPC method must be a string"@),
            ),
            Some(method) => match id {
                None => HandleView::Accepted,
                Some(id) => if method == "initialize"@ {
                    if requested_version(message) is Some {
                        HandleView::Initialized {
                            version: protocol_version(),
                            answer: rpc_result(id, welcome(server_version)),
                        }
                    } else {
                        HandleView::Answer(
                            rpc_error(
                                id,
                                "-32602"@,
                                "initialize.params.protocolVersion must be a string"@,
                            ),
                        )
                    }
                } else if method == "ping"@ {
                    HandleView::Answer(rpc_result(id, empty_object()))
                } else if method == "tools/list"@ {
                    HandleView::Answer(
                        rpc_result(id, empty_object().with("tools"@, wire_list(tools))),
                    )
                } else if method == "tools/call"@ {
                    HandleView::Call { id, params: message.member("params"@) }
                } else {
                    HandleView::Answer(
                        rpc_error(id, "-32601"@, "method not found: "@ + method),
                    )
                },
            },
        }
    }
}

fn id_or_null(message: &Json) -> (id: Json)
    ensures
        id@ == or_null(message@.member("id"@)),
{
    match message.get("id") {
        Some(id) => id.copy(),
        None => Json::Null,
    }
}

/// Handles one message, up to the tool call that it may ask for.
pub fn handle(catalog: &Catalog, server_version: &str, message: &Json) -> (step: HandleStep)
    ensures
        step@ == handle_step(tool_views(catalog.tools@), server_version@, message@),
{
    if !message.is_object() {
        return HandleStep::Answer(error(Json::Null, "-32600", "invalid JSON-RPC request"));
    }
    let version_ok: bool = match message.str_member("jsonrpc") {
        Some(version) => same(version, "2.0"),
        None => false,
    };
    if !version_ok {
        return HandleStep::Answer(
            error(id_or_null(message), "-32600", "invalid JSON-RPC version"),
        );
    }
    let method: &str = match message.str_member("method") {
        Some(method) => method,
        None => {
            return HandleStep::Answer(
                error(id_or_null(message), "-32600", "JSON-RPC method must be a string"),
            );
        },
    };
    let id: Json = match message.get("id") {
        Some(id) => id.copy(),
        None => {
            return HandleStep::Accepted;
        },
    };
    proof {
        reveal_strlit("initialize");
        reveal_strlit("ping");
        reveal_strlit("tools/list");
        reveal_strlit("tools/call");
    }
    if same(method, "initialize") {
        let requested: Option<&str> = match message.get("params") {
            Some(params) => params.str_member("protocolVersion"),
            None => None,
        };
        if requested.is_none() {
            return HandleStep::Answer(
                error(id, "-32602", "initialize.params.protocolVersion must be a string"),
            );
        }
        let result: Json = object().with("protocolVersion", json_text("2025-06-18")).with(
            "capabilities",
            object().with("tools", object().with("listChanged", json_bool(false))),
        ).with(
            "serverInfo",
            object().with("name", json_text("ag-ui-surface")).with(
                "version",
                json_text(server_version),
            ),
        );
        return HandleStep::Initialized {
            version: "2025-06-18".to_owned(),
            answer: answer(id, result),
        };
    }
    if same(method, "ping") {
        return HandleStep::Answer(answer(id, object()));
    }
    if same(method, "tools/list") {
        return HandleStep::Answer(answer(id, object().with("tools", catalog.wire_tools())));
    }
    if same(method, "tools/call") {
        return HandleStep::Call { id, params: Json::copy_opt(message.get("params")) };
    }
    HandleStep::Answer(error(id, "-32601", &concat2("method not found: ", method)))
}

// Tool calls.

/// A failed tool call.
pub open spec fn tool_failure(message: Seq<char>) -> JsonView {
    empty_object().with(
        "content"@,
        JsonView::Array(Seq::empty().push(text_content(message))),
    ).with("isError"@, JsonView::Bool(true))
}

/// A piece of text in a tool's result.
pub open spec fn text_content(text: Seq<char>) -> JsonView {
    empty_object().with("type"@, JsonView::Text("text"@)).with("text"@, JsonView::Text(text))
}

/// A picture in a tool's result.
pub open spec fn image_content(data: Seq<char>) -> JsonView {
    empty_object().with("type"@, JsonView::Text("image"@)).with("data"@, JsonView::Text(data)).with(
        "mimeType"@,
        JsonView::Text("image/png"@),
    )
}

fn text_item(text: &str) -> (item: Json)
    ensures
        item@ == text_content(text@),
{
    object().with("type", json_text("text")).with("text", json_text(text))
}

/// A failed tool call.
pub fn tool_error(message: &str) -> (result: Json)
    ensures
        result@ == tool_failure(message@),
{
    let mut content: Vec<Json> = Vec::new();
    content.push(text_item(message));
    proof {
        lemma_array_view(content);
        assert(json_items(content@) =~= Seq::empty().push(text_content(message@)));
    }
    object().with("content", Json::Array(content)).with("isError", json_bool(true))
}

/// What a tool call leads to.
#[derive(Debug, PartialEq)]
pub enum ToolStep {
    /// The call is answered at once; no action runs.
    Answer(Json),
    /// Run the action.
    Dispatch { name: String, arguments: Json, include_state_snapshot: bool },
}

/// A tool call's step in contracts.
pub enum ToolStepView {
    Answer(JsonView),
    Dispatch { name: Seq<char>, arguments: JsonView, include_state_snapshot: bool },
}

impl View for ToolStep {
    type V = ToolStepView;

    open spec fn view(&self) -> ToolStepView {
        match self {
            ToolStep::Answer(value) => ToolStepView::Answer(value@),
            ToolStep::Dispatch { name, arguments, include_state_snapshot } => ToolStepView::Dispatch {
                name: name@,
                arguments: arguments@,
                include_state_snapshot: *include_state_snapshot,
            },
        }
    }
}

/// Whether an action of that name is declared for agents.
pub open spec fn enabled_for_agents(actions: Seq<ActionView>, name: Seq<char>) -> bool {
    exists|i: int|
        0 <= i < actions.len() && (#[trigger] actions[i]).name == name
            && actions[i].audience.admits_agent()
}

/// The name that a tool call gives, empty where it gives none.
pub open spec fn called_name(params: Option<JsonView>) -> Seq<char> {
    match params {
        Some(params) => text_or(params.text_member("name"@), ""@),
        None => ""@,
    }
}

/// The arguments that a tool call gives, an empty object where it gives none.
pub open spec fn called_arguments(params: Option<JsonView>) -> JsonView {
    match member_of(params, "arguments"@) {
        Some(arguments) => arguments,
        None => empty_object(),
    }
}

/// What a tool call leads to: the tool must be in the catalog, and the action
/// behind it must still be declared for agents.
pub open spec fn tool_step(
    tools: Seq<ToolView>,
    actions: Seq<ActionView>,
    params: Option<JsonView>,
) -> ToolStepView {
    let name = called_name(params);
    match find_tool(tools, name) {
        None => ToolStepView::Answer(
            tool_failure("action "@ + debug_text(name) + " is not visible to this agent"@),
        ),
        Some(tool) => if !enabled_for_agents(actions, name) {
            ToolStepView::Answer(
                tool_failure("action "@ + debug_text(name) + " is not enabled"@),
            )
        } else {
            ToolStepView::Dispatch {
                name,
                arguments: called_arguments(params),
                include_state_snapshot: tool.include_state_snapshot,
            }
        },
    }
}

fn is_enabled_for_agents(actions: &Vec<ActionDef>, name: &str) -> (enabled: bool)
    ensures
        enabled == enabled_for_agents(action_views(actions@), name@),
{
    let mut i: usize = 0;
    while i < actions.len()
        invariant
            i <= actions@.len(),
            forall|k: int|
                0 <= k < i ==> !((#[trigger] action_views(actions@)[k]).name == name@
                    && action_views(actions@)[k].audience.admits_agent()),
        decreases actions@.len() - i,
    {
        if same(&actions[i].name, name) && actions[i].audience.agent() {
            proof {
                assert(action_views(actions@)[i as int].name == name@);
            }
            return true;
        }
        i += 1;
    }
    false
}

/// Decides a tool call, up to the action that it may run.
pub fn call_tool(catalog: &Catalog, actions: &Vec<ActionDef>, params: Option<&Json>) -> (step:
    ToolStep)
    ensures
        step@ == tool_step(
            tool_views(catalog.tools@),
            action_views(actions@),
            opt_json(params),
        ),
{
    let name: &str = match params {
        Some(params) => params.str_member_or("name", ""),
        None => "",
    };
    let tool: &ToolSchema = match catalog.get(name) {
        Some(tool) => tool,
        None => {
            return ToolStep::Answer(
                tool_error(
                    &concat3("action ", &debug_quote(name), " is not visible to this agent"),
                ),
            );
        },
    };
    if !is_enabled_for_agents(actions, name) {
        return ToolStep::Answer(
            tool_error(&concat3("action ", &debug_quote(name), " is not enabled")),
        );
    }
    let arguments: Json = match params {
        Some(params) => match params.get("arguments") {
            Some(arguments) => arguments.copy(),
            None => object(),
        },
        None => object(),
    };
    ToolStep::Dispatch {
        name: name.to_owned(),
        arguments,
        include_state_snapshot: tool.include_state_snapshot,
    }
}

/// The character that stands for six bits in the standard base64 alphabet.
pub open spec fn base64_char(bits: int) -> char {
    if bits < 26 {
        (65 + bits) as char
    } else if bits < 52 {
        (71 + bits) as char
    } else if bits < 62 {
        (bits - 4) as char
    } else if bits == 62 {
        '+'
    } else {
        '/'
    }
}

/// What base64 makes of bytes, with the standard alphabet and padding: four
/// characters for each three bytes.
pub open spec fn base64_text(bytes: Seq<u8>) -> Seq<char>
    decreases bytes.len(),
{
    if bytes.len() == 0 {
        Seq::empty()
    } else if bytes.len() == 1 {
        seq![base64_char(bytes[0] as int / 4), base64_char(bytes[0] % 4 * 16), '=', '=']
    } else if bytes.len() == 2 {
        seq![
            base64_char(bytes[0] as int / 4),
            base64_char(bytes[0] % 4 * 16 + bytes[1] / 16),
            base64_char(bytes[1] % 16 * 4),
            '=',
        ]
    } else {
        seq![
            base64_char(bytes[0] as int / 4),
            base64_char(bytes[0] % 4 * 16 + bytes[1] / 16),
            base64_char(bytes[1] % 16 * 4 + bytes[2] / 64),
            base64_char(bytes[2] as int % 64),
        ] + base64_text(bytes.skip(3))
    }
}

/// Whether the base64 of so many bytes fits in memory.
pub open spec fn encodable(len: nat) -> bool {
    4 * ((len + 2) / 3) <= isize::MAX
}

/// `base64`'s standard engine: the bytes in base64 with the standard alphabet
/// and padding.
#[verifier::external_body]
fn base64_encode(bytes: &Vec<u8>) -> (text: String)
    requires
        encodable(bytes@.len()),
    ensures
        text@ == base64_text(bytes@),
{
    base64::Engine::encode(&base64::engine::general_purpose::STANDARD, bytes)
}

/// A picture as text.
pub fn picture_text(png: &Vec<u8>) -> (text: String)
    requires
        encodable(png@.len()),
    ensures
        text@ == base64_text(png@),
{
    base64_encode(png)
}

/// What came of asking the surface for its picture.
pub enum Picture {
    /// There is none, or none was asked for.
    Absent,
    /// The picture, as text.
    Encoded(String),
    /// It could not be made.
    Failed(String),
}

/// The result of a tool call whose action ran.
pub open spec fn tool_result_json(
    name: Seq<char>,
    text: Seq<char>,
    ok: bool,
    picture: Picture,
) -> JsonView {
    match picture {
        Picture::Failed(message) => tool_failure(
            "state snapshot failed after `"@ + name + "`: "@ + message@,
        ),
        Picture::Absent => empty_object().with(
            "content"@,
            JsonView::Array(Seq::empty().push(text_content(text))),
        ).with("isError"@, JsonView::Bool(!ok)),
        Picture::Encoded(data) => empty_object().with(
            "content"@,
            JsonView::Array(Seq::empty().push(text_content(text)).push(image_content(data@))),
        ).with("isError"@, JsonView::Bool(!ok)),
    }
}

/// Whether a tool call's result takes the surface's picture: the action
/// succeeded and asks for it.
pub fn wants_picture(ok: bool, include_state_snapshot: bool) -> (wanted: bool)
    ensures
        wanted == (ok && include_state_snapshot),
{
    ok && include_state_snapshot
}

/// The result of a tool call whose action ran.
pub fn tool_result(name: &str, text: &str, ok: bool, picture: &Picture) -> (result: Json)
    ensures
        result@ == tool_result_json(name@, text@, ok, *picture),
{
    let mut content: Vec<Json> = Vec::new();
    content.push(text_item(text));
    match picture {
        Picture::Failed(message) => {
            return tool_error(
                &concat4("state snapshot failed after `", name, "`: ", message),
            );
        },
        Picture::Absent => {
            proof {
                lemma_array_view(content);
                assert(json_items(content@) =~= Seq::empty().push(text_content(text@)));
            }
        },
        Picture::Encoded(data) => {
            content.push(
                object().with("type", json_text("image")).with("data", json_text(data)).with(
                    "mimeType",
                    json_text("image/png"),
                ),
            );
            proof {
                lemma_array_view(content);
                assert(json_items(content@) =~= Seq::empty().push(text_content(text@)).push(
                    image_content(data@),
                ));
            }
        },
    }
    object().with("content", Json::Array(content)).with("isError", json_bool(!ok))
}

/// An action is run for a tool call only where it is declared for agents.
pub proof fn law_a_tool_call_runs_only_what_agents_may_call(
    tools: Seq<ToolView>,
    actions: Seq<ActionView>,
    params: Option<JsonView>,
)
    requires
        tool_step(tools, actions, params) is Dispatch,
    ensures
        enabled_for_agents(actions, called_name(params)),
        find_tool(tools, called_name(params)) is Some,
{
}

// Requests.

/// What is wrong with the protocol version of a request.
pub open spec fn version_problem(
    headers: Seq<FieldView>,
    message: JsonView,
    negotiated: Option<Seq<char>>,
) -> Option<Seq<char>> {
    if message.text_member("method"@) == Some("initialize"@) {
        None
    } else {
        match first_field(headers, "mcp-protocol-version"@) {
            Some(field) => match field.value {
                None => Some("invalid MCP-Protocol-Version header"@),
                Some(version) => stated_version_problem(version, negotiated),
            },
            None => stated_version_problem("2025-03-26"@, negotiated),
        }
    }
}

/// What is wrong with a stated version.
pub open spec fn stated_version_problem(
    version: Seq<char>,
    negotiated: Option<Seq<char>>,
) -> Option<Seq<char>> {
    if version != protocol_version() {
        Some(
            "unsupported MCP-Protocol-Version "@ + debug_text(version) + "; supported versions: "@
                + protocol_version(),
        )
    } else {
        match negotiated {
            None => Some("MCP session has not been initialized"@),
            Some(negotiated) => if version != negotiated {
                Some(
                    "MCP-Protocol-Version "@ + debug_text(version)
                        + " does not match negotiated version "@ + debug_text(negotiated),
                )
            } else {
                None
            },
        }
    }
}

fn check_stated_version(version: &str, negotiated: &Option<String>) -> (outcome: Result<(), String>)
    ensures
        reports(outcome, stated_version_problem(version@, opt_text(*negotiated))),
{
    if !same(version, "2025-06-18") {
        return Err(
            concat4(
                "unsupported MCP-Protocol-Version ",
                &debug_quote(version),
                "; supported versions: ",
                "2025-06-18",
            ),
        );
    }
    match negotiated {
        None => Err("MCP session has not been initialized".to_owned()),
        Some(negotiated) => if !same(version, negotiated) {
            Err(
                concat4(
                    "MCP-Protocol-Version ",
                    &debug_quote(version),
                    " does not match negotiated version ",
                    &debug_quote(negotiated),
                ),
            )
        } else {
            Ok(())
        },
    }
}

/// Whether a request speaks the version that its session negotiated. A starting
/// message need not.
pub fn protocol_version_allowed(headers: &Headers, message: &Json, negotiated: &Option<String>) -> (outcome:
    Result<(), String>)
    ensures
        reports(outcome, version_problem(headers@, message@, opt_text(*negotiated))),
{
    if is_method(message, "initialize") {
        return Ok(());
    }
    match headers.first("mcp-protocol-version") {
        Some(field) => match &field.value {
            None => Err("invalid MCP-Protocol-Version header".to_owned()),
            Some(version) => check_stated_version(version, negotiated),
        },
        None => check_stated_version("2025-03-26", negotiated),
    }
}

/// What a request to the tool endpoint leads to.
#[derive(Debug, PartialEq)]
pub enum PostStep {
    /// Refuse with a status and a plain text.
    Refuse { status: u16, text: &'static str },
    /// Answer at once.
    Answer(Reply),
    /// Handle the message. `attaching` is the identity it proposes; `session`
    /// is the session it acts in, where it proposes none.
    Handle { message: Json, attaching: Option<ClientIdentity>, session: Option<String> },
}

/// A request's step in contracts.
pub enum PostView {
    Refuse { status: u16, text: Seq<char> },
    Answer(ReplyView),
    Handle {
        message: JsonView,
        attaching: Option<IdentityView>,
        session: Option<Seq<char>>,
    },
}

impl View for PostStep {
    type V = PostView;

    open spec fn view(&self) -> PostView {
        match self {
            PostStep::Refuse { status, text } => PostView::Refuse { status: *status, text: text@ },
            PostStep::Answer(reply) => PostView::Answer(reply@),
            PostStep::Handle { message, attaching, session } => PostView::Handle {
                message: message@,
                attaching: opt_identity(*attaching),
                session: opt_text(*session),
            },
        }
    }
}

/// What a message leads to, given the outcome of parsing it.
pub open spec fn message_step(
    headers: Seq<FieldView>,
    parsed: Result<JsonView, Seq<char>>,
    negotiated: Option<Seq<char>>,
) -> PostView {
    match parsed {
        Err(message) => PostView::Answer(
            ReplyView {
                status: 400,
                body: rpc_error(JsonView::Null, "-32700"@, "parse error: "@ + message),
            },
        ),
        Ok(message) => match version_problem(headers, message, negotiated) {
            Some(problem) => PostView::Answer(
                ReplyView {
                    status: 400,
                    body: rpc_error(or_null(message.member("id"@)), "-32600"@, problem),
                },
            ),
            None => PostView::Handle {
                message,
                attaching: proposed_identity(message),
                session: if proposed_identity(message) is Some {
                    None
                } else {
                    nonblank(field_text(headers, "mcp-session-id"@))
                },
            },
        },
    }
}

/// What a request to the tool endpoint leads to: the origin first, then the
/// token, and only then the message.
pub open spec fn post_step(
    headers: Seq<FieldView>,
    body: Seq<u8>,
    token: Seq<char>,
    negotiated: Option<Seq<char>>,
) -> PostView {
    if !local_origin(headers) {
        PostView::Refuse { status: 403, text: "untrusted MCP Origin"@ }
    } else if !bears_token(headers, token) {
        PostView::Refuse { status: 401, text: "invalid MCP bearer token"@ }
    } else {
        message_step(headers, parsed_bytes(body), negotiated)
    }
}

/// Decides a message, given the outcome of parsing it.
pub fn mcp_message(
    headers: &Headers,
    parsed: Result<Json, String>,
    negotiated: &Option<String>,
) -> (step: PostStep)
    ensures
        step@ == message_step(headers@, parse_view(parsed), opt_text(*negotiated)),
{
    let message: Json = match parsed {
        Ok(message) => message,
        Err(complaint) => {
            return PostStep::Answer(
                Reply {
                    status: 400,
                    body: error(Json::Null, "-32700", &concat2("parse error: ", &complaint)),
                },
            );
        },
    };
    match protocol_version_allowed(headers, &message, negotiated) {
        Ok(()) => {},
        Err(problem) => {
            return PostStep::Answer(
                Reply { status: 400, body: error(id_or_null(&message), "-32600", &problem) },
            );
        },
    }
    let attaching: Option<ClientIdentity> = client_identity(&message);
    let session: Option<String> = if attaching.is_some() {
        None
    } else {
        session_id(headers)
    };
    PostStep::Handle { message, attaching, session }
}

/// Decides a request to the tool endpoint, up to handling its message.
pub fn mcp_post_request(
    headers: &Headers,
    body: &[u8],
    token: &str,
    negotiated: &Option<String>,
) -> (step: PostStep)
    ensures
        step@ == post_step(headers@, body@, token@, opt_text(*negotiated)),
{
    if !origin_allowed(headers) {
        return PostStep::Refuse { status: 403, text: "untrusted MCP Origin" };
    }
    if !authorized(headers, token) {
        return PostStep::Refuse { status: 401, text: "invalid MCP bearer token" };
    }
    mcp_message(headers, Json::parse_bytes(body), negotiated)
}

/// The answer to a read of the tool endpoint, which offers no stream of its
/// own.
pub fn mcp_get_request(headers: &Headers, token: &str) -> (answer: (u16, &'static str))
    ensures
        (answer.0, answer.1@) == (if !local_origin(headers@) {
            (403u16, "untrusted MCP Origin"@)
        } else if !bears_token(headers@, token@) {
            (401u16, "invalid MCP bearer token"@)
        } else {
            (405u16, ""@)
        }),
{
    if !origin_allowed(headers) {
        (403, "untrusted MCP Origin")
    } else if !authorized(headers, token) {
        (401, "invalid MCP bearer token")
    } else {
        (405, "")
    }
}

/// A message is handled only for a request from this machine that bears the
/// token.
pub proof fn law_only_authorized_local_requests_are_handled(
    headers: Seq<FieldView>,
    body: Seq<u8>,
    token: Seq<char>,
    negotiated: Option<Seq<char>>,
)
    requires
        post_step(headers, body, token, negotiated) is Handle,
    ensures
        local_origin(headers),
        bears_token(headers, token),
{
}

/// Outside of starting a session, only the one supported version is handled,
/// and only once a session negotiated it.
pub proof fn law_only_the_negotiated_version_is_handled(
    headers: Seq<FieldView>,
    message: JsonView,
    negotiated: Option<Seq<char>>,
)
    requires
        message.text_member("method"@) != Some("initialize"@),
        version_problem(headers, message, negotiated) is None,
    ensures
        field_text(headers, "mcp-protocol-version"@) == Some(protocol_version()),
        negotiated == Some(protocol_version()),
{
    reveal_strlit("2025-03-26");
    reveal_strlit("2025-06-18");
    assert("2025-03-26"@[6] != "2025-06-18"@[6]);
}

// Attaching.

/// Whether an agent is the one that is admitted for a client: its id is minted by
/// the host, and its label is chosen among those that nobody in the room uses.
pub open spec fn admitted_agent(
    agent: AttachedAgent,
    identity: IdentityView,
    taken: Seq<Seq<char>>,
    session: Seq<char>,
    fresh: Seq<char>,
) -> bool {
    &&& agent.session@ == session
    &&& agent.participant_id@ == "agent-"@ + session
    &&& agent.label@ == chosen_label(text_or(identity.title, identity.name), taken, fresh)
    &&& agent.client_name@ == identity.name
    &&& opt_text(agent.client_version) == identity.version
    &&& agent.responsible is None
}

/// The agent that is admitted for a client in a session of the host's making.
pub fn admit_agent(
    identity: &ClientIdentity,
    session: &str,
    presence_labels: &Vec<String>,
    agents: &Vec<AttachedAgent>,
    fresh: &str,
) -> (agent: AttachedAgent)
    ensures
        admitted_agent(
            agent,
            identity@,
            texts(presence_labels@) + agent_labels(agents@),
            session@,
            fresh@,
        ),
{
    let proposed: &str = match &identity.title {
        Some(title) => title.as_str(),
        None => identity.name.as_str(),
    };
    AttachedAgent {
        session: session.to_owned(),
        participant_id: concat2("agent-", session),
        label: unique_participant_label_with(proposed, presence_labels, agents, fresh),
        client_name: identity.name.clone(),
        client_version: copy_opt(&identity.version),
        responsible: None,
    }
}

/// Admits a client in a new session.
pub fn attach_mcp_agent(
    identity: &ClientIdentity,
    presence_labels: &Vec<String>,
    agents: &Vec<AttachedAgent>,
) -> (agent: AttachedAgent)
    ensures
        exists|session: Seq<char>, fresh: Seq<char>|
            fresh_hex(session) && fresh_hex(fresh) && #[trigger] admitted_agent(
                agent,
                identity@,
                texts(presence_labels@) + agent_labels(agents@),
                session,
                fresh,
            ),
{
    let session: String = fresh_id();
    let proposed: &str = match &identity.title {
        Some(title) => title.as_str(),
        None => identity.name.as_str(),
    };
    let label: String = unique_participant_label(proposed, presence_labels, agents);
    let agent: AttachedAgent = AttachedAgent {
        participant_id: concat2("agent-", &session),
        session,
        label,
        client_name: identity.name.clone(),
        client_version: copy_opt(&identity.version),
        responsible: None,
    };
    proof {
        let taken = texts(presence_labels@) + agent_labels(agents@);
        let fresh = choose|fresh: Seq<char>|
            fresh_hex(fresh) && label@ == #[trigger] chosen_label(proposed@, taken, fresh);
        assert(fresh_hex(session@));
        assert(admitted_agent(agent, identity@, taken, session@, fresh));
    }
    agent
}

/// Which places in a list hold an agent of a session.
pub open spec fn acts_in(agents: Seq<AttachedAgent>, session: Seq<char>) -> spec_fn(int) -> bool {
    |i: int| agents[i].session@ == session
}

/// Which attached agent acts in a session.
pub open spec fn agent_in(agents: Seq<AttachedAgent>, session: Option<Seq<char>>) -> Option<int> {
    match session {
        Some(session) => first_index(agents.len(), acts_in(agents, session)),
        None => None,
    }
}

fn position_of(agents: &Vec<AttachedAgent>, session: Option<&str>) -> (position: Option<usize>)
    ensures
        match position {
            Some(i) => i < agents@.len() && agent_in(agents@, opt_str(session)) == Some(i as int),
            None => agent_in(agents@, opt_str(session)) is None,
        },
{
    let named: &str = match session {
        Some(named) => named,
        None => {
            return None;
        },
    };
    let ghost acts = acts_in(agents@, named@);
    let mut i: usize = 0;
    while i < agents.len()
        invariant
            i <= agents@.len(),
            opt_str(session) == Some(named@),
            acts == acts_in(agents@, named@),
            first_index(i as nat, acts) is None,
        decreases agents@.len() - i,
    {
        let found: bool = same(&agents[i].session, named);
        proof {
            assert(acts(i as int) == found);
        }
        if found {
            proof {
                assert(first_index((i + 1) as nat, acts) == Some(i as int));
                lemma_first_index_grows((i + 1) as nat, agents@.len(), acts);
            }
            return Some(i);
        }
        i += 1;
    }
    None
}

/// Who signs what a message writes: the agent that attached in its session, or
/// an agent that never said who it is.
pub open spec fn signing_actor(
    agents: Seq<AttachedAgent>,
    session: Option<Seq<char>>,
) -> ActorView {
    match agent_in(agents, session) {
        Some(i) => ActorView {
            caller: Caller::Agent,
            label: Some(agents[i].label@),
            participant_id: Some(agents[i].participant_id@),
            hue: None,
            responsible: opt_text(agents[i].responsible),
        },
        None => ActorView {
            caller: Caller::Agent,
            label: None,
            participant_id: None,
            hue: None,
            responsible: None,
        },
    }
}

/// Who signs what a message writes.
pub fn mcp_actor(agents: &Vec<AttachedAgent>, session: Option<&str>) -> (actor: Actor)
    ensures
        actor@ == signing_actor(agents@, opt_str(session)),
{
    match position_of(agents, session) {
        Some(i) => Actor::attached(Caller::Agent, &agents[i]),
        None => Actor::anonymous(Caller::Agent),
    }
}

/// Who is shown as present because of a message: the agent that attached in its
/// session.
pub open spec fn present_agent(agents: Seq<AttachedAgent>, session: Option<Seq<char>>) -> Option<
    ParticipantView,
> {
    match agent_in(agents, session) {
        Some(i) => Some(
            ParticipantView {
                id: agents[i].participant_id@,
                label: agents[i].label@,
                kind: ParticipantKind::Agent,
            },
        ),
        None => None,
    }
}

/// Who is shown as present because of a message: the agent that attached in its
/// session.
pub fn mcp_participant(agents: &Vec<AttachedAgent>, session: Option<&str>) -> (participant: Option<
    Participant,
>)
    ensures
        match participant {
            Some(participant) => present_agent(agents@, opt_str(session)) == Some(participant@),
            None => present_agent(agents@, opt_str(session)) is None,
        },
{
    match position_of(agents, session) {
        Some(i) => Some(Participant::agent(&agents[i].participant_id, &agents[i].label)),
        None => None,
    }
}

/// A message without a session, or in one where nobody attached, borrows nobody's
/// identity: what it writes is signed with the generic name.
pub proof fn law_no_session_borrows_an_identity(
    agents: Seq<AttachedAgent>,
    session: Option<Seq<char>>,
)
    requires
        session matches Some(session) ==> forall|i: int|
            0 <= i < agents.len() ==> (#[trigger] agents[i]).session@ != session,
    ensures
        signing_actor(agents, session).signature() == "agent"@,
        signing_actor(agents, session).participant_id is None,
{
    if session is Some {
        let named = session->0;
        let acts = acts_in(agents, named);
        lemma_first_index(agents.len(), acts);
        if first_index(agents.len(), acts) is Some {
            let i = first_index(agents.len(), acts)->0;
            assert(acts(i));
            assert(agents[i].session@ == named);
        }
    }
}

/// The host gives every agent that it admits a label, never an empty one.
pub proof fn law_an_admitted_agent_has_a_label(
    agent: AttachedAgent,
    identity: IdentityView,
    taken: Seq<Seq<char>>,
    session: Seq<char>,
    fresh: Seq<char>,
)
    requires
        admitted_agent(agent, identity, taken, session, fresh),
    ensures
        agent.label@.len() > 0,
{
    law_a_chosen_label_is_never_empty(text_or(identity.title, identity.name), taken, fresh);
}

/// An agent that attached signs with the label that the host gave it, in its own
/// session and in no other.
pub proof fn law_an_attached_agent_signs_with_its_label(
    agents: Seq<AttachedAgent>,
    at: int,
    session: Seq<char>,
)
    requires
        0 <= at < agents.len(),
        agents[at].label@.len() > 0,
        forall|i: int, j: int|
            0 <= i < j < agents.len() ==> (#[trigger] agents[i]).session@ != (
            #[trigger] agents[j]).session@,
    ensures
        signing_actor(agents, Some(agents[at].session@)).signature() == agents[at].label@,
        signing_actor(agents, Some(agents[at].session@)).participant_id == Some(
            agents[at].participant_id@,
        ),
        session != agents[at].session@ ==> agent_in(agents, Some(session)) != Some(at),
{
    let named = agents[at].session@;
    let acts = acts_in(agents, named);
    lemma_first_index(agents.len(), acts);
    assert(acts(at));
    let i = first_index(agents.len(), acts)->0;
    assert(acts(i));
    assert(agents[i].session@ == agents[at].session@);
    assert(i == at);
    let others = acts_in(agents, session);
    lemma_first_index(agents.len(), others);
    if session != named && first_index(agents.len(), others) == Some(at) {
        assert(others(at));
    }
}

/// What an admitted agent is told about itself.
pub open spec fn participant_meta(id: Seq<char>, label: Seq<char>, session: Seq<char>) -> JsonView {
    empty_object().with(
        "ag-ui-surface/participant"@,
        empty_object().with("id"@, JsonView::Text(id)).with("label"@, JsonView::Text(label)).with(
            "session"@,
            JsonView::Text(session),
        ),
    )
}

/// Whether an answer admits the agent: it carries a result that is an object.
pub open spec fn admitting(answer: JsonView) -> bool {
    answer.member("result"@) matches Some(value) && value is Object
}

/// An answer that admits an agent, with what the agent is told about itself.
pub open spec fn welcomed(
    answer: JsonView,
    id: Seq<char>,
    label: Seq<char>,
    session: Seq<char>,
) -> JsonView {
    answer.set(
        "result"@,
        answer.member("result"@)->0.set("_meta"@, participant_meta(id, label, session)),
    )
}

/// Whether an answer admits the agent: it carries a result that is an object.
pub fn admits(answer: &Json) -> (result: bool)
    ensures
        result == admitting(answer@),
{
    match answer.get("result") {
        Some(value) => value.is_object(),
        None => false,
    }
}

/// The answer that admits an agent, with what it is told about itself.
pub fn with_participant(answer: Json, agent: &AttachedAgent) -> (result: Json)
    requires
        admitting(answer@),
    ensures
        result@ == welcomed(answer@, agent.participant_id@, agent.label@, agent.session@),
{
    let value: Json = match answer.get("result") {
        Some(value) => value.copy(),
        None => Json::Null,
    };
    let meta: Json = object().with(
        "ag-ui-surface/participant",
        object().with("id", json_text(&agent.participant_id)).with(
            "label",
            json_text(&agent.label),
        ).with("session", json_text(&agent.session)),
    );
    answer.set("result", value.set("_meta", meta))
}

} // verus!
