//! What agents are answered: that answers carry the id of what they answer, that
//! a call runs what it names, and that what is written can be read.

use vstd::prelude::*;

use crate::actions::ActionView;
use crate::caller::AttachedAgent;
use crate::gate::{field_text, FieldView};
use crate::json::{
    empty_object, group_reading, item_under, law_texts_are_read_back, lists_under, read_texts,
    under, JsonView,
};
use crate::lists::{lemma_first_index, lemma_no_problem};
use crate::mcp::{
    acts_in, admitted_agent, admitting, agent_in, catalog_problem, find_tool, handle_step,
    message_step, named_before, object_schema, present_agent, proposed_identity, rpc_error,
    rpc_result, signing_actor, text_content, tool_failure, tool_of, tool_problem, tool_result_json,
    tool_step, version_problem, welcomed, wire_tool, HandleView, IdentityView, Picture, PostView,
    ToolStepView, ToolView,
};
use crate::text::{blank, lemma_blank, opt_text, trimmed};
use crate::text_laws::{law_trimming_twice_is_trimming, snug};

verus! {

/// The names and words of the protocol differ from each other.
proof fn lemma_names()
    ensures
        "jsonrpc"@.len() == 7,
        "jsonrpc"@[0] == 'j',
        "id"@.len() == 2,
        "result"@.len() == 6,
        "error"@.len() == 5,
        "error"@[0] == 'e',
        "code"@.len() == 4,
        "code"@[0] == 'c',
        "message"@.len() == 7,
        "message"@[0] == 'm',
        "initialize"@.len() == 10,
        "initialize"@[0] == 'i',
        "ping"@.len() == 4,
        "ping"@[0] == 'p',
        "tools/list"@.len() == 10,
        "tools/list"@[0] == 't',
        "tools/list"@[6] == 'l',
        "tools/call"@.len() == 10,
        "tools/call"@[0] == 't',
        "tools/call"@[6] == 'c',
        "content"@.len() == 7,
        "content"@[0] == 'c',
        "isError"@.len() == 7,
        "isError"@[0] == 'i',
        "protocolVersion"@.len() == 15,
        "capabilities"@.len() == 12,
        "serverInfo"@.len() == 10,
        "serverInfo"@[0] == 's',
        "name"@.len() == 4,
        "name"@[0] == 'n',
        "version"@.len() == 7,
        "version"@[0] == 'v',
        "description"@.len() == 11,
        "description"@[0] == 'd',
        "inputSchema"@.len() == 11,
        "inputSchema"@[0] == 'i',
        "_meta"@.len() == 5,
        "_meta"@[0] == '_',
        "model"@.len() == 5,
        "model"@[0] == 'm',
        "app"@.len() == 3,
        "tools"@.len() == 5,
        "tools"@[0] == 't',
        "type"@.len() == 4,
        "type"@[0] == 't',
        "type"@[1] == 'y',
        "text"@.len() == 4,
        "text"@[0] == 't',
        "text"@[1] == 'e',
        "data"@.len() == 4,
        "data"@[0] == 'd',
        "mimeType"@.len() == 8,
{
    reveal_strlit("jsonrpc");
    reveal_strlit("id");
    reveal_strlit("result");
    reveal_strlit("error");
    reveal_strlit("code");
    reveal_strlit("message");
    reveal_strlit("initialize");
    reveal_strlit("ping");
    reveal_strlit("tools/list");
    reveal_strlit("tools/call");
    reveal_strlit("content");
    reveal_strlit("isError");
    reveal_strlit("protocolVersion");
    reveal_strlit("capabilities");
    reveal_strlit("serverInfo");
    reveal_strlit("name");
    reveal_strlit("version");
    reveal_strlit("description");
    reveal_strlit("inputSchema");
    reveal_strlit("_meta");
    reveal_strlit("model");
    reveal_strlit("app");
    reveal_strlit("tools");
    reveal_strlit("type");
    reveal_strlit("text");
    reveal_strlit("data");
    reveal_strlit("mimeType");
}

proof fn lemma_no_such_tool(tools: Seq<ToolView>, name: Seq<char>)
    ensures
        find_tool(tools, name) is Some <==> exists|k: int|
            0 <= k < tools.len() && (#[trigger] tools[k]).name == name,
        find_tool(tools, name) matches Some(tool) ==> tool.name == name && tools.contains(tool),
    decreases tools.len(),
{
    if tools.len() > 0 {
        let rest = tools.skip(1);
        lemma_no_such_tool(rest, name);
        if tools[0].name == name {
            assert(tools.contains(tools[0]));
        } else {
            if find_tool(rest, name) is Some {
                let tool = find_tool(rest, name)->0;
                let k = choose|k: int| 0 <= k < rest.len() && rest[k] == tool;
                assert(tools[k + 1] == tool);
            }
            if exists|k: int| 0 <= k < tools.len() && (#[trigger] tools[k]).name == name {
                let k = choose|k: int| 0 <= k < tools.len() && (#[trigger] tools[k]).name == name;
                assert(rest[k - 1].name == name);
            }
        }
    }
}

/// What a message is answered at once, and `null` where it is not.
pub open spec fn answer_at_once(step: HandleView) -> JsonView {
    match step {
        HandleView::Answer(answer) => answer,
        _ => JsonView::Null,
    }
}

/// Whether a message is a request: an object of the protocol's version with a
/// method and an id.
pub open spec fn requests(message: JsonView, method: Seq<char>, id: JsonView) -> bool {
    &&& message is Object
    &&& message.text_member("jsonrpc"@) == Some("2.0"@)
    &&& message.text_member("method"@) == Some(method)
    &&& message.member("id"@) == Some(id)
}

/// An answer carries the id of what it answers and the result, and an error the
/// id, the code and the message.
pub proof fn law_an_answer_carries_its_id(
    id: JsonView,
    result: JsonView,
    code: Seq<char>,
    message: Seq<char>,
)
    ensures
        ({
            let good = rpc_result(id, result);
            let bad = rpc_error(id, code, message);
            &&& good.member("id"@) == Some(id) && bad.member("id"@) == Some(id)
            &&& good.text_member("jsonrpc"@) == Some("2.0"@) && bad.text_member("jsonrpc"@)
                == Some("2.0"@)
            &&& good.member("result"@) == Some(result) && good.member("error"@) is None
            &&& bad.member("result"@) is None
            &&& under(bad, "error"@).member("code"@) == Some(JsonView::Number(code))
            &&& under(bad, "error"@).text_member("message"@) == Some(message)
        }),
{
    broadcast use group_reading;

    lemma_names();
}

/// A call of a tool that is in the catalog, and whose action is still declared
/// for agents, runs that very action with the arguments of the call, an empty
/// object where it gives none; and what answers the call carries the call's id.
pub proof fn law_a_call_runs_what_it_names(
    tools: Seq<ToolView>,
    actions: Seq<ActionView>,
    server_version: Seq<char>,
    message: JsonView,
    id: JsonView,
    params: JsonView,
    name: Seq<char>,
    result: JsonView,
)
    requires
        requests(message, "tools/call"@, id),
        message.member("params"@) == Some(params),
        params.text_member("name"@) == Some(name),
        exists|k: int| 0 <= k < tools.len() && (#[trigger] tools[k]).name == name,
        exists|i: int|
            0 <= i < actions.len() && (#[trigger] actions[i]).name == name && (
            actions[i].audience is Agent || actions[i].audience is Both),
    ensures
        handle_step(tools, server_version, message) matches HandleView::Call {
            id: called,
            params: given,
        } && {
            &&& called == id
            &&& rpc_result(called, result).member("id"@) == Some(id)
            &&& rpc_result(called, result).member("result"@) == Some(result)
            &&& tool_step(tools, actions, given) matches ToolStepView::Dispatch {
                name: run,
                arguments,
                include_state_snapshot,
            } && {
                &&& run == name
                &&& params.member("arguments"@) matches Some(own) ==> arguments == own
                &&& params.member("arguments"@) is None ==> arguments == empty_object()
                &&& exists|k: int|
                    0 <= k < tools.len() && (#[trigger] tools[k]).name == name
                        && tools[k].include_state_snapshot == include_state_snapshot
            }
        },
{
    lemma_names();
    law_an_answer_carries_its_id(id, result, Seq::empty(), Seq::empty());
    lemma_no_such_tool(tools, name);
    let tool = find_tool(tools, name)->0;
    let k = choose|k: int| 0 <= k < tools.len() && tools[k] == tool;
    assert(tools[k].name == name);
    let i = choose|i: int|
        0 <= i < actions.len() && (#[trigger] actions[i]).name == name && (
        actions[i].audience is Agent || actions[i].audience is Both);
    assert(actions[i].audience.admits_agent());
}

/// A call of what is not in the catalog, or of what no action declares for
/// agents, runs nothing and is answered as a failed call.
pub proof fn law_a_call_of_anything_else_runs_nothing(
    tools: Seq<ToolView>,
    actions: Seq<ActionView>,
    params: JsonView,
    name: Seq<char>,
)
    requires
        params.text_member("name"@) == Some(name),
        (forall|k: int| 0 <= k < tools.len() ==> (#[trigger] tools[k]).name != name) || (forall|
            i: int,
        |
            0 <= i < actions.len() && (#[trigger] actions[i]).name == name
                ==> actions[i].audience is Human),
    ensures
        tool_step(tools, actions, Some(params)) matches ToolStepView::Answer(answer)
            && answer.truth_member("isError"@) == Some(true),
{
    broadcast use group_reading;

    lemma_names();
    lemma_no_such_tool(tools, name);
}

/// Every message is answered once at most: a notification is not answered at
/// all, and every other message is answered under its own id, at once or when
/// its call has run.
pub proof fn law_every_request_is_answered_under_its_id(
    tools: Seq<ToolView>,
    server_version: Seq<char>,
    message: JsonView,
    method: Seq<char>,
    id: JsonView,
)
    requires
        requests(message, method, id),
    ensures
        match handle_step(tools, server_version, message) {
            HandleView::Accepted => false,
            HandleView::Answer(answer) => method != "tools/call"@ && answer.member("id"@) == Some(
                id,
            ),
            HandleView::Initialized { answer, .. } => method == "initialize"@ && answer.member(
                "id"@,
            ) == Some(id),
            HandleView::Call { id: called, .. } => method == "tools/call"@ && called == id,
        },
{
    broadcast use group_reading;

    lemma_names();
}

/// A message with a method and without an id is taken and not answered; what is
/// no message of the protocol is answered with an error.
pub proof fn law_notifications_are_taken_and_garbage_is_refused(
    tools: Seq<ToolView>,
    server_version: Seq<char>,
    message: JsonView,
)
    ensures
        ({
            let sound = message is Object && message.text_member("jsonrpc"@) == Some("2.0"@)
                && message.text_member("method"@) is Some;
            let step = handle_step(tools, server_version, message);
            let answer = answer_at_once(step);
            &&& sound && message.member("id"@) is None ==> step is Accepted
            &&& step is Accepted ==> sound
            &&& !sound ==> step is Answer && under(answer, "error"@).member("code"@) == Some(
                JsonView::Number("-32600"@),
            ) && answer.member("id"@) == Some(under(message, "id"@))
        }),
{
    broadcast use group_reading;

    lemma_names();
}

/// A session starts where the client asks for a version as a text: the host
/// answers with the version that it speaks, remembers that version, and says
/// who it is.
pub proof fn law_a_session_starts_in_the_hosts_version(
    tools: Seq<ToolView>,
    server_version: Seq<char>,
    message: JsonView,
    id: JsonView,
)
    requires
        requests(message, "initialize"@, id),
    ensures
        match (
            under(message, "params"@).text_member("protocolVersion"@),
            handle_step(tools, server_version, message),
        ) {
            (Some(_), HandleView::Initialized { version, answer }) => {
                let result = under(answer, "result"@);
                &&& version == "2025-06-18"@
                &&& result.text_member("protocolVersion"@) == Some(version)
                &&& under(result, "serverInfo"@).text_member("name"@) == Some("ag-ui-surface"@)
                &&& under(result, "serverInfo"@).text_member("version"@) == Some(server_version)
                &&& under(under(result, "capabilities"@), "tools"@).truth_member("listChanged"@)
                    == Some(false)
            },
            (None, HandleView::Answer(answer)) => under(answer, "error"@).member("code"@) == Some(
                JsonView::Number("-32602"@),
            ),
            _ => false,
        },
{
    broadcast use group_reading;

    lemma_names();
}

/// What is listed of a tool is its name, its description, its schema and whom it
/// is for.
pub proof fn law_a_listed_tool_is_told_in_full(tool: ToolView)
    ensures
        ({
            let told = wire_tool(tool);
            &&& told.text_member("name"@) == Some(tool.name)
            &&& told.text_member("description"@) == Some(tool.description)
            &&& told.member("inputSchema"@) == Some(tool.input_schema)
            &&& read_texts(under(under(under(told, "_meta"@), "ui"@), "visibility"@))
                == tool.visibility
        }),
{
    broadcast use group_reading;

    lemma_names();
    law_texts_are_read_back(tool.visibility);
}

/// An action stands in the catalog under its own name, with its description and
/// its parameters; it is for the model, and for the person's app exactly where
/// the person may run it too.
pub proof fn law_a_tool_is_its_action(action: ActionView)
    requires
        action.audience.admits_agent(),
    ensures
        ({
            let tool = tool_of(action);
            &&& tool.name == action.name
            &&& tool.description == action.description
            &&& tool.input_schema == action.parameters
            &&& tool.include_state_snapshot == action.include_state_snapshot
            &&& tool.visibility.contains("model"@)
            &&& tool.visibility.contains("app"@) <==> action.audience is Both
            &&& action.audience.admits_human() <==> action.audience is Both
        }),
{
    lemma_names();
    let tool = tool_of(action);
    assert(tool.visibility[0] == "model"@);
    if action.audience is Both {
        assert(tool.visibility[1] == "app"@);
    }
}

/// Asked for its tools, the host lists the whole catalog in order; asked whether
/// it is there, it answers with nothing; asked for anything that it does not
/// know, it says so and names what it was asked for.
pub proof fn law_the_host_lists_its_catalog(
    tools: Seq<ToolView>,
    server_version: Seq<char>,
    message: JsonView,
    method: Seq<char>,
    id: JsonView,
)
    requires
        requests(message, method, id),
    ensures
        ({
            let answer = answer_at_once(handle_step(tools, server_version, message));
            let result = under(answer, "result"@);
            let error = under(answer, "error"@);
            &&& method == "tools/list"@ ==> {
                &&& lists_under(result, "tools"@, tools.len())
                &&& forall|k: int|
                    0 <= k < tools.len() ==> #[trigger] item_under(result, "tools"@, k)
                        == wire_tool(tools[k])
            }
            &&& method == "ping"@ ==> answer.member("result"@) == Some(empty_object())
            &&& method != "tools/list"@ && method != "ping"@ && method != "initialize"@ && method
                != "tools/call"@ ==> {
                &&& error.member("code"@) == Some(JsonView::Number("-32601"@))
                &&& error.text_member("message"@) matches Some(text) && method.is_suffix_of(text)
            }
        }),
{
    broadcast use group_reading;

    lemma_names();
    let text = "method not found: "@ + method;
    assert(text.subrange(text.len() - method.len(), text.len() as int) =~= method);
}

/// What comes back from an action that ran is its text as it is, marked as an
/// error exactly where the action failed, and the picture behind it where there
/// is one; a picture that could not be made makes the call a failed one that
/// names the action and says why.
pub proof fn law_a_result_carries_what_the_action_said(
    name: Seq<char>,
    text: Seq<char>,
    ok: bool,
    picture: Picture,
)
    ensures
        ({
            let result = tool_result_json(name, text, ok, picture);
            let first = item_under(result, "content"@, 0);
            let second = item_under(result, "content"@, 1);
            &&& first.text_member("type"@) == Some("text"@)
            &&& !(picture is Failed) ==> result.truth_member("isError"@) == Some(!ok)
                && first.text_member("text"@) == Some(text)
            &&& picture is Absent ==> lists_under(result, "content"@, 1)
            &&& picture matches Picture::Encoded(data) ==> {
                &&& lists_under(result, "content"@, 2)
                &&& second.text_member("type"@) == Some("image"@)
                &&& second.text_member("data"@) == Some(data@)
                &&& second.text_member("mimeType"@) == Some("image/png"@)
            }
            &&& picture matches Picture::Failed(message) ==> {
                &&& result.truth_member("isError"@) == Some(true)
                &&& first.text_member("text"@) matches Some(told) && message@.is_suffix_of(told)
                    && told.len() >= name.len() + message@.len()
            }
        }),
{
    broadcast use group_reading;

    lemma_names();
    if let Picture::Failed(message) = picture {
        let told = "state snapshot failed after `"@ + name + "`: "@ + message@;
        assert(told.subrange(told.len() - message@.len(), told.len() as int) =~= message@);
    }
}

/// A failed call is marked as an error and says why.
pub proof fn law_a_failed_call_says_why(message: Seq<char>)
    ensures
        tool_failure(message).truth_member("isError"@) == Some(true),
        lists_under(tool_failure(message), "content"@, 1),
        item_under(tool_failure(message), "content"@, 0).text_member("text"@) == Some(message),
        text_content(message).text_member("type"@) == Some("text"@),
{
    broadcast use group_reading;

    lemma_names();
}

/// Who a client says it is comes from its starting message alone: the name, the
/// version and the title that stand there, trimmed, and without a name it is
/// unidentified.
pub proof fn law_a_client_is_who_its_first_message_says(message: JsonView, info: JsonView)
    ensures
        message.text_member("method"@) != Some("initialize"@) ==> proposed_identity(message) is None,
        proposed_identity(message) is Some <==> message.text_member("method"@) == Some(
            "initialize"@,
        ) && under(message, "params"@).member("clientInfo"@) is Some,
        message.text_member("method"@) == Some("initialize"@) && under(
            message,
            "params"@,
        ).member("clientInfo"@) == Some(info) ==> {
            let identity = proposed_identity(message)->0;
            &&& info.text_member("name"@) matches Some(name) ==> identity.name == (if blank(name) {
                "unidentified agent"@
            } else {
                trimmed(name)
            })
            &&& info.text_member("name"@) is None ==> identity.name == "unidentified agent"@
            &&& info.text_member("version"@) matches Some(version) ==> identity.version == (
            if blank(version) {
                None
            } else {
                Some(trimmed(version))
            })
            &&& info.text_member("version"@) is None ==> identity.version is None
            &&& info.text_member("title"@) matches Some(title) ==> identity.title == (
            if blank(title) {
                None
            } else {
                Some(trimmed(title))
            })
            &&& info.text_member("title"@) is None ==> identity.title is None
        },
{
}

/// A request in the version that its session negotiated is accepted, and a
/// starting one is accepted in any version.
pub proof fn law_the_negotiated_version_is_accepted(
    headers: Seq<FieldView>,
    message: JsonView,
    negotiated: Option<Seq<char>>,
)
    ensures
        message.text_member("method"@) == Some("initialize"@) ==> version_problem(
            headers,
            message,
            negotiated,
        ) is None,
        field_text(headers, "mcp-protocol-version"@) == Some("2025-06-18"@) && negotiated == Some(
            "2025-06-18"@,
        ) ==> version_problem(headers, message, negotiated) is None,
{
}

/// What is not JSON, or is in a wrong version, is answered with an error and not
/// handled; every other message is handled as it came, in the session that its
/// request names unless it starts one.
pub proof fn law_an_accepted_message_is_handled_as_it_came(
    headers: Seq<FieldView>,
    parsed: Result<JsonView, Seq<char>>,
    negotiated: Option<Seq<char>>,
)
    ensures
        match (parsed, message_step(headers, parsed, negotiated)) {
            (Err(complaint), PostView::Answer(reply)) => {
                let error = under(reply.body, "error"@);
                &&& reply.status == 400
                &&& reply.body.member("id"@) == Some(JsonView::Null)
                &&& error.member("code"@) == Some(JsonView::Number("-32700"@))
                &&& error.text_member("message"@) matches Some(text) && complaint.is_suffix_of(
                    text,
                )
            },
            (Ok(message), PostView::Answer(reply)) => {
                let error = under(reply.body, "error"@);
                &&& reply.status == 400
                &&& error.member("code"@) == Some(JsonView::Number("-32600"@))
                &&& error.text_member("message"@) == version_problem(headers, message, negotiated)
                &&& message.member("id"@) matches Some(id) ==> reply.body.member("id"@) == Some(
                    id,
                )
            },
            (Ok(message), PostView::Handle { message: handled, attaching, session }) => {
                &&& version_problem(headers, message, negotiated) is None
                &&& handled == message
                &&& attaching == proposed_identity(message)
                &&& attaching is Some ==> session is None
                &&& attaching is None ==> match field_text(headers, "mcp-session-id"@) {
                    Some(named) if !blank(named) => session == Some(trimmed(named)),
                    _ => session is None,
                }
            },
            _ => false,
        },
{
    broadcast use group_reading;

    lemma_names();
    if let Err(complaint) = parsed {
        let text = "parse error: "@ + complaint;
        assert(text.subrange(text.len() - complaint.len(), text.len() as int) =~= complaint);
    }
}

/// Actions make a catalog exactly where those that agents see have names that say
/// something, no two of them have one name, and each takes an object; what only
/// people see is of no account.
pub proof fn law_actions_that_agents_see_make_a_catalog(actions: Seq<ActionView>)
    ensures
        catalog_problem(actions) is None <==> {
            &&& forall|i: int|
                0 <= i < actions.len() && (#[trigger] actions[i]).audience.admits_agent()
                    ==> !blank(actions[i].name) && (actions[i].parameters.member("type"@)
                    == Some(JsonView::Text("object"@)))
            &&& forall|i: int, j: int|
                0 <= i < j < actions.len() && (#[trigger] actions[i]).audience.admits_agent() && (
                #[trigger] actions[j]).audience.admits_agent() ==> actions[i].name
                    != actions[j].name
        },
{
    let problem = |i: int| tool_problem(actions, i);
    lemma_no_problem(actions.len(), problem);
    if catalog_problem(actions) is None {
        assert forall|i: int|
            0 <= i < actions.len() && (#[trigger] actions[i]).audience.admits_agent() implies !blank(
            actions[i].name,
        ) && (actions[i].parameters.member("type"@) == Some(JsonView::Text("object"@))) by {
            assert(problem(i) is None);
            assert(object_schema(actions[i].parameters));
        }
        assert forall|i: int, j: int|
            0 <= i < j < actions.len() && (#[trigger] actions[i]).audience.admits_agent() && (
            #[trigger] actions[j]).audience.admits_agent() implies actions[i].name
            != actions[j].name by {
            assert(problem(j) is None);
            assert(!named_before(actions, j));
        }
    } else {
        let j = choose|j: int| 0 <= j < actions.len() && (#[trigger] problem(j)) is Some;
        assert(actions[j].audience.admits_agent());
        if named_before(actions, j) {
            let i = choose|i: int|
                0 <= i < j && (#[trigger] actions[i]).audience.admits_agent() && actions[i].name
                    == actions[j].name;
            assert(actions[i].name == actions[j].name);
        }
    }
}

/// An answer that is a result admits whoever asked, and none that is an error
/// does.
pub proof fn law_only_a_result_lets_an_agent_in(
    id: JsonView,
    code: Seq<char>,
    message: Seq<char>,
    version: Seq<char>,
)
    ensures
        admitting(rpc_result(id, crate::mcp::welcome(version))),
        !admitting(rpc_error(id, code, message)),
{
    broadcast use group_reading;

    lemma_names();
}

/// An agent that is let in reads in the answer the id, the label and the session
/// that it has from now on, and everything else as it was.
pub proof fn law_an_agent_is_told_who_it_is(
    answer: JsonView,
    id: Seq<char>,
    label: Seq<char>,
    session: Seq<char>,
    name: Seq<char>,
)
    requires
        answer is Object,
        admitting(answer),
    ensures
        ({
            let told = welcomed(answer, id, label, session);
            let own = under(
                under(under(told, "result"@), "_meta"@),
                "ag-ui-surface/participant"@,
            );
            &&& under(own, "id"@) == JsonView::Text(id)
            &&& under(own, "label"@) == JsonView::Text(label)
            &&& under(own, "session"@) == JsonView::Text(session)
            &&& name != "result"@ ==> told.member(name) == answer.member(name)
            &&& name != "_meta"@ ==> under(told, "result"@).member(name) == under(
                answer,
                "result"@,
            ).member(name)
        }),
{
    broadcast use group_reading;

    reveal_strlit("id");
    reveal_strlit("label");
    reveal_strlit("session");
    assert("id"@.len() == 2 && "label"@.len() == 5 && "session"@.len() == 7);
}

/// Whoever attached in a message's session signs what it writes, as an agent
/// with its own label, id and the one who answers for it, and is shown as
/// present under the same id and label; without one nobody is.
pub proof fn law_a_message_is_its_sessions_agents(
    agents: Seq<AttachedAgent>,
    session: Option<Seq<char>>,
)
    ensures
        ({
            let actor = signing_actor(agents, session);
            &&& actor.caller is Agent
            &&& actor.hue is None
            &&& match agent_in(agents, session) {
                Some(i) => {
                    &&& 0 <= i < agents.len()
                    &&& session == Some(agents[i].session@)
                    &&& actor.label == Some(agents[i].label@)
                    &&& actor.participant_id == Some(agents[i].participant_id@)
                    &&& actor.responsible == opt_text(agents[i].responsible)
                    &&& present_agent(agents, session) matches Some(present) && present.id
                        == agents[i].participant_id@ && present.label == agents[i].label@
                        && present.kind is Agent
                },
                None => {
                    &&& actor.label is None && actor.participant_id is None && actor.responsible
                        is None
                    &&& present_agent(agents, session) is None
                    &&& session matches Some(named) ==> forall|i: int|
                        0 <= i < agents.len() ==> (#[trigger] agents[i]).session@ != named
                },
            }
        }),
{
    if let Some(named) = session {
        let acts = acts_in(agents, named);
        lemma_first_index(agents.len(), acts);
        match agent_in(agents, session) {
            Some(i) => {
                assert(acts(i));
            },
            None => {
                assert forall|i: int| 0 <= i < agents.len() implies (
                #[trigger] agents[i]).session@ != named by {
                    assert(!acts(i));
                }
            },
        }
    }
}

/// An agent that is let in has the session that it was given and an id of that
/// session's own, is the client that it says it is, and is called by its title,
/// or by its name where it has none, as long as nobody else is called so.
pub proof fn law_an_admitted_agent_is_called_as_it_asks(
    agent: AttachedAgent,
    identity: IdentityView,
    taken: Seq<Seq<char>>,
    session: Seq<char>,
    fresh: Seq<char>,
    wanted: Seq<char>,
)
    requires
        admitted_agent(agent, identity, taken, session, fresh),
        identity.title == Some(wanted) || (identity.title is None && identity.name == wanted),
        snug(wanted),
        0 < wanted.len() <= 100,
    ensures
        !taken.contains(wanted) ==> agent.label@ == wanted,
        wanted.is_prefix_of(agent.label@),
        agent.session@ == session,
        session.is_suffix_of(agent.participant_id@),
        agent.participant_id@.len() > session.len(),
        agent.client_name@ == identity.name,
        opt_text(agent.client_version) == identity.version,
        agent.responsible is None,
{
    law_trimming_twice_is_trimming(wanted);
    lemma_blank(wanted);
    reveal_strlit("agent-");
    let id = agent.participant_id@;
    assert(id.subrange(id.len() - session.len(), id.len() as int) =~= session);
    let label = agent.label@;
    assert(label.subrange(0, wanted.len() as int) =~= wanted);
}

} // verus!
