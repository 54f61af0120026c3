use ag_ui_surface::actions::ActionDef;
use ag_ui_surface::caller::ActionAudience;
use ag_ui_surface::gate::{HeaderField, Headers};
use ag_ui_surface::json::Json;
use ag_ui_surface::mcp::{
    admit_agent, admits, attach_mcp_agent, call_tool, client_identity, handle, mcp_actor,
    mcp_get_request, mcp_message, mcp_participant, mcp_post_request, picture_text,
    protocol_version_allowed, session_id, tool_error, tool_result, wants_picture, with_participant,
    Catalog, ClientIdentity, HandleStep, Picture, PostStep, ToolStep,
};

fn json(text: &str) -> Json {
    Json::parse(text).unwrap()
}

fn headers(fields: &[(&str, &str)]) -> Headers {
    Headers {
        fields: fields
            .iter()
            .map(|(name, value)| HeaderField {
                name: name.to_string(),
                value: Some(value.to_string()),
            })
            .collect(),
    }
}

#[test]
fn only_initialize_announces_an_identity() {
    assert!(client_identity(&json(
        r#"{ "method": "tools/list", "params": { "clientInfo": { "name": "helper" } } }"#
    ))
    .is_none());
}

#[test]
fn initialize_carries_the_clients_proposed_name() {
    let identity = client_identity(&json(
        r#"{ "method": "initialize", "params": { "clientInfo": { "name": "helper", "version": "0.1" } } }"#,
    ))
    .expect("initialize announces an identity");
    assert_eq!(identity.name, "helper");
    assert_eq!(identity.version.as_deref(), Some("0.1"));
}

#[test]
fn a_client_that_names_itself_nothing_is_unidentified_not_anonymous() {
    let identity = client_identity(&json(
        r#"{ "method": "initialize", "params": { "clientInfo": { "name": "   " } } }"#,
    ))
    .expect("initialize announces an identity");
    assert_eq!(identity.name, "unidentified agent");
}

#[test]
fn initialize_without_client_info_announces_nothing() {
    assert!(client_identity(&json(r#"{ "method": "initialize", "params": {} }"#)).is_none());
}

#[test]
fn a_blank_session_header_is_no_session() {
    assert_eq!(session_id(&headers(&[("mcp-session-id", "   ")])), None);
    assert_eq!(
        session_id(&headers(&[("mcp-session-id", "abc123")])).as_deref(),
        Some("abc123")
    );
}

fn action(name: &str, description: &str, audience: ActionAudience) -> ActionDef {
    ActionDef::new(
        name.to_string(),
        description.to_string(),
        json(r#"{ "type": "object", "properties": { "value": { "type": "integer" } } }"#),
    )
    .audience(audience)
}

fn surface() -> Vec<ActionDef> {
    vec![
        action("add", "Add one value.", ActionAudience::Both),
        action("human_reset", "Reset.", ActionAudience::Human),
        action("inspect", "Inspect.", ActionAudience::Agent).with_state_snapshot(),
        action("reject", "Reject.", ActionAudience::Both),
    ]
}

#[test]
fn catalog_is_an_exact_agent_visible_projection() {
    let actions = surface();
    let catalog = Catalog::from_actions(&actions).unwrap();
    let wire = catalog.wire_tools();
    let tools = wire.as_array().unwrap();
    let names: Vec<&str> = tools.iter().map(|tool| tool.str_member("name").unwrap()).collect();
    assert_eq!(names, vec!["add", "inspect", "reject"]);
    assert_eq!(tools[0].str_member("description"), Some("Add one value."));
    assert_eq!(tools[0].get("inputSchema"), Some(&actions[0].parameters));
    assert!(tools.iter().all(|tool| tool.str_member("name") != Some("human_reset")));
    let visibility = |at: usize| {
        tools[at].get("_meta").unwrap().get("ui").unwrap().get("visibility").unwrap().copy()
    };
    assert_eq!(visibility(0), json(r#"["model", "app"]"#));
    assert_eq!(visibility(1), json(r#"["model"]"#));
}

#[test]
fn catalog_rejects_non_object_agent_schemas() {
    let invalid = ActionDef::new(
        "invalid".to_string(),
        "Invalid schema.".to_string(),
        json(r#"{ "type": "string" }"#),
    );
    assert!(Catalog::from_actions(&vec![invalid]).err().unwrap().contains("type=object"));
}

#[test]
fn requests_without_exact_jsonrpc_2_are_rejected_before_dispatch() {
    let catalog = Catalog::from_actions(&surface()).unwrap();
    for message in [
        r#"{ "id": 1, "method": "tools/list" }"#,
        r#"{ "jsonrpc": "1.0", "id": 2, "method": "tools/list" }"#,
        r#"{ "jsonrpc": 2, "id": 3, "method": "tools/list" }"#,
    ] {
        let HandleStep::Answer(reply) = handle(&catalog, "1.0", &json(message)) else {
            panic!("invalid request must receive JSON-RPC error")
        };
        assert_eq!(reply.str_member("jsonrpc"), Some("2.0"));
        assert_eq!(
            reply.get("error").unwrap().get("code"),
            Some(&Json::Number("-32600".to_string()))
        );
        assert!(reply.get("result").is_none());
    }
}

#[test]
fn messages_are_handled_by_method() {
    let catalog = Catalog::from_actions(&surface()).unwrap();
    let step = |text: &str| handle(&catalog, "9.9", &json(text));
    assert_eq!(step(r#"{ "jsonrpc": "2.0", "method": "notifications/x" }"#), HandleStep::Accepted);
    match step(
        r#"{ "jsonrpc": "2.0", "id": 1, "method": "initialize", "params": { "protocolVersion": "2025-11-25" } }"#,
    ) {
        HandleStep::Initialized { version, answer } => {
            assert_eq!(version, "2025-06-18");
            let result = answer.get("result").unwrap();
            assert_eq!(result.str_member("protocolVersion"), Some("2025-06-18"));
            assert_eq!(result.get("serverInfo").unwrap().str_member("version"), Some("9.9"));
            assert!(admits(&answer));
        }
        other => panic!("unexpected {other:?}"),
    }
    match step(r#"{ "jsonrpc": "2.0", "id": "x", "method": "tools/list" }"#) {
        HandleStep::Answer(reply) => {
            assert_eq!(reply.str_member("id"), Some("x"));
            assert_eq!(
                reply.get("result").unwrap().get("tools").unwrap().as_array().unwrap().len(),
                3
            );
        }
        other => panic!("unexpected {other:?}"),
    }
    assert!(matches!(
        step(r#"{ "jsonrpc": "2.0", "id": 1, "method": "tools/call", "params": {} }"#),
        HandleStep::Call { .. }
    ));
    match step(r#"{ "jsonrpc": "2.0", "id": 1, "method": "resources/list" }"#) {
        HandleStep::Answer(reply) => assert_eq!(
            reply.get("error").unwrap().get("code"),
            Some(&Json::Number("-32601".to_string()))
        ),
        other => panic!("unexpected {other:?}"),
    }
}

#[test]
fn hidden_actions_are_not_called() {
    let actions = surface();
    let catalog = Catalog::from_actions(&actions).unwrap();
    let call = |text: &str| call_tool(&catalog, &actions, Some(&json(text)));
    let said = |step: ToolStep| match step {
        ToolStep::Answer(value) => {
            assert_eq!(value.bool_member("isError"), Some(true));
            value.get("content").unwrap().as_array().unwrap()[0]
                .str_member("text")
                .unwrap()
                .to_string()
        }
        other => panic!("unexpected {other:?}"),
    };
    assert_eq!(
        said(call(r#"{ "name": "human_reset" }"#)),
        "action \"human_reset\" is not visible to this agent"
    );
    assert_eq!(
        said(call_tool(&catalog, &vec![], Some(&json(r#"{ "name": "add" }"#)))),
        "action \"add\" is not enabled"
    );
    assert_eq!(
        call(r#"{ "name": "inspect", "arguments": { "value": 7 } }"#),
        ToolStep::Dispatch {
            name: "inspect".to_string(),
            arguments: json(r#"{ "value": 7 }"#),
            include_state_snapshot: true,
        }
    );
    assert_eq!(
        call(r#"{ "name": "add" }"#),
        ToolStep::Dispatch {
            name: "add".to_string(),
            arguments: Json::Object(Vec::new()),
            include_state_snapshot: false,
        }
    );
}

#[test]
fn pictures_are_attached_as_text() {
    assert_eq!(picture_text(&vec![0x89, b'P', b'N', b'G']), "iVBORw==");
    assert_eq!(picture_text(&vec![]), "");
    assert_eq!(picture_text(&vec![0xfb, 0xff, 0xbf]), "+/+/");
    assert_eq!(picture_text(&vec![0, 16, 131, 16, 81]), "ABCDEFE=");
    assert_eq!(picture_text(&vec![105, 183, 29, 211, 78, 250]), "abcd0076");
    assert!(wants_picture(true, true) && !wants_picture(false, true) && !wants_picture(true, false));
    let with = tool_result("add", "done", true, &Picture::Encoded("iVBORw==".to_string()));
    let content = with.get("content").unwrap().as_array().unwrap();
    assert_eq!(content.len(), 2);
    assert_eq!(content[0].str_member("text"), Some("done"));
    assert_eq!(content[1].str_member("data"), Some("iVBORw=="));
    assert_eq!(with.bool_member("isError"), Some(false));
    let without = tool_result("add", "no", false, &Picture::Absent);
    assert_eq!(without.get("content").unwrap().as_array().unwrap().len(), 1);
    assert_eq!(without.bool_member("isError"), Some(true));
    let failed = tool_result("add", "done", true, &Picture::Failed("gpu".to_string()));
    assert_eq!(failed, tool_error("state snapshot failed after `add`: gpu"));
}

#[test]
fn versions_are_negotiated_once_and_checked_after() {
    let list = json(r#"{ "jsonrpc": "2.0", "id": 1, "method": "tools/list" }"#);
    let negotiated = Some("2025-06-18".to_string());
    let ok = headers(&[("mcp-protocol-version", "2025-06-18")]);
    assert_eq!(protocol_version_allowed(&ok, &list, &negotiated), Ok(()));
    let old = headers(&[("mcp-protocol-version", "2024-01-01")]);
    assert!(protocol_version_allowed(&old, &list, &negotiated).is_err());
}

#[test]
fn the_endpoint_refuses_strangers_before_it_reads() {
    let token = "secret";
    let good = headers(&[("authorization", "Bearer secret")]);
    let evil = headers(&[("origin", "https://evil.example"), ("authorization", "Bearer secret")]);
    let none = headers(&[]);
    let body = br#"{ "jsonrpc": "2.0", "id": 1, "method": "tools/list" }"#;
    let refused = |headers: &Headers| match mcp_post_request(headers, body, token, &None) {
        PostStep::Refuse { status, text } => (status, text),
        other => panic!("unexpected {other:?}"),
    };
    assert_eq!(refused(&evil), (403, "untrusted MCP Origin"));
    assert_eq!(refused(&none), (401, "invalid MCP bearer token"));
    assert_eq!(mcp_get_request(&evil, token), (403, "untrusted MCP Origin"));
    assert_eq!(mcp_get_request(&none, token), (401, "invalid MCP bearer token"));
    assert_eq!(mcp_get_request(&good, token), (405, ""));
    match mcp_post_request(&good, b"{not json", token, &None) {
        PostStep::Answer(reply) => {
            assert_eq!(reply.status, 400);
            assert_eq!(
                reply.body.get("error").unwrap().get("code"),
                Some(&Json::Number("-32700".to_string()))
            );
        }
        other => panic!("unexpected {other:?}"),
    }
    match mcp_message(
        &headers(&[("mcp-session-id", "s1"), ("mcp-protocol-version", "2025-06-18")]),
        Ok(json(r#"{ "jsonrpc": "2.0", "id": 1, "method": "tools/list" }"#)),
        &Some("2025-06-18".to_string()),
    ) {
        PostStep::Handle { attaching, session, .. } => {
            assert_eq!(attaching, None);
            assert_eq!(session.as_deref(), Some("s1"));
        }
        other => panic!("unexpected {other:?}"),
    }
}

#[test]
fn an_agent_is_admitted_under_a_label_of_its_own() {
    let identity = ClientIdentity {
        name: "helper".to_string(),
        version: Some("0.1".to_string()),
        title: None,
    };
    let first = admit_agent(&identity, "s1", &vec![], &vec![], "x1");
    assert_eq!(first.label, "helper");
    assert_eq!(first.session, "s1");
    assert_eq!(first.client_name, "helper");
    let second = admit_agent(&identity, "s2", &vec!["helper".to_string()], &vec![], "x2");
    assert_ne!(second.label, first.label);
    assert_ne!(second.participant_id, first.participant_id);
    let third = attach_mcp_agent(&identity, &vec!["helper".to_string()], &vec![first]);
    assert_eq!(third.label, "helper-2");
    assert_eq!(third.session.len(), 32);
    assert_eq!(third.participant_id, format!("agent-{}", third.session));
    let answer = with_participant(json(r#"{ "result": {} }"#), &third);
    let agents = vec![second, third];
    assert_eq!(mcp_actor(&agents, Some("s2")).byline(), agents[0].label);
    assert_eq!(mcp_actor(&agents, None).byline(), "agent", "no identity is borrowed");
    assert_eq!(mcp_actor(&agents, Some("forged")).byline(), "agent");
    assert_eq!(mcp_participant(&agents, Some("s2")).unwrap().id, agents[0].participant_id);
    assert!(mcp_participant(&agents, Some("forged")).is_none());
    assert!(admits(&answer));
    assert!(!admits(&json(r#"{ "error": {} }"#)));
}
