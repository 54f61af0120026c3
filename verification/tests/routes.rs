use ag_ui_surface::actions::ActionDef;
use ag_ui_surface::caller::{ActionAudience, Caller};
use ag_ui_surface::gate::{action_route_caller, HeaderField, Headers};
use ag_ui_surface::json::Json;
use ag_ui_surface::routes::{
    action_route_request, admission, decode_route_body, dispatched_reply, form_object,
    refused_reply, surface_route_response, surface_status, ActionRouteStep, Admission, RouteBody,
    RouteResponse,
};

fn headers(fields: &[(&str, &str)]) -> Headers {
    Headers {
        fields: fields
            .iter()
            .map(|(name, value)| HeaderField {
                name: name.to_string(),
                value: Some(value.to_string()),
            })
            .collect(),
    }
}

fn human_write() -> Vec<ActionDef> {
    vec![ActionDef::new(
        "human_write".to_string(),
        "Apply a human-authored write.".to_string(),
        Json::Null,
    )
    .audience(ActionAudience::Human)]
}

fn status(step: &ActionRouteStep) -> u16 {
    match step {
        ActionRouteStep::Answer(reply) => reply.status,
        ActionRouteStep::Unidentified { reply, records } => {
            assert_eq!(records.len(), 2, "the refusal and the failure are on record");
            reply.status
        }
        other => panic!("unexpected {other:?}"),
    }
}

#[test]
fn action_routes_fail_closed_and_dispatch_only_established_humans() {
    let request = |fields: &[(&str, &str)], body: &[u8]| {
        let headers = headers(fields);
        let caller = action_route_caller(&headers, "agent", "person");
        action_route_request(caller, &human_write(), "human_write", &headers, body, None)
    };
    let bearer = ("authorization", "Bearer agent");
    let cookie = ("cookie", "agui_human_route_session=person");
    let json = ("content-type", "application/json");
    let form = ("content-type", "application/x-www-form-urlencoded");
    assert_eq!(status(&request(&[], b"text=anonymous")), 403);
    assert_eq!(
        request(&[bearer, json], b"{not-json"),
        ActionRouteStep::Refuse,
        "audience refusal must happen before malformed arguments are parsed"
    );
    let forged = ("cookie", "agui_human_route_session=forged");
    assert_eq!(status(&request(&[forged], b"text=forged")), 403);
    match request(&[cookie, form], b"text=real") {
        ActionRouteStep::Dispatch(arguments) => {
            assert_eq!(arguments.str_member("text"), Some("real"));
        }
        other => panic!("unexpected {other:?}"),
    }
    assert_eq!(
        status(&request(&[cookie, bearer, form], b"text=ambiguous")),
        403,
        "conflicting agent and human credentials must not select human"
    );
    assert_eq!(status(&request(&[cookie, json], b"{not-json")), 400);
    assert_eq!(
        request(&[cookie], b""),
        ActionRouteStep::Dispatch(Json::Object(Vec::new())),
        "no body stands for no arguments"
    );
}

#[test]
fn a_route_without_its_action_says_so() {
    let step = action_route_request(Caller::Human, &vec![], "gone", &headers(&[]), b"", None);
    assert_eq!(status(&step), 500);
    assert_eq!(refused_reply("no").status, 403);
    assert_eq!(dispatched_reply("broke", false).unwrap().status, 422);
    assert_eq!(dispatched_reply("fine", true), None);
}

#[test]
fn malformed_passthrough_json_is_rejected_before_surface_handler() {
    let refused = decode_route_body(&headers(&[]), b"{broken").unwrap_err();
    assert_eq!(refused.status, 400);
    let error = refused.body.str_member("error").unwrap().to_string();
    assert!(error.starts_with("invalid JSON body: "));
    assert!(error.len() > "invalid JSON body: ".len());
}

#[test]
fn invalid_surface_status_fails_closed() {
    let wire = surface_route_response(RouteResponse::json(999, Json::Null));
    assert_eq!(wire.status, 500);
    assert_eq!(surface_status(99), None);
    assert_eq!(surface_status(100), Some(100));
    assert_eq!(surface_status(599), Some(599));
    assert_eq!(surface_status(600), None);
}

#[test]
fn a_real_form_post_reaches_a_route_the_same_way_json_does() {
    let post = |content_type: &str, body: &str| {
        decode_route_body(&headers(&[("content-type", content_type)]), body.as_bytes())
            .unwrap()
            .unwrap()
    };
    let form = post(
        "application/x-www-form-urlencoded",
        "kind=claim&text=a+%22quoted%22+claim%20%26+more",
    );
    assert_eq!(form.str_member("kind"), Some("claim"));
    assert_eq!(
        form.str_member("text"),
        Some("a \"quoted\" claim & more"),
        "percent-encoding and + must be decoded, or the text is mangled"
    );
    let with_charset = post("application/x-www-form-urlencoded; charset=UTF-8", "kind=question");
    assert_eq!(with_charset.str_member("kind"), Some("question"));
    let json = post("application/json", r#"{"kind":"claim"}"#);
    assert_eq!(json.str_member("kind"), Some("claim"));
}

#[test]
fn a_form_keeps_the_last_value_of_each_name() {
    let pair = |name: &str, value: &str| (name.to_string(), value.to_string());
    let object = form_object(vec![pair("b", "1"), pair("a", "2"), pair("b", "3")]);
    assert_eq!(
        object,
        Json::Object(vec![
            ("a".to_string(), Json::Text("2".to_string())),
            ("b".to_string(), Json::Text("3".to_string())),
        ])
    );
}

#[test]
fn a_surface_route_can_serve_its_own_markup() {
    let markup = "<ul><li>rendered by the server</li></ul>";
    let html = surface_route_response(RouteResponse::html(200, markup.to_string()));
    assert_eq!(html.status, 200);
    assert_eq!(
        html.content_type, "text/html; charset=utf-8",
        "a body served as application/json is a body the browser renders as text"
    );
    assert_eq!(
        html.body.as_str(),
        Some(markup),
        "markup must arrive byte-for-byte; nothing re-encodes it"
    );
    let answer = Json::parse(r#"{"ok": true}"#).unwrap();
    let json = surface_route_response(RouteResponse::json(201, answer));
    assert_eq!(json.status, 201);
    assert_eq!(json.content_type, "application/json");
    assert_eq!(json.body.as_json().unwrap().bool_member("ok"), Some(true));
    assert_eq!(json.body.as_str(), None);
    let text = surface_route_response(RouteResponse::text(200, "read back".to_string()));
    assert_eq!(text.content_type, "text/plain; charset=utf-8");
    assert!(matches!(text.body, RouteBody::Text(_)));
    let bad = surface_route_response(RouteResponse::html(999, "<p>x</p>".to_string()));
    assert_eq!(bad.status, 500);
}

fn each_audience() -> Vec<ActionDef> {
    let action =
        |name: &str| ActionDef::new(name.to_string(), "Does it.".to_string(), Json::Null);
    vec![
        action("add"),
        action("human_reset").human_only(),
        action("inspect").agent_only(),
    ]
}

#[test]
fn the_dispatcher_refuses_each_caller_the_other_side_actions() {
    let actions = each_audience();
    assert_eq!(
        admission(&actions, Caller::Human, "inspect"),
        Admission::Refused("action 'inspect' is not available to the human".to_string()),
        "the human must not reach an agent-only action"
    );
    assert_eq!(
        admission(&actions, Caller::Agent, "human_reset"),
        Admission::Refused("action 'human_reset' is not available to this agent".to_string()),
        "the agent must not reach a human-only action"
    );
    for (caller, name) in [
        (Caller::Human, "human_reset"),
        (Caller::Agent, "inspect"),
        (Caller::Human, "add"),
        (Caller::Agent, "add"),
    ] {
        assert_eq!(
            admission(&actions, caller, name),
            Admission::Admitted,
            "{caller:?} must still reach {name:?}"
        );
    }
    assert_eq!(
        admission(&actions, Caller::Companion, "human_reset"),
        Admission::Refused(
            "action 'human_reset' is not available to the companion agent".to_string()
        )
    );
    assert_eq!(
        admission(&actions, Caller::Unknown, "add"),
        Admission::Refused("action 'add' is not available to an unknown caller".to_string())
    );
    assert_eq!(admission(&actions, Caller::Human, "missing"), Admission::Undeclared);
}

#[test]
fn a_forbidden_action_is_refused_before_its_arguments_are_read() {
    let actions = each_audience();
    for body in [r#"{ "unexpected": 1 }"#, "{not-json", ""] {
        let json = headers(&[("content-type", "application/json")]);
        let step = action_route_request(
            Caller::Human,
            &actions,
            "inspect",
            &json,
            body.as_bytes(),
            None,
        );
        assert!(matches!(step, ActionRouteStep::Refuse), "{step:?}");
    }
    match admission(&actions, Caller::Human, "inspect") {
        Admission::Refused(text) => assert!(
            text.contains("not available to the human"),
            "audience must be decided before the payload: {text}"
        ),
        other => panic!("unexpected {other:?}"),
    }
}
