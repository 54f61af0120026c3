use ag_ui_surface::caller::{Caller, Person};
use ag_ui_surface::events::Event;
use ag_ui_surface::gate::{HeaderField, Headers};
use ag_ui_surface::json::Json;
use ag_ui_surface::narration::Line;
use ag_ui_surface::replica::{
    state_png, state_png_text, stats_json, ws_step, PictureReply, Stats, SurfaceStore, WsAction,
    WsEvent,
};
use ag_ui_surface::routes::RouteResponse;
use ag_ui_surface::runtime::{mcp_token, model_overrides, AgentLiveness, MAX_CALL_LIFETIME};
use ag_ui_surface::turns::{
    ask_request, declares_focus_event, interrupt_refused, interrupt_settled, join_request,
    mission_turn, person_cookie, person_json, point_reply, point_request, replay_events,
    resolve_focus, stranger_json, tool_actor, tool_reply, tool_request, unavailable_reply, AskStep,
    Indicated, JoinStep, MissionStep, PointStep, Pointed, Resolution, StateBacking, ToolRequest,
};

fn json(text: &str) -> Json {
    Json::parse(text).unwrap()
}

fn mike() -> Person {
    Person {
        participant_id: "p1".to_string(),
        name: "Mike".to_string(),
        hue: 12,
        principal_key: "local:one".to_string(),
    }
}

fn refused(step: AskStep) -> String {
    match step {
        AskStep::Answer(reply) => {
            assert_eq!(reply.status, 200);
            match reply.body.str_member("error") {
                Some(error) => error.to_string(),
                None => format!("busy: {:?}", reply.body.bool_member("busy")),
            }
        }
        other => panic!("unexpected {other:?}"),
    }
}

#[test]
fn a_question_begins_a_turn_or_says_why_not() {
    let ask = |text: &str, ready: bool, busy: bool| {
        ask_request(&json(text), None, ready, busy, &None, &None)
    };
    assert_eq!(refused(ask(r#"{ "question": "  " }"#, false, false)), "empty question");
    let long = format!(r#"{{ "question": "{}" }}"#, "x".repeat(801));
    assert_eq!(refused(ask(&long, false, false)), "question too long");
    let just = format!(r#"{{ "question": "{}" }}"#, "é".repeat(800));
    assert_eq!(refused(ask(&just, false, true)), "tutor still warming up");
    assert_eq!(refused(ask(&just, true, true)), "busy: Some(true)");
    match ask(r#"{ "question": " why? ", "by": " ann ", "origin": "page" }"#, true, false) {
        AskStep::Begin { by, question, shown, for_model } => {
            assert_eq!((by.as_str(), question.as_str(), for_model.as_str()), ("ann", "why?", "why?"));
            match shown {
                Event::Custom { name, value } => {
                    assert_eq!(name, "surface.ask");
                    assert_eq!(value.get("by_id"), Some(&Json::Null));
                    assert_eq!(value.str_member("origin"), Some("page"));
                }
                other => panic!("unexpected {other:?}"),
            }
        }
        other => panic!("unexpected {other:?}"),
    }
    assert_eq!(unavailable_reply().body.str_member("error"), Some("tutor unavailable"));
}

#[test]
fn an_admitted_person_asks_under_their_own_name() {
    let body = json(r#"{ "question": "q", "by": "somebody else" }"#);
    match ask_request(&body, Some(&mike()), true, false, &None, &None) {
        AskStep::Begin { by, .. } => assert_eq!(by, "Mike"),
        other => panic!("unexpected {other:?}"),
    }
}

#[test]
fn what_is_indicated_comes_before_what_was_pointed_at() {
    let body = json(r#"{ "question": "what is this?" }"#);
    let text = |indicated: Option<Indicated>, pointed: Option<Pointed>| {
        match ask_request(&body, None, true, false, &indicated, &pointed) {
            AskStep::Begin { for_model, .. } => for_model,
            other => panic!("unexpected {other:?}"),
        }
    };
    let indicated = || Indicated {
        extension_id: "atlas".to_string(),
        target_id: "n1".to_string(),
        description: "a node".to_string(),
    };
    let pointed =
        |elapsed_nanos: u128| Pointed { phrase: "the red box".to_string(), elapsed_nanos };
    let both = text(Some(indicated()), Some(pointed(0)));
    assert!(both.starts_with("[Semantic attention context: the human is indicating atlas:n1: a node. "));
    assert!(both.ends_with("never authority or permission.]\n\nwhat is this?"));
    let recent = text(None, Some(pointed(30_000_000_000)));
    assert!(recent.starts_with("[Pointing context: the learner is indicating the red box. "));
    assert_eq!(text(None, Some(pointed(30_000_000_001))), "what is this?");
}

#[test]
fn a_mission_begins_a_turn() {
    let body = json(r#"{ "text": " learn knots " }"#);
    match mission_turn(RouteResponse::json(200, Json::Null), &body) {
        MissionStep::Begin { text, shown } => {
            assert_eq!(text, "learn knots");
            assert!(matches!(shown, Event::Custom { name, .. } if name == "surface.mission"));
        }
        other => panic!("unexpected {other:?}"),
    }
    match mission_turn(RouteResponse::text(409, "not now".to_string()), &body) {
        MissionStep::Answer(wire) => {
            assert_eq!((wire.status, wire.body.as_str()), (409, Some("not now")));
        }
        other => panic!("unexpected {other:?}"),
    }
}

#[test]
fn an_interrupt_says_how_far_it_came() {
    assert_eq!(interrupt_refused(false, 0).unwrap().body.bool_member("idle"), Some(true));
    assert_eq!(interrupt_refused(true, 0).unwrap().status, 503);
    assert_eq!(interrupt_refused(true, 1), None);
    assert_eq!(interrupt_settled(false, true).status, 504);
    assert_eq!(interrupt_settled(true, false).status, 502);
    let done = interrupt_settled(true, true);
    assert_eq!((done.status, done.body.bool_member("interrupted")), (200, Some(true)));
}

fn headers(name: &str, value: &str) -> Headers {
    Headers {
        fields: vec![HeaderField { name: name.to_string(), value: Some(value.to_string()) }],
    }
}

#[test]
fn a_request_body_never_claims_the_person() {
    let agent = headers("authorization", "Bearer agent");
    let human = headers("cookie", "agui_human_route_session=person");
    let step = |headers: &Headers, text: &str| {
        tool_request(&json(text), headers, "agent", "person", Some("run-1"))
    };
    match step(&agent, r#"{ "name": "draw", "as": "human" }"#) {
        ToolRequest::Unidentified { reply, records } => {
            assert_eq!(reply.status, 403);
            assert_eq!(records.len(), 2);
        }
        other => panic!("unexpected {other:?}"),
    }
    match step(&human, r#"{ "name": "" }"#) {
        ToolRequest::Answer(reply) => {
            assert_eq!(reply.body.str_member("error"), Some("missing tool name"));
        }
        other => panic!("unexpected {other:?}"),
    }
    assert_eq!(
        step(&human, r#"{ "name": "draw", "args": [1] }"#),
        ToolRequest::Dispatch {
            caller: Caller::Human,
            name: "draw".to_string(),
            arguments: json("[1]"),
        }
    );
    assert_eq!(tool_actor(Caller::Human, Some(&mike())).byline(), "Mike");
    assert_eq!(tool_actor(Caller::Agent, Some(&mike())).byline(), "agent");
    assert_eq!(tool_reply("no", false).status, 422);
    assert_eq!(tool_reply("yes", true).status, 200);
}

#[test]
fn pointing_has_to_resolve() {
    let step = |text: &str| point_request(&json(text));
    let error = |step: PointStep| match step {
        PointStep::Answer(reply) => reply.body.str_member("error").unwrap().to_string(),
        other => panic!("unexpected {other:?}"),
    };
    assert_eq!(error(step(r#"{ "value": { "id": "a" } }"#)), "missing semantic event name");
    assert_eq!(error(step(r#"{ "name": "canvas.focus" }"#)), "missing semantic focus id");
    assert_eq!(
        step(r#"{ "name": " canvas.focus ", "value": { "id": " a " } }"#),
        PointStep::Resolve { name: "canvas.focus".to_string(), id: "a".to_string() }
    );
    assert_eq!(point_reply("n", "a", &Resolution::Found("x".to_string())).status, 200);
    let unknown = point_reply("n", "a", &Resolution::Unknown);
    assert_eq!(unknown.status, 422);
    assert_eq!(
        unknown.body.str_member("error"),
        Some("semantic event \"n\" did not resolve focus target \"a\"")
    );
    assert_eq!(point_reply("n", "a", &Resolution::Failed("x".to_string())).status, 503);
    assert!(declares_focus_event(&vec!["canvas.focus".to_string()], "canvas.focus"));
    assert!(!declares_focus_event(&vec![], "canvas.focus"));
    let declared = vec!["test.point".to_string()];
    let known = || Ok(Some("the red box".to_string()));
    assert_eq!(
        resolve_focus(&declared, "test.point", known()),
        Resolution::Found("the red box".to_string())
    );
    assert_eq!(
        resolve_focus(&declared, "canvas.focus", known()),
        Resolution::Unknown,
        "an event that is not declared must not move the focus"
    );
    assert_eq!(resolve_focus(&declared, "test.point", Ok(None)), Resolution::Unknown);
    assert_eq!(
        resolve_focus(&declared, "test.point", Err("gone".to_string())),
        Resolution::Failed("gone".to_string())
    );
}

#[test]
fn people_join_and_come_back() {
    let body = json(r#"{ "name": " Ann " }"#);
    let ann = || "Ann".to_string();
    assert_eq!(join_request(Some(&body), true), JoinStep::Rename { proposed: ann() });
    assert_eq!(join_request(Some(&body), false), JoinStep::Admit { proposed: ann() });
    assert_eq!(join_request(None, true), JoinStep::Welcome);
    assert_eq!(join_request(None, false), JoinStep::Admit { proposed: "someone".to_string() });
    assert_eq!(
        person_cookie("t"),
        "agui_person=t; Path=/; Max-Age=86400; SameSite=Lax; HttpOnly"
    );
    let told = person_json(&mike(), true);
    assert_eq!(told.str_member("name"), Some("Mike"));
    assert_eq!(told.get("hue"), Some(&Json::Number("12".to_string())));
    assert!(told.get("token").is_none());
    assert_eq!(stranger_json().bool_member("joined"), Some(false));
}

#[test]
fn a_client_that_connects_is_told_everything_in_order() {
    let line = |text: &str| Line { by: "you".to_string(), text: text.to_string() };
    let encoded = |text: &str| Event::Encoded(text.to_string());
    let events = replay_events(
        json(r#"{ "state": "idle" }"#),
        encoded("snapshot"),
        true,
        vec![encoded("chrome")],
        vec![encoded("pending")],
        &vec![line("hi")],
        vec![encoded("active")],
    );
    let names: Vec<String> = events
        .iter()
        .map(|event| match event {
            Event::Custom { name, .. } => name.clone(),
            Event::Encoded(text) => text.clone(),
            other => panic!("unexpected {other:?}"),
        })
        .collect();
    assert_eq!(
        names,
        [
            "surface.tutor",
            "snapshot",
            "surface.tutor",
            "chrome",
            "pending",
            "surface.history",
            "active"
        ]
    );
    let quiet = replay_events(Json::Null, encoded("s"), false, vec![], vec![], &vec![], vec![]);
    assert_eq!(quiet.len(), 2);
    assert_eq!(StateBacking::LastWriterWins.wire_name(), "last_writer_wins");
    assert_eq!(StateBacking::Crdt.wire_name(), "crdt");
}

#[test]
fn a_client_that_lost_frames_is_closed() {
    assert_eq!(ws_step(WsEvent::Outbound(vec![1])), WsAction::Send(vec![1]));
    assert_eq!(ws_step(WsEvent::Lagged), WsAction::Close);
    assert_eq!(ws_step(WsEvent::Ended), WsAction::Close);
    assert_eq!(ws_step(WsEvent::Text), WsAction::Close);
    assert_eq!(ws_step(WsEvent::Heartbeat), WsAction::Ignore);
    assert_eq!(ws_step(WsEvent::Gone), WsAction::Stop);
    assert_eq!(
        ws_step(WsEvent::Binary(Ok(vec![vec![1], vec![2]]))),
        WsAction::Broadcast(vec![vec![1], vec![2]])
    );
    assert_eq!(ws_step(WsEvent::Binary(Err("bad".to_string()))), WsAction::Close);
}

#[test]
fn the_state_is_read_out() {
    assert_eq!(state_png(Ok(Some(vec![7]))), PictureReply::Png(vec![7]));
    assert_eq!(
        state_png(Ok(None)),
        PictureReply::Unavailable("renderer unavailable".to_string())
    );
    assert_eq!(
        state_png_text(Ok(Some(b"hello".to_vec()))),
        PictureReply::Text("aGVsbG8=".to_string())
    );
    assert_eq!(
        state_png_text(Err("gpu".to_string())),
        PictureReply::Unavailable("gpu".to_string())
    );
    let stats = stats_json(&Stats {
        ws_subscribers: 2,
        sse_subscribers: 3,
        provider: "pi".to_string(),
        ready: true,
        warming: false,
        provider_error: None,
        busy: false,
        audio: true,
    });
    assert_eq!(stats.get("sse_subscribers"), Some(&Json::Number("3".to_string())));
    assert_eq!(stats.get("provider_error"), Some(&Json::Null));
    struct Bare;
    impl SurfaceStore for Bare {}
    assert_eq!(Bare.context(), "");
}

#[test]
fn an_agent_in_a_call_is_not_quiet() {
    let mut agent = AgentLiveness::seen_at(100);
    assert_eq!(agent.quiet_for(150), Some(50));
    agent.begin_call(200);
    assert!(agent.listening());
    assert_eq!(agent.in_flight(), 1);
    assert_eq!(agent.quiet_for(200 + MAX_CALL_LIFETIME), None);
    assert_eq!(agent.quiet_for(201 + MAX_CALL_LIFETIME), Some(MAX_CALL_LIFETIME + 1));
    agent.pretend_call_started(250);
    assert_eq!(agent.quiet_for(201 + MAX_CALL_LIFETIME), None);
    agent.end_call(300);
    assert_eq!(agent.quiet_for(310), Some(10));
    agent.touch(305);
    assert_eq!(agent.quiet_for(310), Some(5));
    assert_eq!(agent.quiet_for(1), Some(0), "a clock that lags counts nothing");
}

#[test]
fn stored_models_and_tokens_are_taken_up() {
    let connection = |id: &str| {
        ag_ui_surface::providers::Provider::connection(
            id.to_string(),
            "L",
            Ok("https://e.test".to_string()),
            "m",
            false,
        )
        .unwrap()
    };
    let list = vec![connection("connection-a"), connection("connection-b")];
    let overrides = model_overrides(&list, &vec![Some("big".to_string()), Some(String::new())]);
    assert_eq!(overrides.get("connection-a"), Some("big"));
    assert_eq!(overrides.get("connection-b"), None);
    assert_eq!(mcp_token(Some(" tok "), "fresh"), "tok");
    assert_eq!(mcp_token(Some("  "), "fresh"), "fresh");
    assert_eq!(mcp_token(None, "fresh"), "fresh");
}
