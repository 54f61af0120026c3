use ag_ui_surface::actions::ActionDef;
use ag_ui_surface::caller::Caller;
use ag_ui_surface::gate::{
    action_route_caller, authorized, cookie_matches, cookie_value, human_navigation_request,
    human_route_cookie, issues_human_cookie, loopback_request_headers_allowed, origin_allowed,
    refuse_request, websocket_gate, websocket_origin_allowed, HeaderField, Headers, ReplicaGate,
};
use ag_ui_surface::http::{
    is_runtime_owned, path_is_owned_by_mount, runtime_route_paths, valid_literal_http_path,
    validate_http_layout, ActionRouteDef, HttpMethod, Mount, RouteDef,
};
use ag_ui_surface::json::Json;
use ag_ui_surface::replica::{SurfaceState, BINARY_TRANSPORT_NOT_IMPLEMENTED};
use ag_ui_surface::startup::{
    distinct_paths, is_mission_post, loopback_socket_addr, AppError, ListenAddress,
};
use ag_ui_surface::turns::{websocket_refusal_status, websocket_replay_or_status};

fn headers(fields: &[(&str, &str)]) -> Headers {
    Headers {
        fields: fields
            .iter()
            .map(|(name, value)| HeaderField {
                name: name.to_string(),
                value: Some(value.to_string()),
            })
            .collect(),
    }
}

#[test]
fn websocket_origin_gate_accepts_native_and_loopback_clients_only() {
    assert!(websocket_origin_allowed(&headers(&[])));
    assert!(websocket_origin_allowed(&headers(&[("origin", "http://127.0.0.1:8090")])));
    assert!(!websocket_origin_allowed(&headers(&[("origin", "https://evil.example")])));
}

/// A surface without a binary transport.
struct CounterState;

impl SurfaceState for CounterState {}

#[test]
fn text_only_surface_rejects_binary_transport() {
    let state = CounterState;
    assert_eq!(
        state.ws_hello().expect_err("text-only replay must fail"),
        BINARY_TRANSPORT_NOT_IMPLEMENTED
    );
    assert_eq!(
        state.ws_receive(b"state update").expect_err("text-only receive must fail"),
        BINARY_TRANSPORT_NOT_IMPLEMENTED
    );
    let (status, error) = websocket_replay_or_status(state.ws_hello())
        .expect_err("the HTTP upgrade must be refused");
    assert_eq!(status, 501);
    assert_eq!(error, BINARY_TRANSPORT_NOT_IMPLEMENTED);
    assert_eq!(
        BINARY_TRANSPORT_NOT_IMPLEMENTED,
        "binary websocket transport is not implemented for this surface"
    );
    assert_eq!(websocket_refusal_status("replay failed"), 503);
    assert_eq!(websocket_replay_or_status(Ok(vec![vec![1]])), Ok(vec![vec![1]]));
}

fn at(octets: Option<(u8, u8, u8, u8)>, text: &str) -> ListenAddress {
    ListenAddress { octets, text: text.to_string() }
}

#[test]
fn application_bind_is_restricted_to_the_mcp_descriptor_host() {
    let loopback = || at(Some((127, 0, 0, 1)), "127.0.0.1:0");
    assert_eq!(loopback_socket_addr(Ok(loopback())).unwrap(), loopback());
    for unsafe_addr in [
        at(Some((0, 0, 0, 0)), "0.0.0.0:8090"),
        at(Some((127, 0, 0, 2)), "127.0.0.2:8090"),
        at(None, "[::1]:8090"),
    ] {
        assert!(matches!(
            loopback_socket_addr(Ok(unsafe_addr)),
            Err(AppError::InvalidConfiguration(_))
        ));
    }
    assert_eq!(
        loopback_socket_addr(Err("no port".to_string())).unwrap_err().message(),
        "invalid listen address: no port"
    );
}

#[test]
fn request_guard_requires_exact_loopback_authority_and_matching_origin() {
    let allowed = |fields: &[(&str, &str)]| loopback_request_headers_allowed(&headers(fields), 8090);
    assert!(!allowed(&[]));
    assert!(allowed(&[("host", "127.0.0.1:8090")]));
    assert!(allowed(&[("host", "127.0.0.1:8090"), ("origin", "http://127.0.0.1:8090")]));
    assert!(!allowed(&[("host", "127.0.0.1:8090"), ("origin", "http://127.0.0.1:8091")]));
    assert!(!allowed(&[("host", "127.0.0.1:8090"), ("origin", "https://evil.example")]));
    assert!(allowed(&[("host", "localhost:8090"), ("origin", "http://localhost:8090")]));
    assert!(allowed(&[("host", "LocalHost:8090"), ("origin", "HTTP://LOCALHOST:8090")]));
    assert!(!allowed(&[("host", "attacker.example:8090"), ("origin", "http://localhost:8090")]));
    assert_eq!(
        refuse_request(&headers(&[]), 8090),
        Some((403, "untrusted request authority or Origin"))
    );
    assert_eq!(refuse_request(&headers(&[("host", "127.0.0.1:8090")]), 8090), None);
}

#[test]
fn origin_and_bearer_checks_fail_closed() {
    let bare = headers(&[]);
    assert!(origin_allowed(&bare));
    assert!(!authorized(&bare, "secret"));
    let bearing = headers(&[("authorization", "Bearer secret")]);
    assert!(authorized(&bearing, "secret"));
    assert!(!authorized(&bearing, "other"));
    let evil =
        headers(&[("authorization", "Bearer secret"), ("origin", "https://evil.example")]);
    assert!(!origin_allowed(&evil));
    let local =
        headers(&[("authorization", "Bearer secret"), ("origin", "http://127.0.0.1:8091")]);
    assert!(origin_allowed(&local));
    for origin in ["http://localhost.evil.example", "http://127.0.0.10", "file://localhost"] {
        assert!(!origin_allowed(&headers(&[("origin", origin)])), "{origin}");
    }
    let unreadable = Headers {
        fields: vec![HeaderField { name: "origin".to_string(), value: None }],
    };
    assert!(!origin_allowed(&unreadable));
}

#[test]
fn a_person_arrives_by_navigation() {
    let full = [
        ("sec-fetch-mode", "navigate"),
        ("sec-fetch-dest", "document"),
        ("sec-fetch-user", "?1"),
        ("accept", "application/xml, text/html ,*/*"),
    ];
    assert!(human_navigation_request(true, &headers(&full)));
    assert!(!human_navigation_request(false, &headers(&full)));
    for skipped in 0..full.len() {
        let fields: Vec<(&str, &str)> = full
            .iter()
            .enumerate()
            .filter(|(at, _)| *at != skipped)
            .map(|(_, field)| *field)
            .collect();
        assert!(!human_navigation_request(true, &headers(&fields)));
    }
    assert_eq!(
        human_route_cookie("t"),
        "agui_human_route_session=t; Path=/; HttpOnly; SameSite=Strict"
    );
    assert!(issues_human_cookie(true, true, 204));
    assert!(!issues_human_cookie(true, true, 302));
    assert!(!issues_human_cookie(true, false, 200));
    assert!(!issues_human_cookie(false, true, 200));
}

#[test]
fn cookies_are_found_among_others() {
    let jar = headers(&[("cookie", "a=1; agui_person = tok=en "), ("cookie", "b=2")]);
    assert!(cookie_matches(&jar, "a", "1"));
    assert!(cookie_matches(&jar, "b", "2"));
    assert!(!cookie_matches(&jar, "a", "2"));
    assert_eq!(cookie_value(&jar, "agui_person").as_deref(), Some("tok=en"));
    assert_eq!(cookie_value(&jar, "missing"), None);
}

#[test]
fn credentials_establish_the_caller() {
    let human = ("cookie", "agui_human_route_session=person");
    let agent = ("authorization", "Bearer agent");
    let caller = |fields: &[(&str, &str)]| action_route_caller(&headers(fields), "agent", "person");
    assert_eq!(caller(&[human]), Caller::Human);
    assert_eq!(caller(&[agent]), Caller::Agent);
    assert_eq!(caller(&[human, agent]), Caller::Unknown);
    assert_eq!(caller(&[human, ("authorization", "Bearer wrong")]), Caller::Unknown);
    assert_eq!(caller(&[]), Caller::Unknown);
}

#[test]
fn the_replica_door_asks_for_a_credential() {
    let good = headers(&[("cookie", "agui_human_route_session=person")]);
    let none = headers(&[]);
    assert!(matches!(websocket_gate(&good, true, "person", false), ReplicaGate::Open));
    assert!(matches!(
        websocket_gate(&none, true, "person", false),
        ReplicaGate::CredentialRequired
    ));
    assert!(matches!(websocket_gate(&none, true, "person", true), ReplicaGate::Open));
    assert!(matches!(websocket_gate(&none, false, "person", false), ReplicaGate::Open));
    let evil = headers(&[("origin", "https://evil.example")]);
    assert!(matches!(websocket_gate(&evil, false, "p", true), ReplicaGate::UntrustedOrigin));
}

fn route(path: &str, method: HttpMethod) -> RouteDef {
    RouteDef { method, path: path.to_string() }
}

fn mount(prefix: &str) -> Mount {
    Mount { prefix: prefix.to_string(), dir: ".".to_string() }
}

fn layout(routes: Vec<RouteDef>, mounts: Vec<Mount>) -> Result<(), String> {
    validate_http_layout(&routes, &vec![], &vec![], &mounts)
}

#[test]
fn dynamic_http_layout_rejects_paths_that_would_conflict_or_panic() {
    assert!(layout(vec![route("relative", HttpMethod::Get)], vec![]).is_err());
    assert!(layout(vec![route("/:id", HttpMethod::Get)], vec![]).is_err());
    assert!(layout(vec![route("/custom/:id", HttpMethod::Get)], vec![]).is_err());
    assert!(layout(vec![route("/ws", HttpMethod::Get)], vec![]).is_err());
    assert!(layout(vec![route("/pkg/board.js", HttpMethod::Get)], vec![]).is_err());
    assert!(layout(vec![route("/_agui/alternate.js", HttpMethod::Get)], vec![]).is_err());
    assert!(layout(
        vec![route("/custom", HttpMethod::Post), route("/custom", HttpMethod::Post)],
        vec![],
    )
    .is_err());
    assert!(layout(vec![route("/preview/state", HttpMethod::Get)], vec![mount("/preview")])
        .is_err());
    assert!(layout(vec![], vec![mount("/preview"), mount("/preview/assets")]).is_err());
    assert!(layout(
        vec![route("/mission", HttpMethod::Get), route("/mission", HttpMethod::Post)],
        vec![mount("/preview")],
    )
    .is_ok());
    assert!(layout(vec![], vec![mount("/extensions/board")]).is_ok());
    assert!(layout(vec![], vec![mount("/pkg/board")]).is_err());
    assert!(layout(vec![], vec![mount("/_agui/assets")]).is_err());
    assert!(layout(vec![], vec![mount("/:id")]).is_err());
    assert!(layout(vec![], vec![mount("/extensions/:id")]).is_err());
    assert!(layout(vec![route("/preview", HttpMethod::Get)], vec![mount("/preview/assets")])
        .is_ok());

    let action = || {
        vec![ActionDef::new(
            "write".to_string(),
            "write".to_string(),
            Json::parse(r#"{ "type": "object", "properties": {} }"#).unwrap(),
        )
        .human_only()]
    };
    let backed = |path: &str, method: HttpMethod, action: &str| {
        vec![ActionRouteDef { method, path: path.to_string(), action: action.to_string() }]
    };
    assert!(validate_http_layout(
        &vec![],
        &backed("/paper/write", HttpMethod::Post, "write"),
        &action(),
        &vec![],
    )
    .is_ok());
    assert!(validate_http_layout(
        &vec![],
        &backed("/paper/missing", HttpMethod::Post, "missing"),
        &action(),
        &vec![],
    )
    .unwrap_err()
    .contains("unknown action"));
    assert!(validate_http_layout(
        &vec![],
        &backed("/paper/read", HttpMethod::Get, "write"),
        &action(),
        &vec![],
    )
    .unwrap_err()
    .contains("mutating HTTP method"));
    assert!(validate_http_layout(
        &vec![route("/paper/write", HttpMethod::Post)],
        &backed("/paper/write", HttpMethod::Post, "write"),
        &action(),
        &vec![],
    )
    .unwrap_err()
    .contains("duplicate surface route"));
}

#[test]
fn the_runtime_owns_its_paths() {
    let paths = runtime_route_paths();
    assert!(paths.iter().any(|path| path == "/ask"));
    assert!(paths.iter().all(|path| is_runtime_owned(path)));
    for path in &paths {
        let error = layout(vec![route(path, HttpMethod::Put)], vec![]).unwrap_err();
        assert!(error.contains("conflicts with a runtime-owned path"), "{error}");
    }
    for method in [HttpMethod::Get, HttpMethod::Post] {
        assert_eq!(
            layout(vec![route("/surface/me", method)], vec![]),
            Err("surface route \"/surface/me\" conflicts with a runtime-owned path".to_string())
        );
    }
    for prefix in ["/surface/me", "/surface", "/activity"] {
        let error = layout(vec![], vec![mount(prefix)]).unwrap_err();
        assert!(error.contains("conflicts with a runtime-owned path"), "{error}");
    }
    assert!(!is_runtime_owned("/paper"));
    assert!(path_is_owned_by_mount("/preview/a", "/preview"));
    assert!(!path_is_owned_by_mount("/previews", "/preview"));
    assert!(valid_literal_http_path("/paper/write"));
    assert!(!valid_literal_http_path("/paper//write"));
    assert_eq!(HttpMethod::Delete.label(), "Delete");
    assert_eq!(ActionRouteDef::post("/p", "a").method, HttpMethod::Post);
}

#[test]
fn each_path_is_routed_once_with_all_its_methods() {
    let paths = ["/a", "/b", "/a", "/c", "/b"].map(str::to_string).to_vec();
    assert_eq!(distinct_paths(&paths), ["/a", "/b", "/c"]);
    assert!(is_mission_post(&route("/mission", HttpMethod::Post)));
    assert!(!is_mission_post(&route("/mission", HttpMethod::Get)));
    assert!(!is_mission_post(&route("/missions", HttpMethod::Post)));
}
