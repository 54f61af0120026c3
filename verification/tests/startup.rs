use ag_ui_surface::actions::ActionDef;
use ag_ui_surface::activity::{started_records, ActivityOutcome, Record};
use ag_ui_surface::caller::ActionAudience;
use ag_ui_surface::client_module::ClientModule;
use ag_ui_surface::http::{HttpMethod, Mount, RouteDef};
use ag_ui_surface::json::Json;
use ag_ui_surface::providers::{builtin, EnvValue, Provider, Providers, SavedEntry, Vendor};
use ag_ui_surface::startup::{
    agent_directory, compose, configure, loopback_socket_addr, merge_connections, start,
    validate_static_directories, AppError, Composed, Composition, Hitl, Outside, PathFact,
    ServedPaths, SurfaceParts,
};

fn vendor() -> Vendor {
    Vendor::new("acme", "Acme").unwrap()
}

fn providers() -> Vec<Provider> {
    builtin(&vendor(), &vec!["npx".to_string(), "pi".to_string()])
}

fn action(name: &str, audience: ActionAudience) -> ActionDef {
    let schema = Json::parse(r#"{ "type": "object" }"#).unwrap();
    ActionDef::new(name.to_string(), "Does it.".to_string(), schema).audience(audience)
}

fn missing(error: AppError) -> String {
    assert!(matches!(error, AppError::MissingConfiguration(_)));
    error.message()
}

fn refused(error: AppError) -> String {
    assert!(matches!(error, AppError::InvalidConfiguration(_)));
    error.message()
}

#[test]
fn static_directory_preflight_rejects_missing_and_non_directory_roots() {
    let mount = || Mount { prefix: "/preview".to_string(), dir: "/r/preview".to_string() };
    let gone = || PathFact::Unreadable("no such file".to_string());
    let facts = |static_dir: PathFact, entry: PathFact, pkg_dir: PathFact, mounts: Vec<PathFact>| {
        ServedPaths { static_dir, entry, pkg_dir, mounts }
    };
    let whole = |pkg_dir: PathFact, mounts: Vec<PathFact>| {
        facts(PathFact::Directory, PathFact::File(None), pkg_dir, mounts)
    };
    let check = |dir: &str, pkg: Option<&str>, facts: ServedPaths| {
        validate_static_directories(dir, pkg, &vec![], &facts)
    };

    assert!(check("", None, facts(gone(), gone(), gone(), vec![]))
        .unwrap_err()
        .contains("must not be empty"));
    assert_eq!(
        validate_static_directories(
            "/r/static",
            None,
            &vec![mount()],
            &whole(gone(), vec![PathFact::Directory]),
        ),
        Ok(())
    );
    assert!(check("/r/empty", None, facts(PathFact::Directory, gone(), gone(), vec![]))
        .unwrap_err()
        .contains("static entry"));
    assert_eq!(check("/r/static", Some("/r/pkg"), whole(PathFact::Directory, vec![])), Ok(()));
    assert!(check("/r/static", Some("/r/pkg-file"), whole(PathFact::File(None), vec![]))
        .unwrap_err()
        .contains("not a directory"));
    assert!(check("/r/missing", None, facts(gone(), gone(), gone(), vec![]))
        .unwrap_err()
        .contains("cannot be read"));
    assert_eq!(
        validate_static_directories(
            "/r/static",
            None,
            &vec![mount()],
            &whole(gone(), vec![PathFact::Other]),
        ),
        Err("static mount \"/preview\" /r/preview is not a directory".to_string())
    );
}

#[test]
fn agents_work_in_a_directory() {
    let ok = |text: &str| Ok::<String, String>(text.to_string());
    let err = |text: &str| Err::<String, String>(text.to_string());
    assert_eq!(agent_directory(ok("w"), ok("/real/w"), true).unwrap(), "/real/w");
    assert_eq!(
        refused(agent_directory(err("gone"), ok("/"), true).unwrap_err()),
        "invalid application configuration: failed to resolve default agent working directory: gone"
    );
    assert!(refused(agent_directory(ok(""), ok("/"), true).unwrap_err())
        .ends_with("agent working directory must not be empty"));
    assert!(refused(agent_directory(ok("w"), err("nowhere"), true).unwrap_err())
        .ends_with("agent working directory w cannot be resolved: nowhere"));
    assert!(refused(agent_directory(ok("w"), ok("/real/w"), false).unwrap_err())
        .ends_with("agent working directory /real/w is not a directory"));
}

#[test]
fn an_application_names_what_it_lacks() {
    let surface =
        |namespaces: Vec<String>| Some(SurfaceParts { namespaces, actions: vec![] });
    let registry = || Some(Providers(providers()));
    let refusal = |surface, providers, auth| match configure(surface, providers, auth) {
        Ok(_) => panic!("accepted"),
        Err(error) => error,
    };
    assert_eq!(missing(refusal(None, registry(), true)), "App::surface(...) is required");
    assert_eq!(missing(refusal(surface(vec![]), None, true)), "App::providers(...) is required");
    assert_eq!(
        missing(refusal(surface(vec![]), registry(), false)),
        "App::auth(...) is required"
    );
    let bare = configure(surface(vec![]), registry(), true).ok().unwrap();
    assert_eq!(bare.providers.len(), providers().len());
    assert!(bare.installed.actions.is_empty());
    let pointing = configure(surface(vec!["atlas".to_string()]), registry(), true).ok().unwrap();
    assert!(!pointing.installed.actions.is_empty(), "the host's own actions come with targets");
}

fn outside() -> Outside {
    Outside { activity: Ok(()), schemas: Ok(()) }
}

fn saved(id: &str) -> SavedEntry {
    SavedEntry {
        id: id.to_string(),
        marker: Some("true".to_string()),
        label: Some("Team".to_string()),
        base_url: Ok("https://e.test/v1".to_string()),
        model: Some("m".to_string()),
        vision: None,
    }
}

fn composed(
    actions: &Vec<ActionDef>,
    outside: Outside,
    saved: Vec<SavedEntry>,
    prompt: bool,
    dir: Option<&str>,
) -> Result<Composed, AppError> {
    let modules: Vec<ClientModule> = vec![];
    let parts = Composition {
        actions,
        modules: &modules,
        routes: &vec![RouteDef { method: HttpMethod::Get, path: "/page".to_string() }],
        action_routes: &vec![],
        mounts: &vec![],
    };
    compose(&parts, outside, providers(), saved, prompt, dir.map(|text| text.to_string()))
}

#[test]
fn an_application_is_put_together() {
    let none: Vec<ActionDef> = vec![];
    let whole = composed(&none, outside(), vec![saved("connection-a")], true, Some("static"));
    let whole = whole.ok().unwrap();
    assert_eq!(whole.static_dir, "static");
    assert_eq!(whole.providers.len(), providers().len() + 1);
    assert_eq!(whole.providers.last().unwrap().id, "connection-a");
    assert!(!whole.human_cookie);
    let people = vec![action("write", ActionAudience::Human)];
    assert!(composed(&people, outside(), vec![], true, Some("s")).ok().unwrap().human_cookie);

    let error = |outcome: Result<Composed, AppError>| match outcome {
        Ok(_) => panic!("accepted"),
        Err(error) => error,
    };
    let unopened = Outside { activity: Err("disk".to_string()), schemas: Ok(()) };
    assert!(refused(error(composed(&none, unopened, vec![], true, Some("s")))).ends_with("disk"));
    let uncompiled = Outside { activity: Ok(()), schemas: Err("schema".to_string()) };
    assert!(refused(error(composed(&none, uncompiled, vec![], true, Some("s"))))
        .ends_with("schema"));
    assert_eq!(
        missing(error(composed(&none, outside(), vec![], false, Some("s")))),
        "App::prompt(...) is required: your agent's persona/method"
    );
    assert_eq!(
        missing(error(composed(&none, outside(), vec![], true, None))),
        "App::static_dir(...) is required"
    );
}

#[test]
fn saved_connections_take_nobodys_place() {
    let connection = |id: &str| {
        Provider::connection(
            id.to_string(),
            "L",
            Ok("https://e.test".to_string()),
            "m",
            false,
        )
        .unwrap()
    };
    let both = vec![connection("connection-a"), connection("connection-b")];
    let merged = merge_connections(providers(), both).unwrap();
    assert_eq!(merged.len(), providers().len() + 2);
    assert_eq!(
        merge_connections(vec![connection("connection-a")], vec![connection("connection-a")])
            .unwrap_err(),
        "saved connection id `connection-a` collides with a configured provider"
    );
}

#[test]
fn an_application_starts_with_a_provider_that_it_has() {
    let unset = EnvValue::Unset;
    let list = providers();
    let actions = vec![
        action("look", ActionAudience::Agent),
        action("write", ActionAudience::Human),
    ];
    let begin = |byok: Result<(), String>, list: &Vec<Provider>, preferred: Option<&str>| {
        start(&actions, byok, list, &vendor(), preferred, &unset, &unset)
    };
    let started = begin(Ok(()), &list, Some("openai")).ok().unwrap();
    assert_eq!(started.provider_id, "openai");
    assert_eq!(started.catalog.tools.len(), 1, "agents hear of no action of the person's");
    let error = |outcome: Result<_, AppError>| match outcome {
        Ok(_) => panic!("accepted"),
        Err(error) => refused(error),
    };
    assert!(error(begin(Err("bad endpoint".to_string()), &list, None)).ends_with("bad endpoint"));
    assert!(error(begin(Ok(()), &vec![], None)).ends_with("no provider can be selected"));
    assert!(error(begin(Ok(()), &list, Some("missing"))).contains("missing"));
    let twice = vec![
        action("look", ActionAudience::Agent),
        action("look", ActionAudience::Agent),
    ];
    assert!(error(start(&twice, Ok(()), &list, &vendor(), None, &unset, &unset))
        .contains("invalid MCP action catalog: "));
}

#[test]
fn errors_say_what_failed() {
    let error = loopback_socket_addr(Err("no port".to_string())).unwrap_err();
    assert_eq!(error.message(), "invalid listen address: no port");
    assert_eq!(
        AppError::Bind("in use".to_string()).message(),
        "failed to bind HTTP listener: in use"
    );
    assert_eq!(AppError::Serve("gone".to_string()).message(), "HTTP server failed: gone");
}

#[test]
fn optional_routes_are_mounted_on_request() {
    assert!(Hitl::none().routes().is_empty());
    let all = Hitl { barge_in: true, decisions: true, focus: true };
    assert_eq!(all.routes(), ["/semantic", "/interrupt", "/decision"]);
}

#[test]
fn a_start_is_on_record() {
    assert_eq!(
        started_records("127.0.0.1:8090", "pi"),
        [
            Record::Lifecycle {
                name: "runtime.started".to_string(),
                outcome: ActivityOutcome::Started,
                run: None,
                detail: Some("listening on 127.0.0.1:8090".to_string()),
            },
            Record::Provider {
                name: "provider.selected".to_string(),
                outcome: ActivityOutcome::Info,
                run: None,
                provider: "pi".to_string(),
            },
        ]
    );
}
