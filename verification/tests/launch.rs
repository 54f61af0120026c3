use ag_ui_surface::actions::ActionDef;
use ag_ui_surface::caller::ActionAudience;
use ag_ui_surface::client_module::ClientModule;
use ag_ui_surface::http::{HttpMethod, RouteDef};
use ag_ui_surface::json::Json;
use ag_ui_surface::launch::{launch, App, Launched, Pages, World};
use ag_ui_surface::providers::{builtin, EnvValue, Providers, Vendor};
use ag_ui_surface::startup::{
    AppError, Hitl, ListenAddress, Outside, PathFact, ServedPaths, SurfaceParts,
};

fn vendor() -> Vendor {
    Vendor::new("acme", "Acme").unwrap()
}

fn action(name: &str, audience: ActionAudience) -> ActionDef {
    let schema = Json::parse(r#"{ "type": "object" }"#).unwrap();
    ActionDef::new(name.to_string(), "Does it.".to_string(), schema).audience(audience)
}

fn parts() -> SurfaceParts {
    SurfaceParts {
        namespaces: vec!["atlas".to_string()],
        actions: vec![action("write", ActionAudience::Human)],
    }
}

fn pages() -> Pages {
    Pages {
        modules: vec![ClientModule::lazy("atlas", "1.0.0", "/extensions/atlas.js", "atlas")],
        routes: vec![RouteDef { method: HttpMethod::Get, path: "/page".to_string() }],
        action_routes: vec![],
    }
}

fn providers() -> Providers {
    Providers(builtin(&vendor(), &vec!["npx".to_string(), "pi".to_string()]))
}

fn whole() -> App {
    App::new()
        .surface(parts(), pages())
        .providers(providers())
        .auth()
        .prompt("help".to_string())
        .static_dir("static".to_string())
        .default_provider("openai".to_string())
        .voice(true)
        .hitl(Hitl { barge_in: true, decisions: false, focus: false })
}

fn world() -> World {
    World {
        outside: Outside { activity: Ok(()), schemas: Ok(()) },
        saved: vec![],
        paths: ServedPaths {
            static_dir: PathFact::Directory,
            entry: PathFact::File(None),
            pkg_dir: PathFact::Directory,
            mounts: vec![],
        },
        current_dir: Ok("/here".to_string()),
        canonical_dir: Ok("/really/here".to_string()),
        is_directory: true,
        files: vec!["static/extensions/atlas.js".to_string()],
        address: Ok(ListenAddress {
            octets: Some((127, 0, 0, 1)),
            text: "127.0.0.1:8090".to_string(),
        }),
        byok: Ok(()),
        agui: EnvValue::Unset,
        canvas: EnvValue::Unset,
    }
}

fn error(app: App, world: World) -> String {
    let outcome: Result<Launched, AppError> = launch(app, world, &vendor());
    match outcome {
        Ok(_) => panic!("started"),
        Err(error) => error.message(),
    }
}

#[test]
fn a_whole_application_starts() {
    let ready = launch(whole(), world(), &vendor()).ok().unwrap();
    assert_eq!(ready.provider_id, "openai");
    assert_eq!(ready.directory, "/really/here");
    assert_eq!(ready.static_dir, "static");
    assert_eq!(ready.address.text, "127.0.0.1:8090");
    assert_eq!(ready.manifest.extensions.len(), 1);
    assert_eq!(ready.actions.len(), 5, "the host's own actions come with targets");
    assert_eq!(ready.catalog.tools.len(), 4, "agents hear of no action of the person's");
    assert!(ready.human_cookie);
    assert!(ready.service.has_room());
    assert_eq!(ready.service.human_attention_revision(), 0);
    assert_eq!(ready.service.calling_participant().id, "surface-agent");
    assert_eq!(ready.service.namespaces(), ["atlas"]);
}

#[test]
fn the_record_is_kept_beside_the_credentials_unless_it_has_a_place() {
    assert_eq!(App::new().activity_place("/store/activity.json"), "/store/activity.json");
    let placed = App::new().activity_store("/elsewhere.json".to_string());
    assert_eq!(placed.activity_place("/store/activity.json"), "/elsewhere.json");
}

#[test]
fn the_parts_are_looked_at_before_the_world() {
    let told = |app: &App| app.check_parts().err().map(|error| error.message());
    assert_eq!(told(&whole()), None);
    assert_eq!(told(&App::new()), Some("App::surface(...) is required".to_string()));
    let unnamed = App::new().surface(parts(), pages());
    assert_eq!(told(&unnamed), Some("App::providers(...) is required".to_string()));
    let keyless = unnamed.providers(providers());
    assert_eq!(told(&keyless), Some("App::auth(...) is required".to_string()));
    let mut colliding = parts();
    colliding.actions.push(action("semantic_targets_read", ActionAudience::Agent));
    assert!(told(&App::new().surface(colliding, pages())).unwrap().contains("collides"));
}

#[test]
fn each_thing_that_is_wrong_keeps_it_from_starting() {
    assert_eq!(error(App::new(), world()), "App::surface(...) is required");
    let unnamed = || App::new().surface(parts(), pages());
    assert_eq!(error(unnamed(), world()), "App::providers(...) is required");
    assert_eq!(error(unnamed().providers(providers()), world()), "App::auth(...) is required");

    let mut silent = whole();
    silent.prompt = None;
    assert!(error(silent, world()).starts_with("App::prompt(...) is required"));

    let mut conflicting = whole();
    conflicting.pages.routes.push(RouteDef { method: HttpMethod::Get, path: "/mcp".to_string() });
    assert!(error(conflicting, world()).contains("conflicts with a runtime-owned path"));

    let mut bare = world();
    bare.paths.entry = PathFact::Other;
    assert!(error(whole(), bare).contains("static entry"));

    let mut homeless = world();
    homeless.is_directory = false;
    assert!(error(whole(), homeless).ends_with("/really/here is not a directory"));

    let mut stripped = world();
    stripped.files = vec![];
    assert!(error(whole(), stripped).ends_with("is missing at static/extensions/atlas.js"));

    let mut exposed = world();
    exposed.address =
        Ok(ListenAddress { octets: Some((0, 0, 0, 0)), text: "0.0.0.0:8090".to_string() });
    assert!(error(whole(), exposed).contains("is not 127.0.0.1"));

    let mut named = world();
    named.agui = EnvValue::Text("missing".to_string());
    assert!(error(whole(), named).contains("missing"));
}

#[test]
fn the_first_thing_that_is_wrong_is_told() {
    let mut broken = world();
    broken.paths.static_dir = PathFact::Unreadable("gone".to_string());
    broken.address = Err("no port".to_string());
    assert!(error(whole(), broken).contains("static directory static cannot be read: gone"));
    let mut unset = world();
    unset.address = Err("no port".to_string());
    unset.byok = Err("bad endpoint".to_string());
    assert_eq!(error(whole(), unset), "invalid listen address: no port");
}

#[test]
fn an_application_keeps_what_it_is_given() {
    let app = whole()
        .pkg_dir("pkg".to_string())
        .agent_cwd("/work".to_string())
        .mount("/preview", "preview".to_string());
    assert_eq!(app.pkg_dir.as_deref(), Some("pkg"));
    assert_eq!(app.agent_cwd.as_deref(), Some("/work"));
    assert_eq!(app.mounts[0].prefix, "/preview");
    assert!(app.voice && app.hitl.barge_in);
    assert!(App::new().try_surface(Err("corrupt state".to_string())).is_err());
    assert!(App::new().try_surface(Ok((parts(), pages()))).is_ok());
    let mut elsewhere = world();
    elsewhere.current_dir = Err("unknown".to_string());
    assert!(error(whole(), elsewhere).ends_with("working directory: unknown"));
}
