use ag_ui_surface::json::Json;
use ag_ui_surface::providers::{builtin, Provider, Vendor};
use ag_ui_surface::settings::{
    adopted, audio_reply, auth_request, auth_snapshot, came_back, catalog_reply,
    connection_changed, connection_request, connection_request_with, connection_settings, control_request,
    deleted_reply, effective_base_url, forget_connection, not_restarted_reply, provider_list,
    provider_post, requested_base_url, saved_reply, search_models, search_models_with,
    store_connection, store_failed_reply, switch_outcome, switched_reply, updated_reply,
    ActiveProvider, ApiKeyUpdate, AuthStatus, AuthStep, Byok, CatalogFetch, ConnectionStep,
    ControlStep, SettingChange, SwitchProgress, SwitchStep,
};
use ag_ui_surface::textmap::TextMap;

fn json(text: &str) -> Json {
    Json::parse(text).unwrap()
}

fn providers() -> Vec<Provider> {
    let vendor = Vendor::new("acme", "Acme").unwrap();
    builtin(&vendor, &vec!["npx".to_string(), "pi".to_string()])
}

fn active(id: &str, ready: bool) -> ActiveProvider {
    ActiveProvider { id: id.to_string(), ready, warming: false, error: None }
}

fn byok() -> Byok {
    Byok { base_url: "http://localhost:1234".to_string(), model: "local".to_string() }
}

fn refusal(reply: &ag_ui_surface::routes::Reply) -> (u16, String) {
    (reply.status, reply.body.str_member("error").unwrap_or("").to_string())
}

fn connection() -> Provider {
    Provider::connection(
        "connection-a".to_string(),
        "Team",
        Ok("https://e.test/v1".to_string()),
        "m",
        true,
    )
    .unwrap()
}

#[test]
fn the_settings_page_hears_of_every_provider_and_no_key() {
    let list = providers();
    let status = |local: bool| AuthStatus {
        kind: "api_key".to_string(),
        ready: false,
        source: "none".to_string(),
        detail: None,
        local,
    };
    let statuses: Vec<AuthStatus> =
        list.iter().map(|provider| status(provider.id == "openai")).collect();
    let mut overrides = TextMap::new();
    overrides.insert("acme-max", "newer");
    let snapshot =
        auth_snapshot(&list, &statuses, &active("openai", true), &byok(), &overrides);
    assert_eq!(snapshot.str_member("current"), Some("openai"));
    let rows = snapshot.get("providers").unwrap().as_array().unwrap();
    assert_eq!(rows.len(), list.len());
    assert_eq!(rows[0].str_member("model"), Some("newer"));
    assert_eq!(rows[0].str_member("runtime_state"), Some("not-selected"));
    assert_eq!(rows[0].bool_member("configured"), Some(false));
    let openai = rows.last().unwrap();
    assert_eq!(openai.str_member("runtime_state"), Some("ready"));
    assert_eq!(openai.str_member("detail"), Some("local server, no key needed"));
    assert_eq!(openai.bool_member("configured"), Some(true));
    assert_eq!(openai.str_member("base_url"), Some("http://localhost:1234"));
    assert!(rows.iter().all(|row| row.get("api_key").is_none()));
    assert_eq!(effective_base_url(&list[0], &byok()), "https://api.anthropic.com/v1");
    let short = provider_list(&list, &active("openai", true));
    assert_eq!(short.str_member("current"), Some("openai"));
}

#[test]
fn switching_names_a_provider_that_is_there() {
    let list = providers();
    let post = |text: &str, now: &ActiveProvider| provider_post(&list, now, &json(text));
    match post(r#"{ "id": "missing" }"#, &active("openai", true)) {
        SwitchStep::Answer(reply) => {
            assert_eq!(refusal(&reply), (400, "unknown provider".to_string()));
        }
        other => panic!("unexpected {other:?}"),
    }
    match post(r#"{ "id": " openai " }"#, &active("openai", true)) {
        SwitchStep::Answer(reply) => assert_eq!(reply.body.bool_member("unchanged"), Some(true)),
        other => panic!("unexpected {other:?}"),
    }
    assert_eq!(
        post(r#"{ "id": "openai" }"#, &active("openai", false)),
        SwitchStep::Switch { id: "openai".to_string() }
    );
    assert!(adopted(4, 3, "openai", "openai"));
    assert!(!adopted(3, 3, "openai", "openai"));
    assert!(!adopted(4, 3, "pi", "openai"));
    assert_eq!(
        switch_outcome(SwitchProgress::TimedOut, "pi").unwrap_err(),
        "provider \"pi\" was not adopted within 12 seconds"
    );
    assert_eq!(
        switch_outcome(SwitchProgress::NotQueued, "pi").unwrap_err(),
        "provider supervisor is unavailable"
    );
    assert_eq!(switch_outcome(SwitchProgress::Adopted(4), "pi"), Ok(4));
    assert!(came_back(4, 4, true));
    assert!(!came_back(3, 4, true));
    assert!(!came_back(4, 4, false));
    assert_eq!(switched_reply("pi", &Ok(4), true).body.bool_member("adopted"), Some(true));
    assert_eq!(
        refusal(&switched_reply("pi", &Err("late".to_string()), true)),
        (503, "late".to_string())
    );
}

#[test]
fn connections_are_saved_and_deleted_by_their_id() {
    let url = || Ok("https://e.test/v1".to_string());
    let body = json(r#"{ "label": "Team", "model": "m", "base_url": "https://e.test/v1", "api_key": " k " }"#);
    assert_eq!(requested_base_url(&body), "https://e.test/v1");
    match connection_request_with(&body, "openai", "abc", url()) {
        ConnectionStep::Save { connection, key } => {
            assert_eq!(connection.id, "connection-abc");
            assert_eq!(key, ApiKeyUpdate::Replace("k".to_string()));
            assert!(connection.key_source.is_none());
        }
        other => panic!("unexpected {other:?}"),
    }
    match connection_request(&body, "openai", url()) {
        ConnectionStep::Save { connection, .. } => {
            assert!(connection.id.starts_with("connection-"));
            assert!(connection.id.len() > "connection-".len());
        }
        other => panic!("unexpected {other:?}"),
    }
    let answer = |text: &str, active: &str| match connection_request(&json(text), active, url()) {
        ConnectionStep::Answer(reply) => refusal(&reply),
        other => panic!("unexpected {other:?}"),
    };
    assert_eq!(
        answer(r#"{ "action": "rename" }"#, "openai"),
        (400, "unknown connection action".to_string())
    );
    assert_eq!(
        answer(r#"{ "action": "delete", "id": "openai" }"#, "pi"),
        (400, "invalid connection id".to_string())
    );
    assert_eq!(answer(r#"{ "action": "delete", "id": "connection-a" }"#, "connection-a").0, 409);
    assert_eq!(
        connection_request(&json(r#"{ "action": "delete", "id": "connection-a" }"#), "pi", url()),
        ConnectionStep::Delete { id: "connection-a".to_string() }
    );

    let mut stored = providers();
    store_connection(&mut stored, connection());
    assert_eq!(stored.len(), providers().len() + 1);
    store_connection(&mut stored, connection());
    assert_eq!(stored.len(), providers().len() + 1, "saving twice keeps one");
    assert_eq!(forget_connection(stored, "connection-a").len(), providers().len());
    let settings = connection_settings(&connection());
    assert_eq!(settings.label, "Team");
    assert_eq!(settings.vision, "true");
    assert_eq!(store_failed_reply("disk").status, 500);
    assert_ne!(not_restarted_reply("x").status, 200);
    assert_eq!(saved_reply(Json::Null, "connection-a").status, 200);
    assert_eq!(deleted_reply(Json::Null).status, 200);
}

#[test]
fn keys_and_models_are_updated_where_they_belong() {
    let mut list = providers();
    store_connection(&mut list, connection());
    let step = |text: &str, url: Result<String, String>| {
        auth_request(&list, &json(text), byok(), TextMap::new(), url)
    };
    let update = |text: &str| match step(text, Ok("https://new.test".to_string())) {
        AuthStep::Update(update) => update,
        other => panic!("unexpected {other:?}"),
    };
    let answer = |text: &str, url: Result<String, String>| match step(text, url) {
        AuthStep::Answer(reply) => refusal(&reply),
        other => panic!("unexpected {other:?}"),
    };
    let ok = || Ok(String::new());
    assert_eq!(answer(r#"{ "provider": "x" }"#, ok()), (400, "unknown provider".to_string()));
    assert_eq!(
        answer(r#"{ "provider": "acme-max", "model": "m" }"#, ok()).1,
        "this provider does not accept API-key endpoint/model updates"
    );
    assert_eq!(
        answer(r#"{ "provider": "openai", "base_url": "x" }"#, Err("bad url".to_string())),
        (400, "bad url".to_string())
    );
    let own = update(r#"{ "provider": "openai", "base_url": "https://new.test", "remove": true }"#);
    assert_eq!(own.byok.base_url, "https://new.test");
    assert_eq!(own.byok.model, "local");
    assert_eq!(own.key, ApiKeyUpdate::Remove);
    assert!(own.restarts);
    let chosen = update(r#"{ "provider": "connection-a", "model": " m2 ", "api_key": "" }"#);
    assert_eq!(chosen.overrides.get("connection-a"), Some("m2"));
    assert_eq!(chosen.model, SettingChange::Replace("m2".to_string()));
    assert_eq!(chosen.key, ApiKeyUpdate::Keep);
    let cleared = update(r#"{ "provider": "connection-a", "model": " " }"#);
    assert_eq!(cleared.model, SettingChange::Remove);
    assert_eq!(updated_reply(Json::Object(Vec::new()), true, true).status, 200);
}

#[test]
fn models_are_searched_without_regard_to_case() {
    let catalog = json(
        r#"{ "data": [ { "id": "a/One", "name": "First" }, { "id": "b/two" }, { "name": "no id" } ] }"#,
    );
    let ids = |query: Option<&str>| -> Vec<String> {
        search_models(&catalog, query)
            .get("models")
            .unwrap()
            .as_array()
            .unwrap()
            .iter()
            .map(|model| model.str_member("id").unwrap().to_string())
            .collect()
    };
    assert_eq!(ids(None), ["a/One", "b/two"]);
    assert_eq!(ids(Some(" FIRST ")), ["a/One"]);
    assert_eq!(ids(Some("TWO")), ["b/two"]);
    assert!(ids(Some("zzz")).is_empty());
    let texts = vec!["a/one first".to_string(), "b/two b/two".to_string(), String::new()];
    let found = search_models_with(&catalog, "first", &texts);
    assert_eq!(found, search_models(&catalog, Some("First")));

    assert_eq!(catalog_reply(&CatalogFetch::NoClient("tls".to_string()), None).status, 500);
    let unavailable = catalog_reply(&CatalogFetch::Unavailable("dns".to_string()), None);
    assert_eq!(refusal(&unavailable), (502, "OpenRouter catalog unavailable: dns".to_string()));
    let status = catalog_reply(&CatalogFetch::Status("500 Internal".to_string()), None);
    assert_eq!(refusal(&status), (502, "OpenRouter catalog returned 500 Internal".to_string()));
    let invalid = catalog_reply(&CatalogFetch::Invalid("eof".to_string()), None);
    assert_eq!(refusal(&invalid), (502, "invalid OpenRouter catalog: eof".to_string()));
    let whole = catalog_reply(&CatalogFetch::Body(catalog.copy()), Some("one"));
    assert_eq!(whole.status, 200);
    assert_eq!(whole.body, search_models(&catalog, Some("one")));
}

#[test]
fn audio_control_requires_an_explicit_boolean() {
    for body in [r#"{ "action": "audio" }"#, r#"{ "action": "audio", "on": "true" }"#] {
        match control_request(&json(body)) {
            ControlStep::Answer(reply) => {
                assert_eq!(
                    refusal(&reply),
                    (400, "audio control requires boolean `on`".to_string())
                );
            }
            other => panic!("unexpected {other:?}"),
        }
    }
    assert_eq!(
        control_request(&json(r#"{ "action": "audio", "on": true }"#)),
        ControlStep::Audio(true)
    );
    assert!(matches!(control_request(&json(r#"{ "action": "video" }"#)), ControlStep::Answer(_)));
    assert_eq!(audio_reply(true).body.bool_member("audio"), Some(true));
    assert_eq!(audio_reply(false).body.bool_member("audio"), Some(false));
}

#[test]
fn a_stored_connection_chooses_its_model_and_restarts_when_it_is_active() {
    let mut overrides = TextMap::new();
    overrides.insert("connection-a", "old");
    overrides.insert("openai", "kept");
    let stored = connection_changed("connection-a", "connection-a", Some("new"), overrides.copy());
    assert!(stored.switch);
    assert_eq!(stored.overrides.get("connection-a"), Some("new"));
    assert_eq!(stored.overrides.get("openai"), Some("kept"));
    let other = connection_changed("openai", "connection-a", Some("new"), overrides.copy());
    assert!(!other.switch);
    let gone = connection_changed("openai", "connection-a", None, overrides);
    assert!(!gone.switch);
    assert_eq!(gone.overrides.get("connection-a"), None);
    assert_eq!(gone.overrides.get("openai"), Some("kept"));
}
