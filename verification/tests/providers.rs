use ag_ui_surface::providers::{
    build, build_required, builtin, builtin_programs, default_id, default_id_with, find,
    is_user_connection, load_into, load_presets, parse_models, pi_rpc_supported, pi_rpc_version,
    place_of, preset_request, saved_connections, select_default_id, valid_connection_id, AuthKind,
    Backend, EnvValue, ModelsFile, PresetLookup, Provider, ProviderConfigError, Providers,
    SavedEntry, Vendor, CONNECTION_ID_PREFIX, CONNECTION_LABEL, CONNECTION_MARKER,
    CONNECTION_VISION, PI_RPC_VERSIONS,
};

fn vendor() -> Vendor {
    Vendor::new("acme", "Acme").unwrap()
}

/// Endpoints as a strict reader of urls sees them.
fn canonical(url: &str) -> Result<String, String> {
    if url.contains('@') || url.contains('?') || url.contains('#') {
        Err("base_url must not carry credentials, a query or a fragment".to_string())
    } else {
        Ok(url.to_string())
    }
}

/// The variables that a key source names.
fn names(source: &str) -> Vec<String> {
    source.strip_prefix('$').map(str::to_string).into_iter().collect()
}

fn parse(text: &str) -> Result<Vec<Provider>, ProviderConfigError> {
    load_into(Vec::new(), text, &canonical, &names).map_err(|message| {
        ProviderConfigError::Invalid { path: "models.json".to_string(), message }
    })
}

fn every_program() -> Vec<String> {
    ["npx", "gemini", "opencode", "pi"].map(str::to_string).to_vec()
}

#[test]
fn config_is_fail_closed_and_normalizes_safe_base_urls() {
    let providers = parse(
        r#"{"providers":[{"id":"local","base_url":"https://example.test/v1/","model":"m"}]}"#,
    )
    .unwrap();
    assert_eq!(providers[0].base_url.as_deref(), Some("https://example.test/v1"));

    for base_url in [
        "https://user@example.test/v1",
        "https://example.test/v1?q=x",
        "https://example.test/v1#x",
    ] {
        let text = format!(
            r#"{{"providers":[{{"id":"unsafe","base_url":"{base_url}","model":"m"}}]}}"#
        );
        assert!(matches!(parse(&text), Err(ProviderConfigError::Invalid { .. })));
    }
    assert!(matches!(parse("{not-json"), Err(ProviderConfigError::Invalid { .. })));
}

#[test]
fn managed_subscription_oauth_is_rejected_from_api_presets() {
    let error = match parse(
        r#"{"providers":[{"id":"subscription","base_url":"https://example.test/v1","model":"m","auth":"oauth"}]}"#,
    ) {
        Ok(_) => panic!("managed subscription OAuth must not be accepted as an API preset"),
        Err(error) => error,
    };
    assert!(error.message().contains("use its ACP agent"));
}

#[test]
fn claude_max_is_a_first_class_keychain_oauth_provider() {
    let providers = builtin(&vendor(), &every_program());
    let provider = find(&providers, &vendor().max_id()).expect("built-in");
    assert_eq!(provider.id, "acme-max");
    assert!(matches!(provider.backend, Backend::OpenAi));
    assert_eq!(provider.auth, AuthKind::Oauth);
    assert_eq!(provider.base_url.as_deref(), Some("https://api.anthropic.com/v1"));
    assert_eq!(provider.model.as_deref(), Some(vendor().max_model().as_str()));
    assert_eq!(provider.model.as_deref(), Some("acme-sonnet-4-5-20250929"));
    assert!(provider.key_source.is_none());
    assert!(provider.env_vars.is_empty());
}

#[test]
fn explicit_provider_selection_never_falls_through() {
    let providers = parse(
        r#"{"providers":[{"id":"openai","base_url":"https://example.test/v1","model":"m"}]}"#,
    )
    .expect("provider fixture");
    let select = |preferred: Option<&str>, named: Option<(&str, &str)>| {
        select_default_id(&providers, &vendor(), preferred, named)
    };
    assert_eq!(
        select(None, Some(("AGUI_PROVIDER", " openai "))),
        Ok(Some("openai".to_string()))
    );
    assert!(select(None, Some(("AGUI_PROVIDER", "")))
        .is_err_and(|error| error.contains("must not be empty")));
    assert!(select(None, Some(("AGUI_PROVIDER", "missing")))
        .is_err_and(|error| error.contains("unknown provider")));
    assert!(select(Some("missing"), None).is_err_and(|error| error.contains("is not enabled")));
    assert!(select(Some("  "), None).is_err_and(|error| error.contains("must not be empty")));
}

#[test]
fn adapter_package_versions_are_pinned() {
    let providers = builtin(&vendor(), &every_program());
    for id in ["acme", "codex"] {
        let provider = find(&providers, id).expect("every program is there");
        let Backend::Acp { args, .. } = &provider.backend else {
            panic!("{id} must use ACP");
        };
        assert!(args.iter().any(|arg| arg.rsplit_once('@').is_some_and(
            |(package, version)| package.starts_with("@agentclientprotocol/")
                && !version.is_empty()
                && version.chars().all(|ch| ch.is_ascii_digit() || ch == '.')
        )));
    }
    let pi = Provider::pi_rpc();
    assert!(matches!(pi.backend, Backend::PiRpc { .. }));
    assert!(pi_rpc_supported("0.81.1"), "0.81.1 was the first contract");
    assert!(pi_rpc_supported("0.82.1"), "0.82.1 was probed on 2026-07-27");
    assert!(!pi_rpc_supported("0.83.0"), "an unprobed version must be refused");
    assert!(!pi_rpc_supported(""), "no version is not a version");
    assert_eq!(pi_rpc_version(), "0.82.1", "messages name the newest checked build");
    assert_eq!(PI_RPC_VERSIONS.last(), Some(&pi_rpc_version()));
    assert!(PI_RPC_VERSIONS.iter().all(|version| pi_rpc_supported(version)));
}

#[test]
fn only_runnable_built_ins_are_offered() {
    let ids = |available: &[&str]| -> Vec<String> {
        let available = available.iter().map(|name| name.to_string()).collect();
        builtin(&vendor(), &available).into_iter().map(|provider| provider.id).collect()
    };
    assert_eq!(ids(&[]), ["acme-max", "openai"]);
    assert_eq!(ids(&["npx", "pi"]), ["acme-max", "acme", "codex", "pi", "openai"]);
    let kept = Providers(builtin(&vendor(), &every_program())).acp_only();
    assert!(kept.0.iter().all(|provider| matches!(provider.backend, Backend::Acp { .. })));
    let managed = Providers(builtin(&vendor(), &every_program())).managed_agents_only();
    assert_eq!(managed.0.len(), kept.0.len() + 1);
    assert!(managed.0.iter().all(|provider| provider.backend.is_managed_agent()));
}

#[test]
fn a_models_file_is_optional_unless_it_is_required() {
    let missing = || ModelsFile::Missing("not found".to_string());
    let available = every_program();
    assert!(build("m.json", missing(), &vendor(), &available, &canonical, &names).is_ok());
    match build_required("m.json", missing(), &vendor(), &available, &canonical, &names) {
        Err(error) => {
            assert!(matches!(error, ProviderConfigError::Read { .. }));
            assert!(error.message().contains("m.json"));
            assert!(error.message().contains("not found"));
        }
        Ok(_) => panic!("a required file must exist"),
    }
    let unreadable = ModelsFile::Unreadable("denied".to_string());
    assert!(build("m.json", unreadable, &vendor(), &available, &canonical, &names).is_err());
    assert!(Providers::from_file("m.json", missing(), &vendor(), &available, &canonical, &names).is_ok());
    assert!(
        Providers::from_required_file("m.json", missing(), &vendor(), &available, &canonical, &names).is_err()
    );
}

#[test]
fn presets_are_checked_row_by_row() {
    let error = |text: &str| parse(text).err().expect("refused").message();
    let row = |fields: &str| format!(r#"{{"providers":[{{{fields}}}]}}"#);
    let good = r#""id":"a","base_url":"https://e.test","model":"m""#;
    assert!(parse(&row(good)).is_ok());
    assert!(error("[]").contains("providers"));
    for bad in [
        r#""base_url":"https://e.test","model":"m""#.to_string(),
        r#""id":"a","model":"m""#.to_string(),
        r#""id":"a","base_url":"https://e.test""#.to_string(),
        format!(r#"{good},"vision":"yes""#),
        format!(r#"{good},"auth":"magic""#),
    ] {
        let message = error(&row(&bad));
        assert!(message.contains("models.json"), "{message}");
    }
    let twice = format!(r#"{{"providers":[{{{good}}},{{{good}}}]}}"#);
    assert!(error(&twice).contains("duplicate"));
}

fn saved(id: &str, label: &str) -> SavedEntry {
    SavedEntry {
        id: id.to_string(),
        marker: Some("true".to_string()),
        label: Some(label.to_string()),
        base_url: Ok("https://openrouter.ai/api/v1".to_string()),
        model: Some("openai/gpt-4o-mini".to_string()),
        vision: None,
    }
}

#[test]
fn saved_connections_restore_without_exposing_or_copying_the_key() {
    let restored = saved_connections(vec![
        saved("connection-team-router", "Team Router"),
        SavedEntry { marker: None, ..saved("openai", "ignored") },
        saved("connection-b", "another"),
    ])
    .unwrap();
    assert_eq!(restored.len(), 2);
    assert_eq!(restored[0].label, "another", "in the order of lower-case labels");
    assert_eq!(restored[1].id, "connection-team-router");
    assert_eq!(restored[1].label, "Team Router");
    assert_eq!(restored[1].base_url.as_deref(), Some("https://openrouter.ai/api/v1"));
    assert_eq!(restored[1].model.as_deref(), Some("openai/gpt-4o-mini"));
    assert!(restored[1].key_source.is_none());
    assert!(restored.iter().all(is_user_connection));
    let broken = SavedEntry { model: None, ..saved("connection-x", "X") };
    assert!(saved_connections(vec![saved("connection-b", "B"), broken]).is_err());
}

#[test]
fn a_vendors_ids_are_its_own() {
    for word in ["connection-x", "connection", "codex", "pi", "gemini", "openai", "opencode"] {
        assert_eq!(Vendor::new(word, "Any"), None, "{word}");
    }
    for provider in builtin(&vendor(), &every_program()) {
        assert!(!is_user_connection(&provider), "{}", provider.id);
    }
    assert_eq!(vendor().max_id(), "acme-max");
    assert!(Vendor::new("connections", "Any").is_some());
}

#[test]
fn connection_ids_are_the_persons_own() {
    assert!(valid_connection_id("connection-team-router"));
    for id in ["team", "connection-", "connection-A", "connection-a b"] {
        assert!(!valid_connection_id(id), "{id}");
    }
}

#[test]
fn the_environment_names_the_provider_first() {
    let providers = builtin(&vendor(), &vec!["npx".to_string()]);
    let text = |id: &str| EnvValue::Text(id.to_string());
    let none = EnvValue::Unset;
    assert_eq!(
        default_id(&providers, &vendor(), &none, &none),
        Ok(Some("acme-max".to_string()))
    );
    assert_eq!(
        default_id(&providers, &vendor(), &text("codex"), &text("openai")),
        Ok(Some("codex".to_string()))
    );
    assert_eq!(
        default_id(&providers, &vendor(), &none, &text("openai")),
        Ok(Some("openai".to_string()))
    );
    assert_eq!(
        default_id_with(&providers, &vendor(), Some("openai"), &none, &none),
        Ok(Some("openai".to_string()))
    );
    assert_eq!(
        default_id(&providers, &vendor(), &EnvValue::NotUnicode, &none),
        Err("AGUI_PROVIDER is not valid Unicode".to_string())
    );
    assert_eq!(default_id(&vec![], &vendor(), &none, &none), Ok(None));
}

#[test]
fn equal_labels_keep_their_order() {
    let keys: Vec<String> = ["a", "b", "b", "c"].iter().map(|key| key.to_string()).collect();
    assert_eq!(place_of(&keys, "b"), 3);
    assert_eq!(place_of(&keys, "0"), 0);
    assert_eq!(place_of(&keys, "z"), 4);
    let labels: Vec<String> = saved_connections(vec![
        saved("connection-c", "\u{c9}clair"),
        saved("connection-a", "\u{e9}clair 2"),
        saved("connection-b", "Alpha"),
    ])
    .unwrap()
    .into_iter()
    .map(|provider| provider.label)
    .collect();
    assert_eq!(labels, ["Alpha", "\u{c9}clair", "\u{e9}clair 2"], "capitals sort as small letters");
}

#[test]
fn each_row_is_looked_up_with_its_own_endpoint_and_key() {
    let text = r#"{"providers":[
        {"id":"one","base_url":" https://one.test/v1// ","model":"m","api_key":" $ONE_KEY "},
        {"id":"two","base_url":"https://two.test","model":"n","label":"Two","vision":true}
    ]}"#;
    let tagged = |url: &str| Ok::<String, String>(format!("<{url}>"));
    let list = load_into(Vec::new(), text, &tagged, &names).unwrap();
    assert_eq!(list[0].base_url.as_deref(), Some("<https://one.test/v1>"));
    assert_eq!(list[0].key_source.as_deref(), Some("$ONE_KEY"));
    assert_eq!(list[0].env_vars, ["ONE_KEY"]);
    assert_eq!(list[1].base_url.as_deref(), Some("<https://two.test>"));
    assert_eq!((list[1].label.as_str(), list[1].vision), ("Two", true));
    assert!(list[1].env_vars.is_empty() && list[1].key_source.is_none());

    let root = parse_models(text).unwrap();
    let rows = root.get("providers").and_then(|rows| rows.as_array()).unwrap();
    let found: Vec<PresetLookup> = rows
        .iter()
        .map(|row| {
            let request = preset_request(row);
            let env_vars = request.key_source.map_or_else(Vec::new, |source| names(&source));
            PresetLookup { base_url: tagged(&request.base_url), env_vars }
        })
        .collect();
    let again = load_presets(Vec::new(), &root, &found).unwrap();
    assert_eq!(again, list);

    assert_eq!(
        load_into(Vec::new(), "[]", &tagged, &names),
        Err("expected a top-level `providers` array".to_string())
    );
    let broken = load_into(Vec::new(), "{", &tagged, &names).unwrap_err();
    assert!(broken.starts_with("malformed JSON: "), "{broken}");
}

#[test]
fn a_models_file_adds_to_the_built_ins() {
    let read = |text: &str| ModelsFile::Read(text.to_string());
    let row = r#"{"providers":[{"id":"local","base_url":"https://e.test","model":"m"}]}"#;
    let none: Vec<String> = Vec::new();
    let built = build("m.json", read(row), &vendor(), &none, &canonical, &names).unwrap();
    let ids: Vec<&str> = built.iter().map(|provider| provider.id.as_str()).collect();
    assert_eq!(ids, ["acme-max", "openai", "local"]);
    match build("m.json", read("{"), &vendor(), &none, &canonical, &names) {
        Err(ProviderConfigError::Invalid { path, message }) => {
            assert_eq!(path, "m.json");
            assert!(message.starts_with("malformed JSON: "), "{message}");
        }
        other => panic!("unexpected {other:?}"),
    }
    let mut programs = builtin_programs(&vendor());
    programs.sort();
    programs.dedup();
    assert_eq!(programs, ["gemini", "npx", "opencode", "pi"]);
}

#[test]
fn connections_are_stored_under_known_names() {
    assert_eq!(CONNECTION_ID_PREFIX, "connection-");
    assert_eq!(CONNECTION_MARKER, "agui_connection");
    assert_eq!((CONNECTION_LABEL, CONNECTION_VISION), ("label", "vision"));
}
