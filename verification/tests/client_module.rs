use ag_ui_surface::actions::ActionDef;
use ag_ui_surface::caller::ActionAudience;
use ag_ui_surface::client_module::{
    extension_asset_path, extension_assets, manifest_json, validate_extension_assets, ClientModule,
    ExtensionManifest, WasmMount,
};
use ag_ui_surface::http::Mount;
use ag_ui_surface::json::Json;

fn action(name: &str, audience: ActionAudience) -> ActionDef {
    ActionDef::new(
        name.to_string(),
        "audience test".to_string(),
        Json::parse(r#"{ "type": "object", "properties": {} }"#).unwrap(),
    )
    .audience(audience)
}

#[test]
fn client_module_rejects_cross_origin_and_parent_paths() {
    let external = ClientModule::lazy("bad", "1.0.0", "https://example.com/plugin.js", "x");
    assert!(external.validate().unwrap_err().contains("same-origin"));

    let traversal = ClientModule::lazy("bad", "1.0.0", "/extensions/../secret.js", "x");
    assert!(traversal.validate().unwrap_err().contains("same-origin"));

    let valid = ClientModule::lazy("board", "1.0.0", "/extensions/board/index.js", "board").wasm(
        WasmMount {
            pkg_name: "board_wasm".to_string(),
            js: "/pkg/board.js".to_string(),
            wasm: "/pkg/board_bg.wasm".to_string(),
        },
    );
    assert_eq!(valid.validate(), Ok(()));
}

#[test]
fn multiple_extensions_keep_action_ownership_separate() {
    let both = ActionAudience::Both;
    let manifest = ExtensionManifest::from_surface(
        &vec![
            ClientModule::lazy("board", "1.0.0", "/extensions/board.js", "board")
                .action("add_note"),
            ClientModule::lazy("canvas", "1.0.0", "/extensions/canvas.js", "canvas")
                .action("draw"),
        ],
        &vec![action("add_note", both), action("draw", both)],
    )
    .unwrap();
    assert_eq!(manifest.extensions.len(), 2);
    assert_eq!(manifest.extensions[0].actions, vec!["add_note"]);
    assert_eq!(manifest.extensions[1].actions, vec!["draw"]);

    let invalid = ExtensionManifest::from_surface(
        &vec![ClientModule::lazy("board", "1.0.0", "/extensions/board.js", "board")
            .action("delete_everything")],
        &vec![action("add_note", both)],
    );
    assert!(invalid.unwrap_err().contains("unknown or non-human action"));
}

#[test]
fn browser_manifest_contains_only_human_visible_actions() {
    let manifest = ExtensionManifest::from_surface(
        &vec![ClientModule::lazy("board", "1.0.0", "/extensions/board.js", "board")
            .action("human")
            .action("both")],
        &vec![
            action("human", ActionAudience::Human),
            action("agent", ActionAudience::Agent),
            action("both", ActionAudience::Both),
        ],
    )
    .unwrap();
    assert_eq!(manifest.extensions[0].actions, vec!["human", "both"]);

    let invalid = ExtensionManifest::from_surface(
        &vec![ClientModule::lazy("board", "1.0.0", "/extensions/board.js", "board")
            .action("agent")],
        &vec![action("agent", ActionAudience::Agent)],
    );
    assert!(invalid.unwrap_err().contains("non-human"));
}

#[test]
fn extension_manifest_is_generated_from_client_module_and_tools() {
    let modules = vec![ClientModule::host("test.focus", "1.0.0", "x").event("test.chrome")];
    let manifest =
        ExtensionManifest::from_surface(&modules, &vec![action("point", ActionAudience::Both)])
            .unwrap();
    assert_eq!(manifest.schema_version, 1);
    assert_eq!(manifest.protocol, "ag-ui");
    assert_eq!(manifest.extensions.len(), 1);
    let extension = &manifest.extensions[0];
    assert_eq!(extension.id, "test.focus");
    assert_eq!(extension.loading, "host");
    assert_eq!(extension.module, None);
    assert_eq!(extension.mount, "x");
    assert_eq!(extension.actions, vec!["point"]);
    assert_eq!(extension.events, vec!["test.chrome"]);

    let json = manifest_json(&manifest);
    assert_eq!(json.get("schemaVersion"), Some(&Json::Number("1".to_string())));
    let first = &json.get("extensions").unwrap().as_array().unwrap()[0];
    assert_eq!(first.str_member("loading"), Some("host"));
    assert!(first.get("module").is_none());
    assert!(first.get("wasm").is_none());
}

#[test]
fn modules_are_checked_one_by_one() {
    let module = |id: &str| ClientModule::lazy(id, "1.0.0", "/m.js", id);
    let problem = |module: ClientModule| module.validate().unwrap_err();
    assert!(problem(module("Bad")).starts_with("extension id \"Bad\" must contain only lowercase"));
    assert!(problem(module("")).contains("must contain only lowercase"));
    assert_eq!(
        problem(ClientModule::host("a", "  ", "m")),
        "extension a has an empty version"
    );
    assert_eq!(
        problem(ClientModule::host("a", "1", "\t")),
        "extension a has an empty mount id"
    );
    assert_eq!(
        problem(module("a").event("x").event("x")),
        "extension a has an empty or duplicate event: \"x\""
    );
    assert_eq!(
        problem(module("a").capability(" ")),
        "extension a has an empty or duplicate capability: \" \""
    );
    assert_eq!(
        problem(module("a").action("go").action("go")),
        "extension a has an empty or duplicate action: \"go\""
    );
    assert_eq!(
        problem(module("a").wasm(WasmMount {
            pkg_name: "p".to_string(),
            js: "/ok.js".to_string(),
            wasm: "//host/x.wasm".to_string(),
        })),
        "extension a wasm wasm path \"//host/x.wasm\" must be a same-origin absolute path"
    );
    assert_eq!(module("a").no_actions().validate(), Ok(()));
    assert!(!module("a").optional().required);
}

#[test]
fn a_composition_names_each_owner_once() {
    let lazy = |id: &str, mount: &str| ClientModule::lazy(id, "1.0.0", "/m.js", mount);
    let error = |modules: Vec<ClientModule>| {
        ExtensionManifest::from_surface(&modules, &vec![]).unwrap_err()
    };
    assert_eq!(
        error(vec![lazy("a", "m"), lazy("b", "n").no_actions()]),
        "extension a must declare action ownership in a composed Surface"
    );
    assert_eq!(
        error(vec![lazy("a", "m").no_actions(), lazy("a", "n").no_actions()]),
        "duplicate extension id: a"
    );
    assert_eq!(
        error(vec![lazy("a", "m").no_actions(), lazy("b", "m").no_actions()]),
        "duplicate extension mount: m"
    );
}

#[test]
fn assets_are_found_where_they_are_served() {
    let mounts = vec![Mount { prefix: "/extensions/".to_string(), dir: "/e".to_string() }];
    let path = |url: &str, pkg: Option<&str>| extension_asset_path(url, "/s", pkg, &mounts);
    assert_eq!(path("/pkg/a.js?v=1#x", Some("/p")).as_deref(), Some("/p/a.js"));
    assert_eq!(path("/pkg/a.js", None), None);
    assert_eq!(path("/extensions/b/index.js", None).as_deref(), Some("/e/b/index.js"));
    assert_eq!(path("/main.js", None).as_deref(), Some("/s/main.js"));
    assert_eq!(path("/pkg//abs.js", Some("/p")).as_deref(), Some("/abs.js"));

    let manifest = ExtensionManifest::from_surface(
        &vec![ClientModule::lazy("board", "1.0.0", "/extensions/b.js", "board").wasm(WasmMount {
            pkg_name: "w".to_string(),
            js: "/pkg/w.js".to_string(),
            wasm: "/pkg/w.wasm".to_string(),
        })],
        &vec![],
    )
    .unwrap();
    let assets = extension_assets(&manifest, "/s", Some("/p"), &mounts);
    assert_eq!(assets.len(), 3);
    assert_eq!(validate_extension_assets(&assets, &vec![true, true, true]), Ok(()));
    assert_eq!(
        validate_extension_assets(&assets, &vec![true, false, false]),
        Err("extension board wasm JS \"/pkg/w.js\" is missing at /p/w.js".to_string())
    );
    let bare = extension_assets(&manifest, "/s", None, &mounts);
    assert_eq!(
        validate_extension_assets(&bare, &vec![true, true, true]),
        Err("extension board wasm JS \"/pkg/w.js\" has no matching static mount".to_string())
    );
}
