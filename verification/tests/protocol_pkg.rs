use std::path::Path;

use ag_ui_surface::protocol_pkg::{
    built_package, default_layout, failed_build, is_stale, newest_mtime, plan, refused, Facts,
    Plan, ProtocolPkgError,
};

fn facts(built: bool, wasm_pack: bool, checkout: bool) -> Facts {
    Facts { built, stale: false, wasm_pack, checkout }
}

fn stale(wasm_pack: bool, checkout: bool) -> Facts {
    Facts { built: true, stale: true, wasm_pack, checkout }
}

#[test]
fn an_explicit_directory_is_served_as_is_or_refused_never_built() {
    let explicit = "/deploy/protocol";
    let default = "/src/crates/ag-ui-wasm-client/pkg";
    let crate_dir = "/src/crates/ag-ui-wasm-client";
    assert_eq!(
        plan(Some(explicit), default, crate_dir, facts(true, true, true)),
        Plan::Serve { dir: explicit.to_string(), stale_warning: false }
    );
    match plan(Some(explicit), default, crate_dir, facts(false, true, true)) {
        Plan::Refuse(reason) => assert!(reason.contains("/deploy/protocol")),
        other => panic!("expected refusal, got {other:?}"),
    }
}

#[test]
fn a_current_default_package_is_served_without_a_build() {
    let default = "/src/crates/ag-ui-wasm-client/pkg";
    let crate_dir = "/src/crates/ag-ui-wasm-client";
    for (wasm_pack, checkout) in [(true, true), (false, true), (true, false), (false, false)] {
        assert_eq!(
            plan(None, default, crate_dir, facts(true, wasm_pack, checkout)),
            Plan::Serve { dir: default.to_string(), stale_warning: false }
        );
    }
}

#[test]
fn a_missing_or_stale_default_is_rebuilt_when_it_can_be_and_served_stale_when_it_cannot() {
    let default = "/src/crates/ag-ui-wasm-client/pkg";
    let crate_dir = "/src/crates/ag-ui-wasm-client";
    let build = Plan::Build { crate_dir: crate_dir.to_string(), dir: default.to_string() };
    assert_eq!(plan(None, default, crate_dir, stale(true, true)), build);
    assert_eq!(plan(None, default, crate_dir, facts(false, true, true)), build);
    assert_eq!(
        plan(None, default, crate_dir, stale(false, true)),
        Plan::Serve { dir: default.to_string(), stale_warning: true }
    );
    assert_eq!(
        plan(None, default, crate_dir, stale(true, false)),
        Plan::Serve { dir: default.to_string(), stale_warning: true }
    );
}

#[test]
fn nothing_built_and_nothing_to_build_with_is_a_refusal_that_says_how() {
    let default = "/src/crates/ag-ui-wasm-client/pkg";
    let crate_dir = "/src/crates/ag-ui-wasm-client";
    match plan(None, default, crate_dir, facts(false, false, true)) {
        Plan::Refuse(reason) => {
            assert!(reason.contains("cargo install wasm-pack"));
            assert!(reason.contains("wasm-pack build"));
        }
        other => panic!("expected refusal, got {other:?}"),
    }
    match plan(None, default, crate_dir, facts(false, true, false)) {
        Plan::Refuse(reason) => assert!(reason.contains("not a checkout")),
        other => panic!("expected refusal, got {other:?}"),
    }
}

#[test]
fn the_default_layout_points_at_the_sibling_client_crate() {
    let (crate_dir, dir) = default_layout("/src/crates/ag-ui-surface");
    assert!(Path::new(&crate_dir).ends_with("ag-ui-wasm-client"));
    assert_eq!(Path::new(&dir), Path::new(&crate_dir).join("pkg"));
    assert_eq!(
        Path::new(&crate_dir),
        Path::new("/src/crates/ag-ui-surface").join("../ag-ui-wasm-client")
    );
    assert_eq!(default_layout("/src/").0, "/src/../ag-ui-wasm-client");
    assert_eq!(default_layout("").0, "../ag-ui-wasm-client");
}

#[test]
fn a_package_is_stale_against_any_newer_source() {
    assert!(is_stale(None, &vec![]));
    assert!(!is_stale(Some(5), &vec![Some(5), None, Some(1)]));
    assert!(is_stale(Some(5), &vec![None, Some(6)]));
    assert_eq!(newest_mtime(&vec![Some(3), None, Some(9), Some(4)]), Some(9));
    assert_eq!(newest_mtime(&vec![None, None]), None);
}

#[test]
fn a_build_without_its_output_is_an_error() {
    assert_eq!(built_package("/p".to_string(), true), Ok("/p".to_string()));
    let error = built_package("/p".to_string(), false).unwrap_err();
    assert_eq!(
        error.message(),
        "protocol package /p is missing its wasm-pack output after a successful build; \
         check the wasm-pack `--out-dir`"
    );
    assert_eq!(
        refused("/p", "why".to_string()).message(),
        "protocol package /p is missing the typed protocol client; why"
    );
}

#[test]
fn a_failed_build_shows_the_last_thirty_lines() {
    let mut stderr = String::new();
    for n in 1..=40 {
        stderr.push_str(&format!("line {n}\r\n"));
    }
    match failed_build("/c", "exit 1".to_string(), &stderr) {
        ProtocolPkgError::Build { crate_dir, status, stderr_tail } => {
            assert_eq!(crate_dir, "/c");
            assert_eq!(status, "exit 1");
            let expected: Vec<&str> = stderr.lines().skip(10).collect();
            assert_eq!(stderr_tail, expected.join("\n"));
        }
        other => panic!("unexpected {other:?}"),
    }
    assert_eq!(
        failed_build("/c", "exit 1".to_string(), "a\n\nb\r").message(),
        "wasm-pack build of /c failed (exit 1):\na\n\nb\r"
    );
    assert_eq!(
        ProtocolPkgError::NotACheckout { crate_dir: "/c".to_string() }.message(),
        "protocol client crate /c is not a checkout (no Cargo.toml); set \
         App::protocol_pkg_dir(...) to a built package"
    );
    assert_eq!(
        ProtocolPkgError::Spawn { crate_dir: "/c".to_string(), source: "gone".to_string() }
            .message(),
        "wasm-pack could not be started for /c: gone"
    );
}
