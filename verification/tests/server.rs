//! The server's state: documents, settings, lookups and answers.
use update_versions_lsp::backend::{build_providers, code_actions, Backend};
use update_versions_lsp::cache::VersionResult;
use update_versions_lsp::config::Settings;
use update_versions_lsp::locate::Position;

const URI: &str = "file:///project/package.json";
const MANIFEST: &str = r#"{
  "dependencies": {
    "left-pad": "^1.0.0",
    "react": "~18.2.0"
  }
}"#;

fn known(stable: &[&str], prerelease: Option<&str>) -> VersionResult {
    VersionResult {
        stable_versions: stable.iter().map(|s| s.to_string()).collect(),
        prerelease: prerelease.map(|p| p.to_string()),
    }
}

#[test]
fn opening_a_document_asks_for_its_packages() {
    let mut backend = Backend::new();
    backend.cache.set("npm:react", known(&["18.2.0"], None), 0);
    let fetches = backend.did_open(URI, MANIFEST.to_string(), 1);
    assert_eq!(fetches.len(), 1);
    assert_eq!(fetches[0].key, "npm:left-pad");
    assert_eq!(fetches[0].package, "left-pad");
    assert_eq!(
        fetches[0].request.as_ref().map(|r| r.url.as_str()),
        Some("https://registry.npmjs.org/left-pad")
    );
}

#[test]
fn hints_come_from_what_is_known() {
    let mut backend = Backend::new();
    backend.did_open(URI, MANIFEST.to_string(), 0);
    backend.cache.set("npm:react", known(&["18.3.0", "18.2.0"], None), 0);
    let reply = backend.inlay_hint(URI, 1);
    assert_eq!(reply.hints.len(), 2);
    assert_eq!(reply.hints[0].label, "… fetching");
    assert_eq!(reply.hints[1].label, "↑ 18.3.0 (minor)");
    assert_eq!(reply.hints[0].position, Position { line: 2, character: 25 });
    assert_eq!(reply.hints[1].position, Position { line: 3, character: 22 });
    assert_eq!(reply.fetches.len(), 1);
    assert_eq!(reply.fetches[0].key, "npm:left-pad");
    // After five minutes nothing is believed any more.
    let later = backend.inlay_hint(URI, 300_000_000_000);
    assert_eq!(later.fetches.len(), 2);
}

#[test]
fn documents_that_are_not_open_have_no_hints() {
    let mut backend = Backend::new();
    assert!(backend.inlay_hint(URI, 0).hints.is_empty());
    assert!(backend.plan_code_action(URI).is_none());
    backend.did_open(URI, MANIFEST.to_string(), 0);
    backend.did_close(URI);
    assert!(backend.inlay_hint(URI, 0).hints.is_empty());
    backend.did_open("file:///notes.txt", "react".to_string(), 0);
    assert!(backend.inlay_hint("file:///notes.txt", 0).hints.is_empty());
    assert_eq!(backend.plan_code_action("file:///notes.txt").unwrap().len(), 0);
}

#[test]
fn changes_replace_the_document() {
    let mut backend = Backend::new();
    backend.did_open(URI, "{}".to_string(), 0);
    assert!(backend.inlay_hint(URI, 0).hints.is_empty());
    backend.did_change(URI, Some(MANIFEST.to_string()));
    assert_eq!(backend.inlay_hint(URI, 0).hints.len(), 2);
    backend.did_change(URI, None);
    assert_eq!(backend.inlay_hint(URI, 0).hints.len(), 2);
}

#[test]
fn code_actions_resolve_the_whole_document() {
    let mut backend = Backend::new();
    backend.did_open(URI, MANIFEST.to_string(), 0);
    let plan = backend.plan_code_action(URI).unwrap();
    let keys: Vec<&str> = plan.iter().map(|p| p.fetch.key.as_str()).collect();
    assert_eq!(keys, ["npm:left-pad", "npm:react"]);
    assert_eq!(plan[1].requirement, "~18.2.0");
    let results = vec![
        known(&["1.3.0", "1.0.0"], None),
        known(&["18.2.0"], Some("19.0.0-rc.1")),
    ];
    let actions = backend.code_action(&plan, &results, 2);
    assert_eq!(actions.len(), 1);
    assert_eq!(actions[0].title, "Update left-pad to 1.3.0 (minor)");
    assert_eq!(actions[0].new_text, "^1.3.0");
    assert_eq!(actions[0].range.start, Position { line: 2, character: 17 });
    assert_eq!(actions[0].range.end, Position { line: 2, character: 23 });
    let actions = backend.code_action(&plan, &results, 3);
    assert_eq!(actions[0].title, "Update react to 19.0.0-rc.1 (prerelease)");
    assert!(code_actions(&plan, &results, true, 3).is_empty());
}

#[test]
fn new_settings_take_effect() {
    let mut backend = Backend::new();
    backend.did_open(URI, MANIFEST.to_string(), 0);
    backend.cache.set("npm:react", known(&["18.2.0"], None), 0);
    let mut settings = Settings::default();
    settings.hide_prereleases = true;
    settings.cache_ttl_secs = 1;
    settings.npm.registry = "https://npm.example".to_string();
    settings.npm.dependency_keys = vec!["devDependencies".to_string()];
    backend.did_change_configuration(settings);
    assert!(backend.config.hide_prereleases());
    assert!(backend.cache.get("npm:react", 999_999_999).is_some());
    assert!(backend.cache.get("npm:react", 1_000_000_000).is_none());
    assert!(backend.inlay_hint(URI, 0).hints.is_empty());
    backend.did_change(URI, Some(r#"{"devDependencies": {"a": "1.0.0"}}"#.to_string()));
    let reply = backend.inlay_hint(URI, 0);
    assert_eq!(
        reply.fetches[0].request.as_ref().map(|r| r.url.as_str()),
        Some("https://npm.example/a")
    );
}

#[test]
fn providers_go_by_the_end_of_the_uri() {
    let registry = build_providers(&Settings::default());
    let name = |uri: &str| registry.get_provider(uri).map(|p| p.provider.name().to_string());
    assert_eq!(name("file:///a/package.json").as_deref(), Some("npm"));
    assert_eq!(name("file:///a/Cargo.toml").as_deref(), Some("cargo"));
    assert_eq!(name("file:///a/requirements.txt").as_deref(), Some("pypi"));
    assert_eq!(name("file:///a/pyproject.toml").as_deref(), Some("pypi"));
    assert_eq!(name("file:///a/composer.json").as_deref(), Some("composer"));
    assert_eq!(name("file:///a/Gemfile").as_deref(), Some("rubygems"));
    for file in ["deno.json", "deno.jsonc", "import_map.json"] {
        assert_eq!(name(file).as_deref(), Some("deno"));
    }
    assert_eq!(name("file:///a/package.json.bak"), None);
}

#[test]
fn providers_normalise_their_constraints() {
    let registry = build_providers(&Settings::default());
    let normal = |uri: &str, c: &str| {
        registry.get_provider(uri).unwrap().provider.normalize_constraint(c)
    };
    assert_eq!(normal("package.json", " ^1.0 "), "^1.0");
    assert_eq!(normal("requirements.txt", "==1.2.3"), "=1.2.3");
    assert_eq!(normal("Gemfile", "~> 7.1"), ">=7.1.0, <8.0.0");
    assert_eq!(normal("deno.json", "v1.2.3"), "1.2.3");
}

#[test]
fn ecosystems_do_not_share_cached_results() {
    let mut backend = Backend::new();
    backend.cache.set("npm:serde", known(&["9.0.0"], None), 0);
    let uri = "file:///project/Cargo.toml";
    backend.did_open(uri, "[dependencies]\nserde = \"1.0\"\n".to_string(), 0);
    let reply = backend.inlay_hint(uri, 0);
    assert_eq!(reply.hints[0].label, "… fetching");
    assert_eq!(reply.fetches[0].key, "cargo:serde");
    backend.cache.set("cargo:serde", known(&["1.0.0"], None), 0);
    assert_eq!(backend.inlay_hint(uri, 0).hints[0].label, "✔ latest");
}
