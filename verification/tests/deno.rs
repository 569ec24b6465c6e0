//! `deno.json` and import maps.
use update_versions_lsp::providers::deno::{
    parse_deno_config, parse_deno_land_url, parse_jsr_specifier, parse_npm_specifier,
    strip_jsonc_comments,
};

#[test]
fn test_parse_jsr_specifier() {
    assert_eq!(
        parse_jsr_specifier("jsr:@std/path@^0.221.0"),
        Some(("jsr:@std/path".to_string(), "^0.221.0".to_string()))
    );
    assert_eq!(
        parse_jsr_specifier("jsr:@std/assert@^0.221.0"),
        Some(("jsr:@std/assert".to_string(), "^0.221.0".to_string()))
    );
    // No version → None
    assert_eq!(parse_jsr_specifier("jsr:@std/path"), None);
    // Non-jsr → None
    assert_eq!(parse_jsr_specifier("npm:react@^18.0.0"), None);
}

#[test]
fn test_parse_jsr_specifier_with_path() {
    // Version with trailing sub-path should strip the path
    let result = parse_jsr_specifier("jsr:@std/path@^0.221.0/posix");
    assert_eq!(
        result,
        Some(("jsr:@std/path".to_string(), "^0.221.0".to_string()))
    );
}

#[test]
fn test_parse_npm_specifier() {
    assert_eq!(
        parse_npm_specifier("npm:express@^4.18.0"),
        Some(("npm:express".to_string(), "^4.18.0".to_string()))
    );
    assert_eq!(
        parse_npm_specifier("npm:@types/node@^20.0.0"),
        Some(("npm:@types/node".to_string(), "^20.0.0".to_string()))
    );
    assert_eq!(parse_npm_specifier("npm:express"), None);
    assert_eq!(parse_npm_specifier("jsr:@std/path@^1.0.0"), None);
}

#[test]
fn test_parse_deno_land_url() {
    assert_eq!(
        parse_deno_land_url("https://deno.land/x/oak@v12.6.1/mod.ts"),
        Some(("deno:oak".to_string(), "v12.6.1".to_string()))
    );
    // Trailing `/` is on the specifier string in import maps; parse_deno_land_url
    // still extracts the version — the caller (extract_deps_from_imports) skips
    // specifiers that end with `/`.
    assert_eq!(
        parse_deno_land_url("https://deno.land/x/fresh@1.6.5/"),
        Some(("deno:fresh".to_string(), "1.6.5".to_string()))
    );
    assert_eq!(
        parse_deno_land_url("https://deno.land/x/std@0.170.0/path/mod.ts"),
        Some(("deno:std".to_string(), "0.170.0".to_string()))
    );
}

#[test]
fn test_parse_deno_config_imports() {
    let content = r#"{
  "imports": {
    "@std/path": "jsr:@std/path@^0.221.0",
    "express": "npm:express@^4.18.0",
    "oak": "https://deno.land/x/oak@v12.6.1/mod.ts",
    "$fresh/": "https://deno.land/x/fresh@1.6.5/"
  }
}"#;
    let deps = parse_deno_config(content);
    assert_eq!(deps.len(), 3);

    let jsr = deps.iter().find(|d| d.name == "jsr:@std/path").unwrap();
    assert_eq!(jsr.version_constraint, "^0.221.0");

    let npm = deps.iter().find(|d| d.name == "npm:express").unwrap();
    assert_eq!(npm.version_constraint, "^4.18.0");

    let deno = deps.iter().find(|d| d.name == "deno:oak").unwrap();
    assert_eq!(deno.version_constraint, "v12.6.1");
}

#[test]
fn test_parse_deno_config_version_range() {
    let content = r#"{
  "imports": {
    "@std/path": "jsr:@std/path@^0.221.0"
  }
}"#;
    let deps = parse_deno_config(content);
    assert_eq!(deps.len(), 1);
    let dep = &deps[0];
    let line = r#"    "@std/path": "jsr:@std/path@^0.221.0""#;
    let expected_start = line.find("^0.221.0").unwrap() as u32;
    assert_eq!(dep.version_range.start.line, 2);
    assert_eq!(dep.version_range.start.character, expected_start);
    assert_eq!(
        dep.version_range.end.character,
        expected_start + "^0.221.0".len() as u32
    );
}

#[test]
fn test_strip_jsonc_comments() {
    let input = r#"{ // top-level comment
  "imports": {
    "@std/path": "jsr:@std/path@^0.221.0" // inline comment
  }
}"#;
    let stripped = strip_jsonc_comments(input);
    let parsed: serde_json::Value = serde_json::from_str(&stripped).unwrap();
    assert!(parsed.get("imports").is_some());
}

#[test]
fn test_parse_deno_config_jsonc() {
    let content = r#"{
  // Deno configuration
  "imports": {
    "@std/path": "jsr:@std/path@^0.221.0" // std library
  }
}"#;
    let deps = parse_deno_config(content);
    assert_eq!(deps.len(), 1);
    assert_eq!(deps[0].name, "jsr:@std/path");
}

#[test]
fn test_parse_deno_land_url_no_path() {
    // URL without a sub-path after the version
    assert_eq!(
        parse_deno_land_url("https://deno.land/x/oak@v12.6.1"),
        Some(("deno:oak".to_string(), "v12.6.1".to_string()))
    );
}

#[test]
fn test_parse_deno_config_scopes() {
    // `scopes` in import maps should also be walked for versioned specifiers.
    let content = r#"{
  "scopes": {
    "https://example.com/": {
      "@std/path": "jsr:@std/path@^0.221.0"
    }
  }
}"#;
    let deps = parse_deno_config(content);
    assert_eq!(deps.len(), 1);
    assert_eq!(deps[0].name, "jsr:@std/path");
    assert_eq!(deps[0].version_constraint, "^0.221.0");
}
