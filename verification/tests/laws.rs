//! What holds of all inputs, on some of them.
use update_versions_lsp::backend::status::status_for;
use update_versions_lsp::cache::VersionResult;
use update_versions_lsp::document::Node;
use update_versions_lsp::locate::Range;
use update_versions_lsp::providers::cargo::parse_cargo_toml;
use update_versions_lsp::providers::composer::parse_composer_json;
use update_versions_lsp::providers::deno::{parse_deno_config, strip_jsonc_comments};
use update_versions_lsp::providers::npm;
use update_versions_lsp::providers::pypi::{
    normalize_pypi_name, parse_pyproject_toml, parse_requirements_txt,
};
use update_versions_lsp::providers::rubygems::{parse_gemfile, strip_inline_comment};
use update_versions_lsp::providers::{DependencyStatus, ParsedDependency};
use update_versions_lsp::version_utils::normalize::{deno, standard};
use update_versions_lsp::version_utils::{
    build_replacement_text, candidates_for, extract_base_version, find_latest,
};

fn covered<'a>(content: &'a str, range: &Range) -> &'a str {
    assert_eq!(range.start.line, range.end.line);
    let line = content.lines().nth(range.start.line as usize).unwrap();
    &line[range.start.character as usize..range.end.character as usize]
}

fn assert_covered(content: &str, deps: &[ParsedDependency], constraints: &[&str]) {
    let found: Vec<&str> = deps.iter().map(|d| d.version_constraint.as_str()).collect();
    assert_eq!(found, constraints);
    for dep in deps {
        assert_eq!(covered(content, &dep.version_range), dep.version_constraint);
    }
}

#[test]
fn npm_ranges_cover_constraints() {
    let content = "{\n  \"dependencies\": {\r\n    \"ä\": \"^1.0.0\", \"b\": \"npm:@x/y@~2.0.0\",\n    \"c\": \"npm:z@3\" }\n}";
    let keys = vec!["dependencies".to_string(), "missing".to_string()];
    let deps = npm::parse_package_json(content, &keys);
    assert_covered(content, &deps, &["~2.0.0", "3", "^1.0.0"]);
    assert_eq!(deps[0].name, "@x/y");
    assert_eq!(deps[2].version_range.start.character, 11);
}

#[test]
fn npm_dependencies_follow_the_document() {
    let text = |s: &str| Node::Text(s.to_string());
    let document = Node::Table(vec![(
        "overrides".to_string(),
        Node::Table(vec![
            ("b".to_string(), text("1.0.0")),
            ("a".to_string(), Node::Other),
            ("d".to_string(), text("git+ssh://x")),
            ("c".to_string(), text("2.0.0")),
            ("e".to_string(), Node::List(vec![text("1.0.0")])),
        ]),
    )]);
    let content = "{\"c\": \"2.0.0\",\n\"overrides\": {\n\"b\": \"1.0.0\",\n\"c\": \"2.0.0\"}}";
    let deps = npm::dependencies_in(&document, content, &["overrides".to_string()]);
    assert_covered(content, &deps, &["1.0.0", "2.0.0"]);
    assert_eq!(deps[1].version_range.start.line, 3);
    // What stands on no line is passed over.
    assert!(npm::dependencies_in(&document, "", &["overrides".to_string()]).is_empty());
}

#[test]
fn cargo_ranges_cover_constraints() {
    let content = "[package]\nserde = \"1.0\"\n[dependencies] \nserde_json = \"1.0\"\n  serde = { features = [\"ü\"], version = \"1.0\" }\n[dev-dependencies]\nserde=\"2.0\"\n";
    let keys = vec!["dependencies".to_string(), "dev-dependencies".to_string()];
    let deps = parse_cargo_toml(content, &keys);
    assert_covered(content, &deps, &["1.0", "1.0", "2.0"]);
    assert_eq!(deps[0].version_range.start.line, 4);
    assert_eq!(deps[1].version_range.start.line, 3);
    assert_eq!(deps[2].version_range.start.line, 6);
}

#[test]
fn composer_ranges_cover_constraints() {
    let content = "{\"require-dev\": {\"b/b\": \"~2.0\"},\n \"require\": {\"a/a\": \"^1.0\", \"c/c\": \"@dev\", \"d/d\": \"Self.Version\"}}";
    assert_covered(content, &parse_composer_json(content), &["^1.0", "~2.0"]);
}

#[test]
fn python_ranges_cover_constraints() {
    let content = "  Flask[a,b]  >=2.0 , <3 # web\r\nDjango ~= 4.2#x\n./local\nü==1\nrequests\nx[y==1\n";
    let deps = parse_requirements_txt(content);
    assert_covered(content, &deps, &[">=2.0 , <3", "~= 4.2#x"]);
    assert_eq!(deps[0].name, "flask");
    assert_eq!(deps[0].version_range.start.character, 14);
    let content = "[project]\ndependencies = [\"a.b >= 1.0 \", \"c\", \"d!=2\"]\n[tool.poetry.dependencies]\npython = \"^3\"\nMy-Pkg = { version = \"^1.0\" }\n";
    let deps = parse_pyproject_toml(content);
    assert_covered(content, &deps, &[">= 1.0", "!=2", "^1.0"]);
    let names: Vec<&str> = deps.iter().map(|d| d.name.as_str()).collect();
    assert_eq!(names, ["a_b", "d", "my_pkg"]);
}

#[test]
fn deno_ranges_cover_constraints() {
    let content = "{ // a \"comment\"\n \"imports\": {\"a\": \"jsr:@s/a@^1.0.0/mod\", \"p/\": \"npm:p@1/\", \"u\": \"https://x//y\"},\n \"scopes\": {\"s\": {\"b\": \"npm:b@~2\", \"o\": \"https://deno.land/x/oak@v3.0.0/mod.ts\"}, \"t\": 1}}";
    let deps = parse_deno_config(content);
    assert_covered(content, &deps, &["^1.0.0", "~2", "v3.0.0"]);
    let names: Vec<&str> = deps.iter().map(|d| d.name.as_str()).collect();
    assert_eq!(names, ["jsr:@s/a", "npm:b", "deno:oak"]);
}

#[test]
fn gem_ranges_cover_constraints() {
    let content = "gem \"ü\", require: false, '>= 1.0' # x, '2'\ngem 'a', '~> 1', git: 'x'\ngems 'b', '1'\n  gem\t'c' , \"= 2.0\"\ngem 'd', group: :test\ngem 'e', 1.0\n";
    let deps = parse_gemfile(content);
    assert_covered(content, &deps, &[">= 1.0", "= 2.0"]);
    assert_eq!(deps[0].version_range.start.character, 27);
}

#[test]
fn operators_are_kept() {
    for (constraint, operator) in [
        ("^1.2.0", "^"),
        ("~> 1.2", "~> "),
        (">=1", ">="),
        ("v1.0.0", "v"),
        ("==1.0", "=="),
        ("1.0", ""),
        ("latest", ""),
    ] {
        let once = build_replacement_text(constraint, "2.0.0");
        assert_eq!(once, format!("{}2.0.0", operator));
        assert_eq!(build_replacement_text(&once, "3.1.4"), format!("{}3.1.4", operator));
        assert_eq!(extract_base_version(&once).as_deref(), Some("2.0.0"));
    }
}

#[test]
fn normalising_twice_changes_nothing() {
    for c in ["1.2", " 1.2.3 ", "1.x.y", "v1.2", "v1.x.y", "^1", "*", "", "vv1"] {
        assert_eq!(standard(&standard(c)), standard(c));
        assert_eq!(deno(&deno(c)), deno(c));
    }
    assert_eq!(standard("1.x.y"), "^1.x.y");
}

#[test]
fn the_latest_is_the_greatest_release() {
    let versions: Vec<String> = ["1.9.0", "1.10.0", "2.0.0-rc.1", "junk", "1.10.0+b"]
        .iter()
        .map(|s| s.to_string())
        .collect();
    assert_eq!(find_latest(&versions).as_deref(), Some("1.10.0+b"));
    assert_eq!(find_latest(&versions[2..4]), None);
}

#[test]
fn the_order_of_known_versions_does_not_matter() {
    let list = |versions: &[&str]| -> Vec<String> {
        versions.iter().map(|s| s.to_string()).collect()
    };
    let a = list(&["1.2.4", "2.0.0", "1.3.0", "1.2.9", "junk"]);
    let b = list(&["junk", "1.2.9", "1.3.0", "1.2.4", "2.0.0", "1.3.0"]);
    let one = candidates_for("^1.2.0", "^1.2.0", &a).unwrap();
    let two = candidates_for("^1.2.0", "^1.2.0", &b).unwrap();
    assert_eq!(one.in_range.as_deref(), Some("1.3.0"));
    assert_eq!(one.in_range, two.in_range);
    assert_eq!((one.patch, one.minor, one.major), (two.patch, two.minor, two.major));
    assert_eq!(find_latest(&a), find_latest(&b));
}

#[test]
fn both_base_readers_agree_without_a_v() {
    for c in ["^1.2", ">= 1.0, < 2", "~> 3", "", "latest", "1.0.0-rc.1"] {
        assert_eq!(
            extract_base_version(c),
            update_versions_lsp::semver_utils::extract_base_version(c)
        );
    }
}

#[test]
fn an_edit_replaces_the_constraint_alone() {
    let content = "[dependencies]\nserde = { version = \"^1.0\", features = [\"ü\"] } # ✔\n";
    let deps = parse_cargo_toml(content, &["dependencies".to_string()]);
    let range = deps[0].version_range;
    let line = content.lines().nth(range.start.line as usize).unwrap();
    let edited = format!(
        "{}{}{}",
        &line[..range.start.character as usize],
        build_replacement_text("^1.0", "2.0.0"),
        &line[range.end.character as usize..]
    );
    assert_eq!(edited, "serde = { version = \"^2.0.0\", features = [\"ü\"] } # ✔");
}

#[test]
fn an_update_settles() {
    let result = VersionResult {
        stable_versions: ["2.1.0", "2.0.0", "1.3.0", "1.2.9"].iter().map(|s| s.to_string()).collect(),
        prerelease: None,
    };
    match status_for("^1.2.0", "^1.2.0", &result) {
        DependencyStatus::UpdateAvailable { patch, minor, major } => {
            assert_eq!(patch.as_deref(), Some("1.2.9"));
            assert_eq!(minor.as_deref(), Some("1.3.0"));
            assert_eq!(major.as_deref(), Some("2.1.0"));
        }
        other => panic!("{:?}", other),
    }
    let updated = build_replacement_text("^1.2.0", "2.1.0");
    match status_for(&updated, &updated, &result) {
        DependencyStatus::UpToDate { version } => assert_eq!(version, "2.1.0"),
        other => panic!("{:?}", other),
    }
}

#[test]
fn the_range_hides_no_update() {
    let versions = vec!["3.8.1".to_string(), "3.8.0".to_string()];
    let tilde = candidates_for("~3.8.0", "~3.8.0", &versions).unwrap();
    let exact = candidates_for("~3.8.0", "=3.8.0", &versions).unwrap();
    assert_eq!(tilde.in_range.as_deref(), Some("3.8.1"));
    assert_eq!(exact.in_range.as_deref(), Some("3.8.0"));
    assert_eq!(tilde.patch.as_deref(), Some("3.8.1"));
    assert_eq!(tilde.patch, exact.patch);
}

#[test]
fn names_spelt_alike_are_one() {
    for name in ["My-Pkg", "my_pkg", "MY.pkg", "my-PKG"] {
        assert_eq!(normalize_pypi_name(name), "my_pkg");
    }
    assert_eq!(normalize_pypi_name("my_pkg"), "my_pkg");
}

#[test]
fn comments_come_off() {
    let content = "{ \"a\": \"http://x\" } // b // c\n\"\\\"//\" /\r\n//";
    let stripped = strip_jsonc_comments(content);
    assert_eq!(stripped, "{ \"a\": \"http://x\" }\n\"\\\"//\" /\n\n");
    assert_eq!(strip_jsonc_comments(&stripped), stripped);
    assert_eq!(strip_inline_comment("'a#b', \"'#\" # c # d"), "'a#b', \"'#\"");
}
