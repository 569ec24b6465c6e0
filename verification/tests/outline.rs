//! Where dependencies stand: at their own entries.
use update_versions_lsp::locate::Range;
use update_versions_lsp::outline::json::outline_json;
use update_versions_lsp::outline::toml::outline_toml;
use update_versions_lsp::outline::{Outline, Step};
use update_versions_lsp::providers::cargo::parse_cargo_toml;
use update_versions_lsp::providers::composer::parse_composer_json;
use update_versions_lsp::providers::deno::parse_deno_config;
use update_versions_lsp::providers::npm::parse_package_json;
use update_versions_lsp::providers::pypi::parse_pyproject_toml;
use update_versions_lsp::providers::rubygems::parse_gemfile;
use update_versions_lsp::providers::ParsedDependency;
use update_versions_lsp::text::chars::chars_of;
use update_versions_lsp::text::lines::lines_of;

fn keys(list: &[&str]) -> Vec<String> {
    list.iter().map(|s| s.to_string()).collect()
}

fn place(range: &Range) -> (u32, u32, u32) {
    assert_eq!(range.start.line, range.end.line);
    (range.start.line, range.start.character, range.end.character)
}

fn places(deps: &[ParsedDependency]) -> Vec<(&str, (u32, u32, u32))> {
    deps.iter().map(|d| (d.name.as_str(), place(&d.version_range))).collect()
}

/// The strings of an outline: their paths, lines, indices and texts.
fn strings(outline: &Outline) -> Vec<(String, usize, usize, String)> {
    outline
        .spots
        .iter()
        .map(|spot| {
            let path: Vec<String> = spot
                .path
                .iter()
                .map(|step| match step {
                    Step::Open => "?".to_string(),
                    Step::Item(n) => n.to_string(),
                    Step::Key(key) => key.text.iter().collect(),
                    Step::Escaped(_, name) => name.iter().collect(),
                })
                .collect();
            (path.join("/"), spot.line, spot.at, spot.text.iter().collect())
        })
        .collect()
}

fn lines(content: &str) -> Vec<Vec<char>> {
    lines_of(&chars_of(content))
}

#[test]
fn sections_have_ranges_of_their_own() {
    let content = "{\n  \"dependencies\": {\n    \"react\": \"^18.2.0\"\n  },\n  \"devDependencies\": {\n    \"react\": \"^18.2.0\"\n  }\n}";
    let deps = parse_package_json(content, &keys(&["dependencies", "devDependencies"]));
    assert_eq!(places(&deps), [("react", (2, 14, 21)), ("react", (5, 14, 21))]);
    let content = "{\n\"require-dev\": {\"a/a\": \"^1.0\"},\n\"require\": {\"a/a\": \"^1.0\"}\n}";
    let deps = parse_composer_json(content);
    assert_eq!(places(&deps), [("a/a", (2, 20, 24)), ("a/a", (1, 24, 28))]);
}

#[test]
fn a_value_on_the_next_line_is_passed_over() {
    let content = "{\"dependencies\": {\n\"a\":\n\"1.0.0\", \"b\": \"1.0.0\"}}";
    let deps = parse_package_json(content, &keys(&["dependencies"]));
    assert_eq!(places(&deps), [("b", (2, 15, 20))]);
}

#[test]
fn names_that_look_like_versions_are_not_taken_for_them() {
    let content = "{\"dependencies\": {\"1.0.0\": \"1.0.0\"}}";
    let deps = parse_package_json(content, &keys(&["dependencies"]));
    assert_eq!(places(&deps), [("1.0.0", (0, 28, 33))]);
    let content = "{\"imports\": {\"a\": \"npm:es6@6\", \"b\": \"npm:es6@6\"},\n\"scopes\": {\"s\": {\"a\": \"npm:es6@6\"}}}";
    let deps = parse_deno_config(content);
    assert_eq!(
        places(&deps),
        [("npm:es6", (0, 27, 28)), ("npm:es6", (0, 45, 46)), ("npm:es6", (1, 31, 32))]
    );
    let content = "{\"imports\": {\"a\": \"https://deno.land/x/1@1/1.ts\", \"b\": \"jsr:@2/2@2/2\"}}";
    let deps = parse_deno_config(content);
    assert_eq!(places(&deps), [("deno:1", (0, 41, 42)), ("jsr:@2/2", (0, 65, 66))]);
    let content = "gem '1.0', require: '2.0', '2.0'\ngem '1.0' , \"1.0\"\n";
    let deps = parse_gemfile(content);
    assert_eq!(places(&deps), [("1.0", (0, 28, 31)), ("1.0", (1, 13, 16))]);
}

#[test]
fn odd_quotes_do_not_hide_a_gem() {
    let content = "gem 'x', 1.0, foo: '1.0'\ngem 'y', \"'2.0'\"\ngem 'z', 3.0\ngem 'w', 4.0 # '4.0'\n";
    let deps = parse_gemfile(content);
    assert_eq!(
        places(&deps),
        [("x", (0, 9, 12)), ("y", (1, 11, 14)), ("w", (3, 9, 12))]
    );
    let constraints: Vec<&str> = deps.iter().map(|d| d.version_constraint.as_str()).collect();
    assert_eq!(constraints, ["1.0", "2.0", "4.0"]);
}

#[test]
fn keys_with_escapes_are_read() {
    let content = "{\"im\\u0070orts\": {\"a\\/b\": \"npm:x@1\"},\n\"scopes\": {\"\\ud83d\\ude00\": {\"\\\"\": \"npm:y@2\"}}}";
    let deps = parse_deno_config(content);
    assert_eq!(places(&deps), [("npm:x", (0, 33, 34)), ("npm:y", (1, 41, 42))]);
    // A section may be written so, the name of a package not.
    let content = "{\"dependenc\\u0069es\": {\"a\": \"1.0.0\", \"b\\/c\": \"2.0.0\"}}";
    let deps = parse_package_json(content, &keys(&["dependencies"]));
    assert_eq!(places(&deps), [("a", (0, 29, 34))]);
}

#[test]
fn strings_between_three_marks_are_found_on_one_line() {
    let content = "[dependencies]\na = \"\"\"1.0\"\"\"\nb = { version = '''2.0''' }\nc = \"\"\"\n3.0\"\"\"\nd = \"4.0\"\n";
    let deps = parse_cargo_toml(content, &keys(&["dependencies"]));
    assert_eq!(
        places(&deps),
        [("a", (1, 7, 10)), ("b", (2, 19, 22)), ("d", (5, 5, 8))]
    );
}

#[test]
fn every_entry_on_a_line_of_its_own_is_found() {
    let content = "{\n  \"name\": \"x\",\n  \"private\": true,\n  \"a\": {\n    \"b\" : {\n      \"c\": \"1\"\n    },\n    \"d\":\"2\" ,\n    \"e\": {\n    }\n  },\n  \"f\": \"3\"\n}";
    let found: Vec<(String, usize)> = strings(&outline_json(lines(content)))
        .into_iter()
        .map(|s| (s.0, s.1))
        .collect();
    let expected = [("name", 1), ("a/b/c", 5), ("a/d", 7), ("f", 11)];
    assert_eq!(found, expected.map(|(path, line)| (path.to_string(), line)));
    let content = "a = \"1\"\n# b = \"2\"\n\n[c.d] # e\n  f= \"3\" # \"4\"\ng = { h = \"5\", i = true }\n[j]\nk = \"\"\n";
    let found: Vec<(String, usize)> = strings(&outline_toml(lines(content)))
        .into_iter()
        .map(|s| (s.0, s.1))
        .collect();
    let expected = [("a", 0), ("c/d/f", 4), ("c/d/g/h", 5), ("j/k", 7)];
    assert_eq!(found, expected.map(|(path, line)| (path.to_string(), line)));
}

#[test]
fn imports_are_found_before_comments() {
    let content = "{ // \"imports\": {\"a\": \"npm:x@1\"}\n\"imports\": { \"a\": \"npm:x@1\" // \"npm:x@1\"\n}}";
    assert_eq!(places(&parse_deno_config(content)), [("npm:x", (1, 25, 26))]);
}

#[test]
fn a_dependency_may_be_a_section() {
    let content = "[dependencies.serde]\nversion = \"1.0\"\n";
    let deps = parse_cargo_toml(content, &keys(&["dependencies"]));
    assert_eq!(places(&deps), [("serde", (1, 11, 14))]);
    assert_eq!(deps[0].version_constraint, "1.0");
    let content = "[dependencies]\na = { version = \"1\" }\nb.version = '2'\n\"c\" = \"3\"\n[dependencies.d]\nfeatures = [\"4\"]\nversion = \"4\"\n[dev-dependencies]\na = \"1\"\n";
    let deps = parse_cargo_toml(content, &keys(&["dependencies", "dev-dependencies"]));
    assert_eq!(
        places(&deps),
        [
            ("a", (1, 17, 18)),
            ("b", (2, 13, 14)),
            ("c", (3, 7, 8)),
            ("d", (6, 11, 12)),
            ("a", (8, 5, 6)),
        ]
    );
    let content = "[tool.poetry.dependencies.Flask]\nversion = \"^2.0\"\n";
    assert_eq!(places(&parse_pyproject_toml(content)), [("flask", (1, 11, 15))]);
}

#[test]
fn requirements_stand_in_their_own_items() {
    let content = "[project]\nname = \"a>=1\"\ndependencies = [ # a>=1\n  \"a>=1\", [\"a>=1\"],\n  \"a>=1\",\n]\n";
    let deps = parse_pyproject_toml(content);
    assert_eq!(places(&deps), [("a", (3, 4, 7)), ("a", (4, 4, 7))]);
}

#[test]
fn json_strings_stand_under_their_keys() {
    let outline = outline_json(lines("{\"a\": {\"b\": \"x\", \"c\": [\"y\", {\"d\": \"z\"}]},\n \"e\\\"\": \"w\\\"\", \"f\":\n\"v\"}"));
    let expected = [
        ("a/b", 0, 13, "x"),
        ("a/c/?/d", 0, 35, "z"),
        ("e\"", 1, 9, "w\\\""),
        ("f", 2, 1, "v"),
    ];
    let found = strings(&outline);
    assert_eq!(found.len(), expected.len());
    for (s, (path, line, at, text)) in found.iter().zip(expected) {
        assert_eq!((s.0.as_str(), s.1, s.2, s.3.as_str()), (path, line, at, text));
    }
}

#[test]
fn toml_strings_stand_under_their_keys() {
    let content = "t = \"0\" # \"x\"\n[a . 'b.c']\nk.l = { m = [\"1\", '2'], n = \"3\" }\ns = \"\"\"\nq = \"4\"\n\"\"\"\nr = [\n  [\"5\"], # \"6\"\n  { u = \"7\" },\n]\n[[v]]\nw = 'a\\'\n";
    let outline = outline_toml(lines(content));
    let expected = [
        ("t", 0, 5, "0"),
        ("a/b.c/k/l/m/0", 2, 14, "1"),
        ("a/b.c/k/l/m/1", 2, 19, "2"),
        ("a/b.c/k/l/n", 2, 29, "3"),
        ("a/b.c/r/0/0", 7, 4, "5"),
        ("a/b.c/r/1/u", 8, 9, "7"),
        ("v/?/w", 11, 5, "a\\"),
    ];
    let found = strings(&outline);
    assert_eq!(found.len(), expected.len());
    for (s, (path, line, at, text)) in found.iter().zip(expected) {
        assert_eq!((s.0.as_str(), s.1, s.2, s.3.as_str()), (path, line, at, text));
    }
}

#[test]
fn keys_stand_before_their_strings() {
    let outline = outline_toml(lines("[dependencies.serde]\nversion = \"1.0\""));
    let keys: Vec<(String, usize, usize)> = outline.spots[0]
        .path
        .iter()
        .map(|step| match step {
            Step::Key(key) => (key.text.iter().collect(), key.line, key.at),
            other => panic!("{:?}", other),
        })
        .collect();
    assert_eq!(
        keys,
        [
            ("dependencies".to_string(), 0, 1),
            ("serde".to_string(), 0, 14),
            ("version".to_string(), 1, 0),
        ]
    );
}
