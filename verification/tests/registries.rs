//! Requests to registries, and what becomes known by their replies.
use update_versions_lsp::cache::VersionResult;
use update_versions_lsp::providers::cargo::{CargoProvider, CrateVersion};
use update_versions_lsp::providers::composer::{ComposerProvider, PackageVersions};
use update_versions_lsp::providers::deno::DenoProvider;
use update_versions_lsp::providers::npm::NpmProvider;
use update_versions_lsp::providers::pypi::{
    parse_pep440_prerelease_as_semver, PypiProvider, PypiRelease,
};
use update_versions_lsp::providers::reply::{read_reply, Reply};
use update_versions_lsp::providers::request::Registry;
use update_versions_lsp::providers::rubygems::{GemVersion, RubyGemsProvider};
use update_versions_lsp::providers::Provider;

fn strings(list: &[&str]) -> Vec<String> {
    list.iter().map(|s| s.to_string()).collect()
}

fn assert_result(result: VersionResult, stable: &[&str], prerelease: Option<&str>) {
    assert_eq!(result.stable_versions, strings(stable));
    assert_eq!(result.prerelease.as_deref(), prerelease);
}

fn url(provider: &dyn Provider, package: &str) -> String {
    provider.version_request(package).unwrap().url
}

#[test]
fn npm_requests() {
    let npm = NpmProvider::new("https://registry.npmjs.org".to_string(), Vec::new());
    let request = npm.version_request("@types/node").unwrap();
    assert_eq!(request.registry, Registry::Npm);
    assert_eq!(request.url, "https://registry.npmjs.org/@types%2Fnode");
    assert_eq!(
        request.accept.as_deref(),
        Some("application/vnd.npm.install-v1+json")
    );
    assert_eq!(url(&npm, "react"), "https://registry.npmjs.org/react");
    assert_eq!(url(&npm, "a/b"), "https://registry.npmjs.org/a/b");
    assert_eq!(url(&npm, "@a/b/c"), "https://registry.npmjs.org/@a%2Fb/c");
    assert_eq!(url(&npm, "@a"), "https://registry.npmjs.org/@a");
}

#[test]
fn other_requests() {
    let cargo = CargoProvider::new(Vec::new());
    assert_eq!(url(&cargo, "serde"), "https://crates.io/api/v1/crates/serde");
    assert_eq!(
        url(&PypiProvider::new(), "flask"),
        "https://pypi.org/pypi/flask/json"
    );
    assert_eq!(
        url(&ComposerProvider::new(), "a/b"),
        "https://repo.packagist.org/p2/a/b.json"
    );
    assert_eq!(
        url(&RubyGemsProvider::new(), "rails"),
        "https://rubygems.org/api/v1/versions/rails.json"
    );
    assert!(cargo.version_request("serde").unwrap().accept.is_none());
}

#[test]
fn deno_requests_go_by_the_prefix() {
    let deno = DenoProvider::new("https://npm.example".to_string());
    assert_eq!(
        url(&deno, "jsr:@std/path"),
        "https://jsr.io/@std/path/meta.json"
    );
    assert_eq!(
        url(&deno, "npm:@types/node"),
        "https://npm.example/@types%2Fnode"
    );
    assert_eq!(
        url(&deno, "deno:oak"),
        "https://cdn.deno.land/oak/meta/versions.json"
    );
    assert!(deno.version_request("oak").is_none());
}

#[test]
fn listed_versions_are_ranked() {
    let list = strings(&[
        "1.0.0", "2.0.0-rc.1", "1.10.0", "next", "2.0.0-alpha.9", "1.9.0", "1.0.0+a", "1.9.0",
    ]);
    assert_result(
        read_reply(Registry::Npm, "p", Some(Reply::Versions(list))),
        &["1.10.0", "1.9.0", "1.9.0", "1.0.0+a", "1.0.0"],
        Some("2.0.0-rc.1"),
    );
}

#[test]
fn the_order_of_a_list_does_not_matter() {
    let mut list: Vec<String> = (0..40).map(|i| format!("1.{}.{}", i * 7 % 11, i)).collect();
    let one = read_reply(Registry::Npm, "p", Some(Reply::Versions(list.clone())));
    list.reverse();
    let two = read_reply(Registry::Npm, "p", Some(Reply::Versions(list.clone())));
    assert_eq!(one.stable_versions, two.stable_versions);
    let mut numbers: Vec<(u64, u64)> = (0..40).map(|i| (i * 7 % 11, i)).collect();
    numbers.sort();
    numbers.reverse();
    let expected: Vec<String> = numbers.iter().map(|(a, b)| format!("1.{}.{}", a, b)).collect();
    assert_eq!(one.stable_versions, expected);
}

#[test]
fn deno_land_versions_lose_their_v() {
    let list = strings(&["v12.6.1", "13.0.0", "vv1.0.0", "v14.0.0-rc.1"]);
    assert_result(
        read_reply(Registry::DenoLand, "oak", Some(Reply::Versions(list))),
        &["13.0.0", "12.6.1"],
        Some("14.0.0-rc.1"),
    );
}

#[test]
fn yanked_crates_do_not_count() {
    let row = |num: &str, yanked: bool| CrateVersion {
        num: num.to_string(),
        yanked,
    };
    let rows = vec![
        row("1.0.0", false),
        row("2.0.0", true),
        row("3.0.0-beta.1", true),
        row("3.0.0-alpha.1", false),
        row("1.5.0", false),
    ];
    for registry in [Registry::CratesIo, Registry::Jsr] {
        let rows = rows.iter().map(|r| row(&r.num, r.yanked)).collect();
        assert_result(
            read_reply(registry, "c", Some(Reply::Crates(rows))),
            &["1.5.0", "1.0.0"],
            Some("3.0.0-alpha.1"),
        );
    }
}

#[test]
fn pypi_versions_are_read() {
    let list = strings(&[
        "1.0", "1.2.3", "1.2.4.post1", "2.0a1", "2.0rc2", "2.0b3", "3.0.dev1", "1.0.1.2", "2.0.0",
        "2.0.0c1",
    ]);
    assert_result(
        read_reply(Registry::PyPi, "p", Some(Reply::Releases(releases(list)))),
        &["2.0.0", "1.2.4", "1.2.3", "1.0.0"],
        Some("2.0.0-rc.2"),
    );
}

fn releases(list: Vec<String>) -> Vec<PypiRelease> {
    list.into_iter()
        .map(|version| PypiRelease { version, files_yanked: vec![false] })
        .collect()
}

#[test]
fn yanked_releases_do_not_count() {
    let row = |version: &str, files_yanked: &[bool]| PypiRelease {
        version: version.to_string(),
        files_yanked: files_yanked.to_vec(),
    };
    let rows = vec![
        row("1.0", &[false, false]),
        row("1.1", &[true, true]),
        row("1.2", &[true, false]),
        row("2.0a1", &[false]),
        row("2.0b1", &[true]),
        row("1.3", &[]),
    ];
    assert_result(
        read_reply(Registry::PyPi, "p", Some(Reply::Releases(rows))),
        &["1.3.0", "1.2.0", "1.0.0"],
        Some("2.0.0-alpha.1"),
    );
}

#[test]
fn only_npm_is_asked_by_the_bare_server() {
    let npm = NpmProvider::new("https://npm.example".to_string(), Vec::new());
    let deno = DenoProvider::new("https://npm.example".to_string());
    assert!(!npm.version_request("react").unwrap().as_extension);
    for package in ["npm:react", "jsr:@std/path", "deno:oak"] {
        assert!(deno.version_request(package).unwrap().as_extension);
    }
    let cargo = CargoProvider::new(Vec::new());
    assert!(cargo.version_request("serde").unwrap().as_extension);
}

#[test]
fn pypi_prereleases_are_mapped() {
    let read = |text: &str| parse_pep440_prerelease_as_semver(text).map(|v| v.to_string());
    assert_eq!(read("1.0a1").as_deref(), Some("1.0.0-alpha.1"));
    assert_eq!(read("1.0b2").as_deref(), Some("1.0.0-beta.2"));
    assert_eq!(read("1.0RC1").as_deref(), Some("1.0.0-rc.1"));
    assert_eq!(read("2alpha3").as_deref(), Some("2.0.0-alpha.3"));
    assert_eq!(read("1.2.3beta4").as_deref(), Some("1.2.3-beta.4"));
    assert_eq!(read("1.0a"), None);
    assert_eq!(read("1.0a01"), None);
    assert_eq!(read("1.0.dev1"), None);
    assert_eq!(read("1.0x1"), None);
    assert_eq!(read("1.a1"), None);
    assert_eq!(read("1.2.3"), None);
}

#[test]
fn packagist_goes_by_the_package_name() {
    let packages = || {
        vec![
            PackageVersions {
                name: "a/a".to_string(),
                versions: strings(&["v1.0.0", "1.2", "1.2.3.0", "2.0.0-beta1", "dev-main"]),
            },
            PackageVersions {
                name: "b/b".to_string(),
                versions: strings(&["V3.0.0", "3.1.0+dev", "3.0.1+x"]),
            },
        ]
    };
    assert_result(
        read_reply(Registry::Packagist, "a/a", Some(Reply::Packages(packages()))),
        &["1.2.3", "1.2.0", "1.0.0"],
        None,
    );
    assert_result(
        read_reply(Registry::Packagist, "b/b", Some(Reply::Packages(packages()))),
        &["3.0.1", "3.0.0"],
        Some("3.1.0"),
    );
    // Under no name of its own, the first there is counts.
    assert_result(
        read_reply(Registry::Packagist, "c/c", Some(Reply::Packages(packages()))),
        &["1.2.3", "1.2.0", "1.0.0"],
        None,
    );
    assert_result(
        read_reply(Registry::Packagist, "a/a", Some(Reply::Packages(Vec::new()))),
        &[],
        None,
    );
}

#[test]
fn gems_are_marked_by_the_registry() {
    let row = |number: &str, prerelease: bool| GemVersion {
        number: number.to_string(),
        prerelease,
    };
    let rows = vec![
        row("7", false),
        row("7.1", false),
        row("7.1.3", false),
        row("7.1.3.4", false),
        row("8.0.0-rc.1", true),
        row("8.0.0.rc1", true),
        row("7.2", true),
    ];
    assert_result(
        read_reply(Registry::RubyGems, "rails", Some(Reply::Gems(rows))),
        &["7.1.3", "7.1.0", "7.0.0"],
        Some("8.0.0-rc.1"),
    );
}

#[test]
fn a_failed_lookup_makes_nothing_known() {
    for registry in [
        Registry::Npm,
        Registry::CratesIo,
        Registry::PyPi,
        Registry::Packagist,
        Registry::RubyGems,
        Registry::Jsr,
        Registry::DenoLand,
    ] {
        assert_result(read_reply(registry, "p", None), &[], None);
    }
    let list = strings(&["1.0.0"]);
    assert_result(
        read_reply(Registry::CratesIo, "p", Some(Reply::Versions(list))),
        &[],
        None,
    );
}
