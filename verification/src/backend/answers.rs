//! What holds of the server's answers: which ecosystem reads a document, what is
//! looked up, and what hints and plans are made from.
use vstd::prelude::*;
use super::{fetch, hints_for, missing, missing_at, plan, providers_for, resolve_all, FetchView};
use super::hints::label;
use super::status::classify;
use crate::cache::{ResultView, VersionCache};
use crate::config::SettingsView;
use crate::listing::{gather, is_least, least, lemma_gather, lemma_gathered, lemma_least_is};
use crate::providers::{acts_like, handles, handles_at, DependencyView, Provider, Registered};
use crate::providers::cargo::CargoProvider;
use crate::providers::composer::ComposerProvider;
use crate::providers::deno::DenoProvider;
use crate::providers::npm::NpmProvider;
use crate::providers::pypi::PypiProvider;
use crate::providers::request::{escaped, Registry};
use crate::providers::rubygems::RubyGemsProvider;
use crate::text::chars::texts;
use crate::text::search::{ends, is_char, lemma_find_where_is};

verus! {

/// A package is looked up exactly where nothing fresh is known of it: under the key
/// of its ecosystem and its name, and with the request that its ecosystem makes.
pub proof fn law_lookups(
    provider: &Box<dyn Provider>,
    deps: Seq<DependencyView>,
    cache: VersionCache,
    now: u128,
    package: Seq<char>,
)
    ensures
        missing(provider, deps, cache, now).contains(
            (FetchView {
                key: provider.title() + ":"@ + package,
                package,
                request: provider.question(package),
            }),
        ) <==> cache.answer(provider.title() + ":"@ + package, now) is None && exists|i: int|
            0 <= i < deps.len() && (#[trigger] deps[i]).name == package,
        forall|k: int|
            0 <= k < missing(provider, deps, cache, now).len() ==> (#[trigger] missing(
                provider,
                deps,
                cache,
                now,
            )[k]).key == provider.title() + ":"@ + missing(provider, deps, cache, now)[k].package,
{
    let at = missing_at(provider, deps, cache, now);
    let all = missing(provider, deps, cache, now);
    let n = deps.len() as int;
    let wanted = FetchView {
        key: provider.title() + ":"@ + package,
        package,
        request: provider.question(package),
    };
    if all.contains(wanted) {
        let k = choose|k: int| 0 <= k < all.len() && all[k] == wanted;
        lemma_gather(n, at, k);
        let i = choose|i: int| 0 <= i < n && #[trigger] at(i) == Some(all[k]);
        assert(deps[i].name == package);
    }
    if cache.answer(provider.title() + ":"@ + package, now) is None && exists|i: int|
        0 <= i < deps.len() && (#[trigger] deps[i]).name == package {
        let i = choose|i: int| 0 <= i < deps.len() && (#[trigger] deps[i]).name == package;
        assert(at(i) == Some(wanted));
        lemma_gathered(n, at, i);
        let k = choose|k: int| 0 <= k < all.len() && #[trigger] gather(n, at)[k] == wanted;
        assert(all[k] == wanted);
    }
    assert forall|k: int| 0 <= k < all.len() implies (#[trigger] all[k]).key == provider.title()
        + ":"@ + all[k].package by {
        lemma_gather(n, at, k);
        let i = choose|i: int| 0 <= i < n && #[trigger] at(i) == Some(all[k]);
        assert(all[k] == fetch(provider, deps[i].name));
    }
}

/// A hint shows the status of its dependency by what is known of the package, and
/// that it is being fetched where nothing is.
pub proof fn law_hints_show_what_is_known(
    provider: &Box<dyn Provider>,
    deps: Seq<DependencyView>,
    content: Seq<char>,
    cache: VersionCache,
    now: u128,
    i: int,
)
    requires
        0 <= i < deps.len(),
    ensures
        ({
            let shown = hints_for(provider, deps, content, cache, now)[i];
            match cache.answer(provider.title() + ":"@ + deps[i].name, now) {
                Some(known) => shown.label == label(
                    classify(
                        deps[i].constraint,
                        provider.normal_form(deps[i].constraint),
                        known,
                    ),
                ),
                None => shown.label == "… fetching"@,
            }
        }),
        hints_for(provider, deps, content, cache, now)[i].position.line
            == deps[i].range.start.line,
{
}

/// A plan holds the dependencies of a document, one by one, each with the requirement
/// that its constraint stands for and the lookup of its package.
pub proof fn law_plan_covers_dependencies(
    provider: &Box<dyn Provider>,
    deps: Seq<DependencyView>,
    results: Seq<ResultView>,
    i: int,
)
    requires
        0 <= i < deps.len(),
        results.len() == deps.len(),
    ensures
        plan(provider, deps).len() == deps.len(),
        plan(provider, deps)[i].dependency == deps[i],
        plan(provider, deps)[i].requirement == provider.normal_form(deps[i].constraint),
        plan(provider, deps)[i].fetch.key == provider.title() + ":"@ + deps[i].name,
        plan(provider, deps)[i].fetch.package == deps[i].name,
        plan(provider, deps)[i].fetch.request == provider.question(deps[i].name),
        resolve_all(plan(provider, deps), results).len() == deps.len(),
        resolve_all(plan(provider, deps), results)[i].parsed == deps[i],
        resolve_all(plan(provider, deps), results)[i].status == classify(
            deps[i].constraint,
            provider.normal_form(deps[i].constraint),
            results[i],
        ),
        resolve_all(plan(provider, deps), results)[i].prerelease == results[i].prerelease,
{
}

/// The manifests and the places of the ecosystems that read them.
pub open spec fn reader_of(uri: Seq<char>) -> Option<int> {
    if ends(uri, "package.json"@) {
        Some(0)
    } else if ends(uri, "Cargo.toml"@) {
        Some(1)
    } else if ends(uri, "requirements.txt"@) || ends(uri, "pyproject.toml"@) {
        Some(2)
    } else if ends(uri, "composer.json"@) {
        Some(3)
    } else if ends(uri, "Gemfile"@) {
        Some(4)
    } else if ends(uri, "deno.json"@) || ends(uri, "deno.jsonc"@) || ends(uri, "import_map.json"@) {
        Some(5)
    } else {
        None
    }
}

/// Which documents the providers handle.
proof fn lemma_handled(settings: SettingsView, providers: Seq<Registered>, uri: Seq<char>)
    requires
        providers_for(settings, providers),
    ensures
        ({
            let f = handles_at(providers, uri);
            &&& f(0) == ends(uri, "package.json"@)
            &&& f(1) == ends(uri, "Cargo.toml"@)
            &&& f(2) == (ends(uri, "requirements.txt"@) || ends(uri, "pyproject.toml"@))
            &&& f(3) == ends(uri, "composer.json"@)
            &&& f(4) == ends(uri, "Gemfile"@)
            &&& f(5) == (ends(uri, "deno.json"@) || ends(uri, "deno.jsonc"@) || ends(
                uri,
                "import_map.json"@,
            ))
        }),
{
    let f = handles_at(providers, uri);
    let n = choose|p: NpmProvider|
        p.registry@ == settings.npm.registry && texts(p.dependency_keys@)
            == settings.npm.dependency_keys && #[trigger] acts_like(&providers[0].provider, p);
    let c = choose|p: CargoProvider|
        texts(p.dependency_keys@) == settings.cargo.dependency_keys && #[trigger] acts_like(
            &providers[1].provider,
            p,
        );
    let d = choose|p: DenoProvider|
        p.npm_registry@ == settings.npm.registry && #[trigger] acts_like(&providers[5].provider, p);
    let p0 = providers[0].provider.patterns();
    let p1 = providers[1].provider.patterns();
    let p2 = providers[2].provider.patterns();
    let p3 = providers[3].provider.patterns();
    let p4 = providers[4].provider.patterns();
    let p5 = providers[5].provider.patterns();
    assert(p0 == n.patterns() && p1 == c.patterns() && p5 == d.patterns());
    assert(p0 == seq!["package.json"@] && p1 == seq!["Cargo.toml"@]);
    assert(p2 == seq!["requirements.txt"@, "pyproject.toml"@]);
    assert(p3 == seq!["composer.json"@] && p4 == seq!["Gemfile"@]);
    assert(p5 == seq!["deno.json"@, "import_map.json"@, "deno.jsonc"@]);
    assert(ends(uri, p0[0]) == handles(p0, uri));
    assert(ends(uri, p1[0]) == handles(p1, uri));
    assert((ends(uri, p2[0]) || ends(uri, p2[1])) == handles(p2, uri));
    assert(ends(uri, p3[0]) == handles(p3, uri));
    assert(ends(uri, p4[0]) == handles(p4, uri));
    assert((ends(uri, p5[0]) || ends(uri, p5[1]) || ends(uri, p5[2])) == handles(p5, uri));
}

/// Every manifest is read by the provider of its ecosystem, and no other document is
/// read.
pub proof fn law_manifest_goes_to_its_ecosystem(
    settings: SettingsView,
    providers: Seq<Registered>,
    uri: Seq<char>,
)
    requires
        providers_for(settings, providers),
    ensures
        least(providers.len() as int, handles_at(providers, uri)) == reader_of(uri),
{
    let f = handles_at(providers, uri);
    lemma_handled(settings, providers, uri);
    match reader_of(uri) {
        Some(k) => {
            assert(is_least(6, f, k));
            lemma_least_is(6, f, k);
        },
        None => {
            crate::listing::lemma_least(6, f);
        },
    }
}

/// The names of the ecosystems, and what their registries are asked: the address holds
/// the name of the package. npm's registry takes a scoped name with its slash
/// escaped.
pub proof fn law_questions(
    settings: SettingsView,
    providers: Seq<Registered>,
    package: Seq<char>,
)
    requires
        providers_for(settings, providers),
    ensures
        providers[0].provider.title() == "npm"@,
        providers[0].provider.question(package) is Some,
        providers[0].provider.question(package)->0.registry == Registry::Npm,
        providers[0].provider.question(package)->0.url == settings.npm.registry + "/"@ + escaped(
            package,
        ),
        providers[0].provider.question(package)->0.accept == Some(
            "application/vnd.npm.install-v1+json"@,
        ),
        !providers[0].provider.question(package)->0.as_extension,
        forall|k: int|
            1 <= k < 5 ==> (#[trigger] providers[k]).provider.question(package)->0.accept is None
                && providers[k].provider.question(package)->0.as_extension,
        providers[1].provider.title() == "cargo"@,
        providers[1].provider.question(package) is Some,
        providers[1].provider.question(package)->0.registry == Registry::CratesIo,
        providers[1].provider.question(package)->0.url == "https://crates.io/api/v1/crates/"@
            + package,
        providers[2].provider.title() == "pypi"@,
        providers[2].provider.question(package) is Some,
        providers[2].provider.question(package)->0.registry == Registry::PyPi,
        providers[2].provider.question(package)->0.url == "https://pypi.org/pypi/"@ + package
            + "/json"@,
        providers[3].provider.title() == "composer"@,
        providers[3].provider.question(package) is Some,
        providers[3].provider.question(package)->0.registry == Registry::Packagist,
        providers[3].provider.question(package)->0.url == "https://repo.packagist.org/p2/"@
            + package + ".json"@,
        providers[4].provider.title() == "rubygems"@,
        providers[4].provider.question(package) is Some,
        providers[4].provider.question(package)->0.registry == Registry::RubyGems,
        providers[4].provider.question(package)->0.url == "https://rubygems.org/api/v1/versions/"@
            + package + ".json"@,
        providers[5].provider.title() == "deno"@,
{
    reveal_strlit("");
    let n = choose|p: NpmProvider|
        p.registry@ == settings.npm.registry && texts(p.dependency_keys@)
            == settings.npm.dependency_keys && #[trigger] acts_like(&providers[0].provider, p);
    let c = choose|p: CargoProvider|
        texts(p.dependency_keys@) == settings.cargo.dependency_keys && #[trigger] acts_like(
            &providers[1].provider,
            p,
        );
    let d = choose|p: DenoProvider|
        p.npm_registry@ == settings.npm.registry && #[trigger] acts_like(&providers[5].provider, p);
    assert(providers[0].provider.question(package) == n.question(package));
    assert(providers[1].provider.question(package) == c.question(package));
    assert(providers[5].provider.title() == d.title());
    let py = PypiProvider {  };
    let co = ComposerProvider {  };
    let ru = RubyGemsProvider {  };
    assert(providers[2].provider.question(package) == py.question(package));
    assert(providers[3].provider.question(package) == co.question(package));
    assert(providers[4].provider.question(package) == ru.question(package));
    assert("https://crates.io/api/v1/crates/"@ + package + ""@ == "https://crates.io/api/v1/crates/"@
        + package);
}

/// Deno asks the registry that the name of the package begins with, about the rest of
/// the name; it asks none about any other name.
pub proof fn law_deno_questions(d: DenoProvider, name: Seq<char>)
    ensures
        d.question("jsr:"@ + name) is Some,
        d.question("jsr:"@ + name)->0.registry == Registry::Jsr,
        d.question("jsr:"@ + name)->0.url == "https://jsr.io/"@ + name + "/meta.json"@,
        d.question("npm:"@ + name) is Some,
        d.question("npm:"@ + name)->0.registry == Registry::Npm,
        d.question("npm:"@ + name)->0.url == d.npm_registry@ + "/"@ + escaped(name),
        d.question("deno:"@ + name) is Some,
        d.question("deno:"@ + name)->0.registry == Registry::DenoLand,
        d.question("deno:"@ + name)->0.url == "https://cdn.deno.land/"@ + name
            + "/meta/versions.json"@,
{
    reveal_strlit("jsr:");
    reveal_strlit("npm:");
    reveal_strlit("deno:");
    let a = "jsr:"@ + name;
    let b = "npm:"@ + name;
    let c = "deno:"@ + name;
    assert(a.take(4) == "jsr:"@ && a.skip(4) == name);
    assert(b.take(4) == "npm:"@ && b.skip(4) == name);
    assert(c.take(5) == "deno:"@ && c.skip(5) == name);
    assert(b.take(4)[0] == 'n');
    assert(c.take(4)[0] == 'd');
}

/// The slash of a scoped name is escaped; a name without a scope is left alone.
pub proof fn law_escaped_names(scope: Seq<char>, name: Seq<char>)
    requires
        forall|i: int| 0 <= i < scope.len() ==> #[trigger] scope[i] != '/',
    ensures
        escaped(seq!['@'] + scope + seq!['/'] + name) == seq!['@'] + scope + "%2F"@ + name,
        name.len() > 0 && name[0] != '@' ==> escaped(name) == name,
{
    reveal_strlit("@");
    let s = seq!['@'] + scope + seq!['/'] + name;
    let n = scope.len() as int + 1;
    assert(s.take(1) == "@"@);
    assert forall|i: int| 0 <= i < n implies !is_char('/')(s[i]) by {
        if i > 0 {
            assert(s[i] == scope[i - 1]);
        }
    }
    assert(s[n] == '/');
    lemma_find_where_is(s, is_char('/'), n);
    assert(s.take(n) == seq!['@'] + scope);
    assert(s.skip(n + 1) == name);
    if name.len() > 0 && name[0] != '@' {
        assert(name.take(1)[0] == name[0]);
    }
}

/// The requirement that a constraint stands for is made by the normaliser of its
/// ecosystem.
pub proof fn law_normalisers(settings: SettingsView, providers: Seq<Registered>, c: Seq<char>)
    requires
        providers_for(settings, providers),
    ensures
        providers[0].provider.normal_form(c) == crate::version_utils::normalize::standard_form(c),
        providers[1].provider.normal_form(c) == crate::version_utils::normalize::standard_form(c),
        providers[2].provider.normal_form(c)
            == crate::version_utils::normalize::python::python_form(c),
        providers[3].provider.normal_form(c) == crate::version_utils::normalize::standard_form(c),
        providers[4].provider.normal_form(c) == crate::version_utils::normalize::ruby::ruby_form(c),
        providers[5].provider.normal_form(c) == crate::version_utils::normalize::deno::deno_form(c),
{
    let n = choose|p: NpmProvider|
        p.registry@ == settings.npm.registry && texts(p.dependency_keys@)
            == settings.npm.dependency_keys && #[trigger] acts_like(&providers[0].provider, p);
    let k = choose|p: CargoProvider|
        texts(p.dependency_keys@) == settings.cargo.dependency_keys && #[trigger] acts_like(
            &providers[1].provider,
            p,
        );
    let d = choose|p: DenoProvider|
        p.npm_registry@ == settings.npm.registry && #[trigger] acts_like(&providers[5].provider, p);
    let py = PypiProvider {  };
    let co = ComposerProvider {  };
    let ru = RubyGemsProvider {  };
    assert(providers[0].provider.normal_form(c) == n.normal_form(c));
    assert(providers[1].provider.normal_form(c) == k.normal_form(c));
    assert(providers[2].provider.normal_form(c) == py.normal_form(c));
    assert(providers[3].provider.normal_form(c) == co.normal_form(c));
    assert(providers[4].provider.normal_form(c) == ru.normal_form(c));
    assert(providers[5].provider.normal_form(c) == d.normal_form(c));
}

} // verus!
