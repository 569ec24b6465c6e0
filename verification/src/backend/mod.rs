//! What the server answers, from the documents that are open, the settings in
//! force and the versions that are known.
pub mod actions;
pub mod answers;
pub mod hints;
pub mod laws;
pub mod status;

pub use hints::{hint_label, hint_tooltip};
pub use status::classify_dependency;

use vstd::prelude::*;
use self::actions::{
    actions_on, actions_view, law_edits_replace_constraints, line_updates, offers, resolved_view,
    Action,
};
use self::hints::{hint, hint_for, hints_view, sound, Hint, HintView};
use self::status::{classify, law_update_has_candidate, status_for};
use crate::cache::{is_fresh, result_view, CacheEntry, ResultView, VersionCache, VersionResult};
use crate::config::{default_settings, ConfigManager, Settings, SettingsView};
use crate::listing::{gather, least, lemma_gather};
use crate::providers::{
    acts_like, all_declared, dependencies_view, handles_at, is_declared, DependencyStatus,
    DependencyView, ParsedDependency, Provider, ProviderRegistry, Registered, ResolvedDependency,
    ResolvedView, StatusView,
};
use crate::providers::cargo::{law_cargo_toml_ranges, CargoProvider};
use crate::providers::composer::{law_composer_json_ranges, ComposerProvider};
use crate::providers::deno::{law_deno_config_ranges, DenoProvider};
use crate::providers::npm::{law_package_json_ranges, NpmProvider};
use crate::providers::pypi::{law_pyproject_toml_ranges, law_requirements_ranges, PypiProvider};
use crate::providers::request::{request_view, RequestView, VersionRequest};
use crate::providers::rubygems::{law_gemfile_ranges, RubyGemsProvider};
use crate::table::Table;
use crate::text::chars::{chars_of, copied, copied_all, joined, owned, texts};
use crate::text::lines::{lines, lines_of};
use crate::text::search::parts_view;
use crate::version_utils::replacement;

verus! {

/// The key under which a package is cached.
pub open spec fn cache_key(provider: Seq<char>, package: Seq<char>) -> Seq<char> {
    provider + ":"@ + package
}

/// A lookup to be made: the key of its result, the package, and the request
/// that asks for it. Where there is no request, nothing can be known.
#[derive(Debug)]
pub struct Fetch {
    pub key: String,
    pub package: String,
    pub request: Option<VersionRequest>,
}

/// A lookup as a mathematical value.
pub struct FetchView {
    pub key: Seq<char>,
    pub package: Seq<char>,
    pub request: Option<RequestView>,
}

impl View for Fetch {
    type V = FetchView;

    open spec fn view(&self) -> FetchView {
        FetchView {
            key: self.key@,
            package: self.package@,
            request: request_view(self.request),
        }
    }
}

/// Lookups as mathematical values.
pub open spec fn fetches_view(v: Seq<Fetch>) -> Seq<FetchView> {
    v.map_values(|f: Fetch| f@)
}

/// The lookup for a package.
pub open spec fn fetch(provider: &Box<dyn Provider>, package: Seq<char>) -> FetchView {
    FetchView {
        key: cache_key(provider.title(), package),
        package,
        request: provider.question(package),
    }
}

/// The lookup for a package.
pub fn fetch_for(provider: &Box<dyn Provider>, package: &str) -> (r: Fetch)
    ensures
        r@ == fetch(provider, package@),
{
    Fetch {
        key: joined(provider.name(), ":", package),
        package: owned(package),
        request: provider.version_request(package),
    }
}

/// The lookups for the packages of which nothing fresh is known, by the number
/// of the dependency.
pub open spec fn missing_at(
    provider: &Box<dyn Provider>,
    deps: Seq<DependencyView>,
    cache: VersionCache,
    now: u128,
) -> spec_fn(int) -> Option<FetchView> {
    |i: int|
        if cache.answer(cache_key(provider.title(), deps[i].name), now) is None {
            Some(fetch(provider, deps[i].name))
        } else {
            None
        }
}

/// The lookups for the packages of which nothing fresh is known.
pub open spec fn missing(
    provider: &Box<dyn Provider>,
    deps: Seq<DependencyView>,
    cache: VersionCache,
    now: u128,
) -> Seq<FetchView> {
    gather(deps.len() as int, missing_at(provider, deps, cache, now))
}

/// A dependency as far as it is known: by what was looked up, or as loading.
pub open spec fn resolve(
    dep: DependencyView,
    requirement: Seq<char>,
    known: Option<ResultView>,
) -> ResolvedView {
    match known {
        Some(result) => ResolvedView {
            parsed: dep,
            status: classify(dep.constraint, requirement, result),
            prerelease: result.prerelease,
        },
        None => ResolvedView { parsed: dep, status: StatusView::Loading, prerelease: None },
    }
}

/// The hints for dependencies, as far as they are known.
pub open spec fn hints_for(
    provider: &Box<dyn Provider>,
    deps: Seq<DependencyView>,
    content: Seq<char>,
    cache: VersionCache,
    now: u128,
) -> Seq<HintView> {
    Seq::new(
        deps.len(),
        |i: int|
            hint(
                lines(content),
                resolve(
                    deps[i],
                    provider.normal_form(deps[i].constraint),
                    cache.answer(cache_key(provider.title(), deps[i].name), now),
                ),
            ),
    )
}

/// A dependency as far as it is known.
pub fn resolve_dependency(
    dep: &ParsedDependency,
    requirement: &str,
    known: &Option<VersionResult>,
) -> (r: ResolvedDependency)
    ensures
        r@ == resolve(dep@, requirement@, result_view(*known)),
        sound(r.status@),
{
    match known {
        Some(result) => {
            proof {
                law_update_has_candidate(dep.version_constraint@, requirement@, result@);
            }
            ResolvedDependency {
                parsed: dep.clone(),
                status: status_for(dep.version_constraint.as_str(), requirement, result),
                prerelease: copied(&result.prerelease),
            }
        },
        None => ResolvedDependency {
            parsed: dep.clone(),
            status: DependencyStatus::Loading,
            prerelease: None,
        },
    }
}

/// The lookups for the packages of which nothing fresh is known.
pub fn missing_fetches(
    provider: &Box<dyn Provider>,
    deps: &Vec<ParsedDependency>,
    cache: &VersionCache,
    now: u128,
) -> (r: Vec<Fetch>)
    requires
        cache.wf(),
    ensures
        fetches_view(r@) == missing(provider, dependencies_view(deps@), *cache, now),
{
    let ghost all = dependencies_view(deps@);
    let ghost at = missing_at(provider, all, *cache, now);
    let mut out: Vec<Fetch> = Vec::new();
    assert(fetches_view(out@) == gather(0, at));
    for i in 0..deps.len()
        invariant
            cache.wf(),
            all == dependencies_view(deps@),
            at == missing_at(provider, all, *cache, now),
            fetches_view(out@) == gather(i as int, at),
    {
        assert(all[i as int] == deps@[i as int]@);
        let fetch = fetch_for(provider, deps[i].name.as_str());
        if cache.get(fetch.key.as_str(), now).is_none() {
            proof {
                assert(at(i as int) == Some(fetch@));
                assert(fetches_view(out@.push(fetch)) == fetches_view(out@).push(fetch@));
            }
            out.push(fetch);
        } else {
            assert(at(i as int) is None);
        }
    }
    out
}

/// The hints for dependencies, as far as they are known.
pub fn hints_of(
    provider: &Box<dyn Provider>,
    deps: &Vec<ParsedDependency>,
    content: &str,
    cache: &VersionCache,
    now: u128,
) -> (r: Vec<Hint>)
    requires
        cache.wf(),
    ensures
        hints_view(r@) == hints_for(provider, dependencies_view(deps@), content@, *cache, now),
{
    let cs = chars_of(content);
    let all_lines = lines_of(cs.as_slice());
    let ghost all = dependencies_view(deps@);
    let ghost goal = hints_for(provider, all, content@, *cache, now);
    let mut out: Vec<Hint> = Vec::new();
    for i in 0..deps.len()
        invariant
            cache.wf(),
            parts_view(all_lines@) == lines(content@),
            all == dependencies_view(deps@),
            goal == hints_for(provider, all, content@, *cache, now),
            hints_view(out@) == goal.take(i as int),
    {
        assert(all[i as int] == deps@[i as int]@);
        let dep = &deps[i];
        let key = joined(provider.name(), ":", dep.name.as_str());
        let known = cache.get(key.as_str(), now);
        let requirement = provider.normalize_constraint(dep.version_constraint.as_str());
        let resolved = resolve_dependency(dep, requirement.as_str(), &known);
        let hint = hint_for(&all_lines, &resolved);
        proof {
            assert(hint@ == goal[i as int]);
            assert(goal.take(i as int + 1) == goal.take(i as int).push(goal[i as int]));
            assert(hints_view(out@.push(hint)) == hints_view(out@).push(hint@));
        }
        out.push(hint);
    }
    assert(goal.take(goal.len() as int) == goal);
    out
}

/// The providers that settings ask for.
pub open spec fn providers_for(settings: SettingsView, providers: Seq<Registered>) -> bool {
    &&& providers.len() == 6
    &&& exists|p: NpmProvider|
        p.registry@ == settings.npm.registry && texts(p.dependency_keys@)
            == settings.npm.dependency_keys && #[trigger] acts_like(&providers[0].provider, p)
    &&& exists|p: CargoProvider|
        texts(p.dependency_keys@) == settings.cargo.dependency_keys && #[trigger] acts_like(
            &providers[1].provider,
            p,
        )
    &&& acts_like(&providers[2].provider, PypiProvider {})
    &&& acts_like(&providers[3].provider, ComposerProvider {})
    &&& acts_like(&providers[4].provider, RubyGemsProvider {})
    &&& exists|p: DenoProvider|
        p.npm_registry@ == settings.npm.registry && #[trigger] acts_like(&providers[5].provider, p)
}

/// Builds the providers that settings ask for.
pub fn build_providers(settings: &Settings) -> (r: ProviderRegistry)
    ensures
        providers_for(settings@, r.providers@),
{
    let mut registry = ProviderRegistry::new();
    let npm = NpmProvider::new(
        settings.npm.registry.clone(),
        copied_all(&settings.npm.dependency_keys),
    );
    let cargo = CargoProvider::new(copied_all(&settings.cargo.dependency_keys));
    let deno = DenoProvider::new(settings.npm.registry.clone());
    let ghost (n, c, d) = (npm, cargo, deno);
    registry.register(npm.shared());
    registry.register(cargo.shared());
    registry.register(PypiProvider::new().shared());
    registry.register(ComposerProvider::new().shared());
    registry.register(RubyGemsProvider::new().shared());
    registry.register(deno.shared());
    proof {
        assert(acts_like(&registry.providers@[0].provider, n));
        assert(acts_like(&registry.providers@[1].provider, c));
        assert(acts_like(&registry.providers@[5].provider, d));
    }
    registry
}

/// What the server knows: the documents that are open, by their URI, the
/// settings in force, the versions that were looked up, and the ecosystems.
pub struct Backend {
    pub documents: Table<String>,
    pub config: ConfigManager,
    pub cache: VersionCache,
    pub providers: ProviderRegistry,
}

/// The hints for a document, and the lookups that would improve them.
#[derive(Debug)]
pub struct InlayReply {
    pub hints: Vec<Hint>,
    pub fetches: Vec<Fetch>,
}

/// A dependency whose versions are to be looked up: what was parsed, the
/// requirement that its constraint stands for, and the lookup.
#[derive(Debug)]
pub struct Planned {
    pub dependency: ParsedDependency,
    pub requirement: String,
    pub fetch: Fetch,
}

/// A planned lookup as a mathematical value.
pub struct PlannedView {
    pub dependency: DependencyView,
    pub requirement: Seq<char>,
    pub fetch: FetchView,
}

impl View for Planned {
    type V = PlannedView;

    open spec fn view(&self) -> PlannedView {
        PlannedView {
            dependency: self.dependency@,
            requirement: self.requirement@,
            fetch: self.fetch@,
        }
    }
}

/// Planned lookups as mathematical values.
pub open spec fn plan_view(v: Seq<Planned>) -> Seq<PlannedView> {
    v.map_values(|p: Planned| p@)
}

/// The lookups for all dependencies of a document.
pub open spec fn plan(provider: &Box<dyn Provider>, deps: Seq<DependencyView>) -> Seq<PlannedView> {
    deps.map_values(
        |d: DependencyView|
            PlannedView {
                dependency: d,
                requirement: provider.normal_form(d.constraint),
                fetch: fetch(provider, d.name),
            },
    )
}

/// The dependencies of a plan, resolved by the results of its lookups.
pub open spec fn resolve_all(plan: Seq<PlannedView>, results: Seq<ResultView>) -> Seq<
    ResolvedView,
> {
    Seq::new(
        plan.len(),
        |i: int| resolve(plan[i].dependency, plan[i].requirement, Some(results[i])),
    )
}

/// Results as mathematical values.
pub open spec fn results_view(v: Seq<VersionResult>) -> Seq<ResultView> {
    v.map_values(|r: VersionResult| r@)
}

/// Plans the lookups for all dependencies of a document.
pub fn plan_for(provider: &Box<dyn Provider>, deps: &Vec<ParsedDependency>) -> (r: Vec<Planned>)
    ensures
        plan_view(r@) == plan(provider, dependencies_view(deps@)),
{
    let ghost all = dependencies_view(deps@);
    let ghost goal = plan(provider, all);
    let mut out: Vec<Planned> = Vec::new();
    for i in 0..deps.len()
        invariant
            all == dependencies_view(deps@),
            goal == plan(provider, all),
            plan_view(out@) == goal.take(i as int),
    {
        assert(all[i as int] == deps@[i as int]@);
        let planned = Planned {
            dependency: deps[i].clone(),
            requirement: provider.normalize_constraint(deps[i].version_constraint.as_str()),
            fetch: fetch_for(provider, deps[i].name.as_str()),
        };
        proof {
            assert(planned@ == goal[i as int]);
            assert(goal.take(i as int + 1) == goal.take(i as int).push(goal[i as int]));
            assert(plan_view(out@.push(planned)) == plan_view(out@).push(planned@));
        }
        out.push(planned);
    }
    assert(goal.take(goal.len() as int) == goal);
    out
}

/// Resolves the dependencies of a plan by the results of its lookups.
pub fn resolve_plan(plan: &Vec<Planned>, results: &Vec<VersionResult>) -> (r: Vec<
    ResolvedDependency,
>)
    requires
        plan@.len() == results@.len(),
    ensures
        resolved_view(r@) == resolve_all(plan_view(plan@), results_view(results@)),
{
    let ghost goal = resolve_all(plan_view(plan@), results_view(results@));
    let mut out: Vec<ResolvedDependency> = Vec::new();
    for i in 0..plan.len()
        invariant
            plan@.len() == results@.len(),
            goal == resolve_all(plan_view(plan@), results_view(results@)),
            resolved_view(out@) == goal.take(i as int),
    {
        assert(plan_view(plan@)[i as int] == plan@[i as int]@);
        assert(results_view(results@)[i as int] == results@[i as int]@);
        let known = Some(results[i].clone());
        let resolved = resolve_dependency(
            &plan[i].dependency,
            plan[i].requirement.as_str(),
            &known,
        );
        proof {
            assert(resolved@ == goal[i as int]);
            assert(goal.take(i as int + 1) == goal.take(i as int).push(goal[i as int]));
            assert(resolved_view(out@.push(resolved)) == resolved_view(out@).push(resolved@));
        }
        out.push(resolved);
    }
    assert(goal.take(goal.len() as int) == goal);
    out
}

/// The edits for the dependencies of a plan on a line.
pub fn code_actions(
    plan: &Vec<Planned>,
    results: &Vec<VersionResult>,
    hide_prereleases: bool,
    line: u32,
) -> (r: Vec<Action>)
    requires
        plan@.len() == results@.len(),
    ensures
        actions_view(r@) == line_updates(
            resolve_all(plan_view(plan@), results_view(results@)),
            hide_prereleases,
            line,
        ),
{
    let resolved = resolve_plan(plan, results);
    actions_on(&resolved, hide_prereleases, line)
}

impl Backend {
    /// The tables are tables.
    pub open spec fn wf(self) -> bool {
        self.documents.wf() && self.cache.wf()
    }

    /// The text of an open document.
    pub open spec fn content(self, uri: Seq<char>) -> Option<Seq<char>> {
        if self.documents@.contains_key(uri) {
            Some(self.documents@[uri]@)
        } else {
            None
        }
    }

    /// The provider that handles a document.
    pub open spec fn provider(&self, uri: Seq<char>) -> Option<&Box<dyn Provider>> {
        match least(
            self.providers.providers@.len() as int,
            handles_at(self.providers.providers@, uri),
        ) {
            Some(i) => Some(&self.providers.providers@[i].provider),
            None => None,
        }
    }

    /// A server with the default settings, which knows nothing yet.
    pub fn new() -> (r: Self)
        ensures
            r.wf(),
            r.documents@ == Map::<Seq<char>, String>::empty(),
            r.config.settings@ == default_settings(),
            r.cache.store@ == Map::<Seq<char>, CacheEntry>::empty(),
            r.cache.inflight@ == Map::<Seq<char>, ()>::empty(),
            r.cache.ttl_ms == 300_000,
            providers_for(default_settings(), r.providers.providers@),
    {
        let config = ConfigManager::new();
        let mut cache = VersionCache::new(0);
        cache.update_ttl(config.settings.cache_ttl_secs);
        let providers = build_providers(&config.settings);
        Backend { documents: Table::new(), config, cache, providers }
    }

    /// Notes a document that was opened. Returns the lookups for those of its
    /// packages of which nothing fresh is known.
    pub fn did_open(&mut self, uri: &str, content: String, now: u128) -> (r: Vec<Fetch>)
        requires
            old(self).wf(),
        ensures
            final(self).wf(),
            final(self).documents@ == old(self).documents@.insert(uri@, content),
            final(self).config == old(self).config,
            final(self).cache == old(self).cache,
            final(self).providers == old(self).providers,
            fetches_view(r@) == (match old(self).provider(uri@) {
                Some(provider) => missing(
                    provider,
                    provider.dependencies(uri@, content@),
                    old(self).cache,
                    now,
                ),
                None => seq![],
            }),
    {
        let fetches = match self.providers.get_provider(uri) {
            Some(found) => {
                let deps = found.provider.parse_dependencies(uri, content.as_str());
                missing_fetches(&found.provider, &deps, &self.cache, now)
            },
            None => {
                let none: Vec<Fetch> = Vec::new();
                assert(fetches_view(none@) == Seq::<FetchView>::empty());
                none
            },
        };
        self.documents.insert(uri, content);
        fetches
    }

    /// Notes the new text of a document; without one nothing changes.
    pub fn did_change(&mut self, uri: &str, change: Option<String>)
        requires
            old(self).wf(),
        ensures
            final(self).wf(),
            final(self).documents@ == (match change {
                Some(content) => old(self).documents@.insert(uri@, content),
                None => old(self).documents@,
            }),
            final(self).config == old(self).config,
            final(self).cache == old(self).cache,
            final(self).providers == old(self).providers,
    {
        if let Some(content) = change {
            self.documents.insert(uri, content);
        }
    }

    /// Forgets a document that was closed.
    pub fn did_close(&mut self, uri: &str)
        requires
            old(self).wf(),
        ensures
            final(self).wf(),
            final(self).documents@ == old(self).documents@.remove(uri@),
            final(self).config == old(self).config,
            final(self).cache == old(self).cache,
            final(self).providers == old(self).providers,
    {
        self.documents.remove(uri);
    }

    /// Puts new settings in force. What is cached stays, with a new lifetime.
    pub fn did_change_configuration(&mut self, settings: Settings)
        requires
            old(self).wf(),
        ensures
            final(self).wf(),
            final(self).documents == old(self).documents,
            final(self).config.settings == settings,
            final(self).cache.store == old(self).cache.store,
            final(self).cache.inflight == old(self).cache.inflight,
            final(self).cache.ttl_ms == (if settings.cache_ttl_secs * 1_000 <= u64::MAX {
                settings.cache_ttl_secs * 1_000
            } else {
                u64::MAX as int
            }),
            providers_for(settings@, final(self).providers.providers@),
    {
        self.providers = build_providers(&settings);
        self.cache.update_ttl(settings.cache_ttl_secs);
        self.config.update_settings(settings);
    }

    /// The hints for a document, from what is known, and the lookups for those
    /// of its packages of which nothing fresh is known.
    pub fn inlay_hint(&self, uri: &str, now: u128) -> (r: InlayReply)
        requires
            self.wf(),
        ensures
            match (self.content(uri@), self.provider(uri@)) {
                (Some(content), Some(provider)) => {
                    let deps = provider.dependencies(uri@, content);
                    &&& hints_view(r.hints@) == hints_for(
                        provider,
                        deps,
                        content,
                        self.cache,
                        now,
                    )
                    &&& fetches_view(r.fetches@) == missing(provider, deps, self.cache, now)
                },
                _ => r.hints@.len() == 0 && r.fetches@.len() == 0,
            },
    {
        if let Some(content) = self.documents.get(uri) {
            if let Some(found) = self.providers.get_provider(uri) {
                let deps = found.provider.parse_dependencies(uri, content.as_str());
                return InlayReply {
                    hints: hints_of(&found.provider, &deps, content.as_str(), &self.cache, now),
                    fetches: missing_fetches(&found.provider, &deps, &self.cache, now),
                };
            }
        }
        InlayReply { hints: Vec::new(), fetches: Vec::new() }
    }

    /// The lookups that the code actions of a document need; `None` where the
    /// document is not open.
    pub fn plan_code_action(&self, uri: &str) -> (r: Option<Vec<Planned>>)
        requires
            self.wf(),
        ensures
            match self.content(uri@) {
                Some(content) => r is Some && plan_view(r->0@) == (match self.provider(uri@) {
                    Some(provider) => plan(provider, provider.dependencies(uri@, content)),
                    None => seq![],
                }),
                None => r is None,
            },
    {
        match self.documents.get(uri) {
            Some(content) => match self.providers.get_provider(uri) {
                Some(found) => {
                    let deps = found.provider.parse_dependencies(uri, content.as_str());
                    Some(plan_for(&found.provider, &deps))
                },
                None => {
                    let none: Vec<Planned> = Vec::new();
                    assert(plan_view(none@) == Seq::<PlannedView>::empty());
                    Some(none)
                },
            },
            None => None,
        }
    }

    /// The code actions for a line, once the lookups of the plan are made.
    pub fn code_action(&self, plan: &Vec<Planned>, results: &Vec<VersionResult>, line: u32) -> (r:
        Vec<Action>)
        requires
            plan@.len() == results@.len(),
        ensures
            actions_view(r@) == line_updates(
                resolve_all(plan_view(plan@), results_view(results@)),
                self.config.settings.hide_prereleases,
                line,
            ),
    {
        code_actions(plan, results, self.config.hide_prereleases(), line)
    }
}

/// Every dependency gets one hint, in order.
pub proof fn law_one_hint_each(
    provider: &Box<dyn Provider>,
    deps: Seq<DependencyView>,
    content: Seq<char>,
    cache: VersionCache,
    now: u128,
)
    ensures
        hints_for(provider, deps, content, cache, now).len() == deps.len(),
        forall|i: int|
            0 <= i < deps.len() ==> (#[trigger] hints_for(
                provider,
                deps,
                content,
                cache,
                now,
            )[i]).position.line == deps[i].range.start.line,
{
}

/// A package is looked up exactly where its hint says that it is loading.
pub proof fn law_missing_are_loading(
    provider: &Box<dyn Provider>,
    deps: Seq<DependencyView>,
    cache: VersionCache,
    now: u128,
    i: int,
)
    requires
        0 <= i < deps.len(),
    ensures
        missing_at(provider, deps, cache, now)(i) is Some <==> resolve(
            deps[i],
            provider.normal_form(deps[i].constraint),
            cache.answer(cache_key(provider.title(), deps[i].name), now),
        ).status is Loading,
{
}

/// Once a package was looked up, its hint tells what came in, and it is not
/// looked up again while that is fresh.
pub proof fn law_fetched_is_shown(
    provider: &Box<dyn Provider>,
    deps: Seq<DependencyView>,
    before: VersionCache,
    after: VersionCache,
    entry: CacheEntry,
    now: u128,
    i: int,
)
    requires
        0 <= i < deps.len(),
        after.store@ == before.store@.insert(cache_key(provider.title(), deps[i].name), entry),
        is_fresh(entry.inserted_at, after.ttl_ms, now),
    ensures
        missing_at(provider, deps, after, now)(i) is None,
        resolve(
            deps[i],
            provider.normal_form(deps[i].constraint),
            after.answer(cache_key(provider.title(), deps[i].name), now),
        ).status == classify(
            deps[i].constraint,
            provider.normal_form(deps[i].constraint),
            entry.result@,
        ),
{
}

/// Where everything is known, nothing is looked up.
pub proof fn law_nothing_missing(
    provider: &Box<dyn Provider>,
    deps: Seq<DependencyView>,
    cache: VersionCache,
    now: u128,
)
    requires
        forall|i: int|
            0 <= i < deps.len() ==> cache.answer(
                cache_key(provider.title(), (#[trigger] deps[i]).name),
                now,
            ) is Some,
    ensures
        missing(provider, deps, cache, now).len() == 0,
{
    let at = missing_at(provider, deps, cache, now);
    if missing(provider, deps, cache, now).len() > 0 {
        lemma_gather(deps.len() as int, at, 0);
        let i = choose|i: int|
            0 <= i < deps.len() && #[trigger] at(i) == Some(
                missing(provider, deps, cache, now)[0],
            );
        assert(cache.answer(cache_key(provider.title(), deps[i].name), now) is Some);
    }
}

/// Whichever provider reads a document, the range of each dependency covers
/// exactly its constraint there, behind a text that names the package. Which
/// entry that is, the law of each ecosystem says.
pub proof fn law_dependencies_declared(
    settings: SettingsView,
    providers: Seq<Registered>,
    k: int,
    uri: Seq<char>,
    content: Seq<char>,
)
    requires
        providers_for(settings, providers),
        0 <= k < providers.len(),
    ensures
        all_declared(lines(content), providers[k].provider.dependencies(uri, content)),
{
    if k == 0 {
        let p = choose|p: NpmProvider|
            p.registry@ == settings.npm.registry && texts(p.dependency_keys@)
                == settings.npm.dependency_keys && #[trigger] acts_like(&providers[0].provider, p);
        assert(providers[0].provider.dependencies(uri, content) == p.dependencies(uri, content));
        law_package_json_ranges(content, texts(p.dependency_keys@));
    } else if k == 1 {
        let p = choose|p: CargoProvider|
            texts(p.dependency_keys@) == settings.cargo.dependency_keys && #[trigger] acts_like(
                &providers[1].provider,
                p,
            );
        assert(providers[1].provider.dependencies(uri, content) == p.dependencies(uri, content));
        law_cargo_toml_ranges(content, texts(p.dependency_keys@));
    } else if k == 2 {
        let p = PypiProvider {  };
        assert(providers[2].provider.dependencies(uri, content) == p.dependencies(uri, content));
        law_requirements_ranges(content);
        law_pyproject_toml_ranges(content);
    } else if k == 3 {
        let p = ComposerProvider {  };
        assert(providers[3].provider.dependencies(uri, content) == p.dependencies(uri, content));
        law_composer_json_ranges(content);
    } else if k == 4 {
        let p = RubyGemsProvider {  };
        assert(providers[4].provider.dependencies(uri, content) == p.dependencies(uri, content));
        law_gemfile_ranges(content);
    } else {
        let p = choose|p: DenoProvider|
            p.npm_registry@ == settings.npm.registry && #[trigger] acts_like(
                &providers[5].provider,
                p,
            );
        assert(providers[5].provider.dependencies(uri, content) == p.dependencies(uri, content));
        law_deno_config_ranges(content);
    }
}

/// Every code action for a document replaces the constraint of a dependency on
/// the line, at the range of that dependency, which covers exactly its
/// constraint, behind a text that names the package.
pub proof fn law_actions_edit_constraints(
    provider: &Box<dyn Provider>,
    deps: Seq<DependencyView>,
    content: Seq<char>,
    results: Seq<ResultView>,
    hide_prereleases: bool,
    line: u32,
    k: int,
)
    requires
        all_declared(lines(content), deps),
        results.len() == deps.len(),
        0 <= k < line_updates(
            resolve_all(plan(provider, deps), results),
            hide_prereleases,
            line,
        ).len(),
    ensures
        ({
            let action = line_updates(
                resolve_all(plan(provider, deps), results),
                hide_prereleases,
                line,
            )[k];
            exists|i: int, version: Seq<char>|
                0 <= i < deps.len() && (#[trigger] deps[i]).range.start.line == line
                    && action.range == deps[i].range && is_declared(lines(content), deps[i])
                    && action.new_text == #[trigger] replacement(deps[i].constraint, version)
        }),
{
    let resolved = resolve_all(plan(provider, deps), results);
    let action = line_updates(resolved, hide_prereleases, line)[k];
    law_edits_replace_constraints(resolved, hide_prereleases, line, k);
    let (i, version) = choose|i: int, version: Seq<char>|
        0 <= i < resolved.len() && (#[trigger] resolved[i]).parsed.range.start.line == line
            && offers(resolved[i], version) && action.range == resolved[i].parsed.range
            && action.new_text == #[trigger] replacement(resolved[i].parsed.constraint, version);
    assert(resolved[i].parsed == deps[i]);
    assert(deps[i].range.start.line == line);
    assert(action.new_text == replacement(deps[i].constraint, version));
}

/// A name without a colon is told by the key that it begins.
proof fn lemma_key_injective(a: Seq<char>, x: Seq<char>, b: Seq<char>, y: Seq<char>)
    requires
        !a.contains(':'),
        !b.contains(':'),
        cache_key(a, x) == cache_key(b, y),
    ensures
        a == b,
        x == y,
{
    reveal_strlit(":");
    let s = cache_key(a, x);
    assert(s[a.len() as int] == ':');
    assert(cache_key(b, y)[b.len() as int] == ':');
    if a.len() < b.len() {
        assert(b[a.len() as int] == ':');
    } else if b.len() < a.len() {
        assert(a[b.len() as int] == ':');
    }
    assert(a == s.take(a.len() as int));
    assert(b == cache_key(b, y).take(b.len() as int));
    assert(x == s.skip(a.len() as int + 1));
    assert(y == cache_key(b, y).skip(b.len() as int + 1));
}

/// Packages of different ecosystems, and different packages of one, are cached
/// under different keys.
pub proof fn law_keys_tell_packages(
    settings: SettingsView,
    providers: Seq<Registered>,
    i: int,
    x: Seq<char>,
    j: int,
    y: Seq<char>,
)
    requires
        providers_for(settings, providers),
        0 <= i < providers.len(),
        0 <= j < providers.len(),
        cache_key(providers[i].provider.title(), x) == cache_key(
            providers[j].provider.title(),
            y,
        ),
    ensures
        i == j,
        x == y,
{
    reveal_strlit("npm");
    reveal_strlit("cargo");
    reveal_strlit("pypi");
    reveal_strlit("composer");
    reveal_strlit("rubygems");
    reveal_strlit("deno");
    let titles = seq!["npm"@, "cargo"@, "pypi"@, "composer"@, "rubygems"@, "deno"@];
    assert forall|k: int| 0 <= k < providers.len() implies #[trigger] titles[k]
        == providers[k].provider.title() && !titles[k].contains(':') by {
        assert(providers[0].provider.title() == "npm"@);
        assert(providers[1].provider.title() == "cargo"@);
        assert(providers[5].provider.title() == "deno"@);
    }
    lemma_key_injective(titles[i], x, titles[j], y);
    assert("npm"@.len() == 3 && "deno"@.len() == 4 && "cargo"@.len() == 5);
    assert("pypi"@[0] != "deno"@[0]);
    assert("composer"@[0] != "rubygems"@[0]);
}

} // verus!
