//! Settings.
use vstd::prelude::*;
use crate::text::chars::{copied_all, owned, texts};

verus! {

/// Settings of the user.
#[derive(Debug)]
pub struct Settings {
    pub hide_prereleases: bool,
    pub log_level: String,
    pub cache_ttl_secs: u64,
    pub npm: NpmSettings,
    pub cargo: CargoSettings,
}

/// Settings for npm.
#[derive(Debug)]
pub struct NpmSettings {
    pub registry: String,
    pub dependency_keys: Vec<String>,
}

/// Settings for Cargo.
#[derive(Debug)]
pub struct CargoSettings {
    pub dependency_keys: Vec<String>,
}

/// Settings as a mathematical value.
pub struct SettingsView {
    pub hide_prereleases: bool,
    pub log_level: Seq<char>,
    pub cache_ttl_secs: u64,
    pub npm: NpmSettingsView,
    pub cargo: CargoSettingsView,
}

/// Settings for npm as a mathematical value.
pub struct NpmSettingsView {
    pub registry: Seq<char>,
    pub dependency_keys: Seq<Seq<char>>,
}

/// Settings for Cargo as a mathematical value.
pub struct CargoSettingsView {
    pub dependency_keys: Seq<Seq<char>>,
}

impl View for NpmSettings {
    type V = NpmSettingsView;

    open spec fn view(&self) -> NpmSettingsView {
        NpmSettingsView {
            registry: self.registry@,
            dependency_keys: texts(self.dependency_keys@),
        }
    }
}

impl View for CargoSettings {
    type V = CargoSettingsView;

    open spec fn view(&self) -> CargoSettingsView {
        CargoSettingsView { dependency_keys: texts(self.dependency_keys@) }
    }
}

impl View for Settings {
    type V = SettingsView;

    open spec fn view(&self) -> SettingsView {
        SettingsView {
            hide_prereleases: self.hide_prereleases,
            log_level: self.log_level@,
            cache_ttl_secs: self.cache_ttl_secs,
            npm: self.npm@,
            cargo: self.cargo@,
        }
    }
}

/// The tables of a `package.json` that are read by default.
pub open spec fn npm_keys() -> Seq<Seq<char>> {
    seq!["dependencies"@, "devDependencies"@, "peerDependencies"@, "optionalDependencies"@]
}

/// The tables of a `Cargo.toml` that are read by default.
pub open spec fn cargo_keys() -> Seq<Seq<char>> {
    seq!["dependencies"@, "dev-dependencies"@, "build-dependencies"@, "workspace.dependencies"@]
}

/// The default settings.
pub open spec fn default_settings() -> SettingsView {
    SettingsView {
        hide_prereleases: false,
        log_level: "error"@,
        cache_ttl_secs: 300,
        npm: NpmSettingsView {
            registry: "https://registry.npmjs.org"@,
            dependency_keys: npm_keys(),
        },
        cargo: CargoSettingsView { dependency_keys: cargo_keys() },
    }
}

/// The default log level.
pub fn default_log_level() -> (r: String)
    ensures
        r@ == "error"@,
{
    owned("error")
}

/// The default lifetime of cached results, in seconds.
pub fn default_cache_ttl_secs() -> (r: u64)
    ensures
        r == 300,
{
    300
}

/// The default npm registry.
pub fn default_npm_registry() -> (r: String)
    ensures
        r@ == "https://registry.npmjs.org"@,
{
    owned("https://registry.npmjs.org")
}

/// Four strings in a list.
fn list_of(a: &str, b: &str, c: &str, d: &str) -> (r: Vec<String>)
    ensures
        texts(r@) == seq![a@, b@, c@, d@],
{
    let mut out: Vec<String> = Vec::new();
    out.push(owned(a));
    out.push(owned(b));
    out.push(owned(c));
    out.push(owned(d));
    assert(texts(out@) == seq![a@, b@, c@, d@]);
    out
}

/// The tables of a `package.json` that are read by default.
pub fn default_npm_dependency_keys() -> (r: Vec<String>)
    ensures
        texts(r@) == npm_keys(),
{
    list_of("dependencies", "devDependencies", "peerDependencies", "optionalDependencies")
}

/// The tables of a `Cargo.toml` that are read by default.
pub fn default_cargo_dependency_keys() -> (r: Vec<String>)
    ensures
        texts(r@) == cargo_keys(),
{
    list_of("dependencies", "dev-dependencies", "build-dependencies", "workspace.dependencies")
}

impl Default for Settings {
    fn default() -> (r: Self)
        ensures
            r@ == default_settings(),
    {
        Settings {
            hide_prereleases: false,
            log_level: default_log_level(),
            cache_ttl_secs: default_cache_ttl_secs(),
            npm: NpmSettings::default(),
            cargo: CargoSettings::default(),
        }
    }
}

impl Default for NpmSettings {
    fn default() -> (r: Self)
        ensures
            r@ == default_settings().npm,
    {
        NpmSettings {
            registry: default_npm_registry(),
            dependency_keys: default_npm_dependency_keys(),
        }
    }
}

impl Default for CargoSettings {
    fn default() -> (r: Self)
        ensures
            r@ == default_settings().cargo,
    {
        CargoSettings { dependency_keys: default_cargo_dependency_keys() }
    }
}

impl Clone for NpmSettings {
    fn clone(&self) -> (r: Self)
        ensures
            r@ == self@,
    {
        NpmSettings {
            registry: self.registry.clone(),
            dependency_keys: copied_all(&self.dependency_keys),
        }
    }
}

impl Clone for CargoSettings {
    fn clone(&self) -> (r: Self)
        ensures
            r@ == self@,
    {
        CargoSettings { dependency_keys: copied_all(&self.dependency_keys) }
    }
}

impl Clone for Settings {
    fn clone(&self) -> (r: Self)
        ensures
            r@ == self@,
    {
        Settings {
            hide_prereleases: self.hide_prereleases,
            log_level: self.log_level.clone(),
            cache_ttl_secs: self.cache_ttl_secs,
            npm: self.npm.clone(),
            cargo: self.cargo.clone(),
        }
    }
}

/// The configuration in force.
#[derive(Debug)]
pub struct ConfigManager {
    pub settings: Settings,
}

impl ConfigManager {
    /// The default configuration.
    pub fn new() -> (r: Self)
        ensures
            r.settings@ == default_settings(),
    {
        ConfigManager { settings: Settings::default() }
    }

    /// Whether prereleases are hidden.
    pub fn hide_prereleases(&self) -> (r: bool)
        ensures
            r == self.settings.hide_prereleases,
    {
        self.settings.hide_prereleases
    }

    /// Puts new settings in force.
    pub fn update_settings(&mut self, new_settings: Settings)
        ensures
            final(self).settings == new_settings,
    {
        self.settings = new_settings;
    }
}

/// Which tables are read by default: of a `package.json` those for what a package
/// needs, for its development, for its peers and for what is optional; of a
/// `Cargo.toml` those for what a crate needs, for its development, for its build and
/// for its workspace.
pub proof fn law_default_tables(key: Seq<char>)
    ensures
        default_settings().npm.dependency_keys.contains(key) <==> (key == "dependencies"@ || key
            == "devDependencies"@ || key == "peerDependencies"@ || key
            == "optionalDependencies"@),
        default_settings().cargo.dependency_keys.contains(key) <==> (key == "dependencies"@ || key
            == "dev-dependencies"@ || key == "build-dependencies"@ || key
            == "workspace.dependencies"@),
        default_settings().npm.dependency_keys.len() == 4,
        default_settings().cargo.dependency_keys.len() == 4,
        !default_settings().hide_prereleases,
{
    let npm = npm_keys();
    let cargo = cargo_keys();
    assert(npm[0] == "dependencies"@ && npm[1] == "devDependencies"@ && npm[2]
        == "peerDependencies"@ && npm[3] == "optionalDependencies"@);
    assert(cargo[0] == "dependencies"@ && cargo[1] == "dev-dependencies"@ && cargo[2]
        == "build-dependencies"@ && cargo[3] == "workspace.dependencies"@);
}

} // verus!
