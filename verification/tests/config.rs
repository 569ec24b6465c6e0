//! Settings.
use update_versions_lsp::config::{ConfigManager, Settings};

#[test]
fn test_default_settings() {
    let settings = Settings::default();
    assert!(!settings.hide_prereleases);
    assert_eq!(settings.log_level, "error");
    assert_eq!(settings.cache_ttl_secs, 300);
    assert_eq!(settings.npm.registry, "https://registry.npmjs.org");
    assert_eq!(settings.npm.dependency_keys.len(), 4);
    assert_eq!(settings.cargo.dependency_keys.len(), 4);
}

#[test]
fn test_config_manager_update_settings() {
    let mut config = ConfigManager::new();
    assert!(!config.hide_prereleases());

    let new_settings = Settings {
        hide_prereleases: true,
        ..Settings::default()
    };
    config.update_settings(new_settings);

    assert!(config.hide_prereleases());
}
