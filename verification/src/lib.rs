//! Version hints for the dependencies declared in package manifests.
pub mod backend;
pub mod cache;
pub mod config;
pub mod document;
pub mod extension;
pub mod listing;
pub mod locate;
pub mod order;
pub mod outline;
pub mod providers;
pub mod ranking;
pub mod semver_utils;
pub mod table;
pub mod text;
pub mod version;
pub mod version_utils;
