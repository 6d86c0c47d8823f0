//! Verified core of `lagent`, a `systemctl`-style manager for macOS LaunchAgents.
pub mod agent;
pub mod commands;
pub mod launchctl;
pub mod plist_doc;
pub mod scope;
pub mod state;
pub mod text;
pub mod validate;
