//! Callback plugins for playbook execution events: configuration, plugin
//! factory, plugin manager and the built-in output plugins.
pub mod text;
pub mod table;
pub mod types;
pub mod config;
pub mod environment;
pub mod factory;
pub mod style;
pub mod diff;
pub mod manager;
pub mod plugins;
