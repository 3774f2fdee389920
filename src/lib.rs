//! A plugin manager for tmux: plugin declarations are parsed out of the tmux
//! configuration, resolved into plugins with a local path, and the decisions of
//! the install, update, clean and load actions are made here on plain values.

pub mod action;
pub mod action_result;
pub mod actions;
pub mod args;
pub mod attribute;
pub mod key_bindings;
pub mod loader;
pub mod orchestrator;
pub mod plugin;
pub mod plugin_spec;
pub mod plugins;
pub mod prefix_lines;
pub mod repo_url;
pub mod source_path;
pub mod text;
pub mod tmux;
pub mod tmux_config_parser;
pub mod truncate_ellipsis;
pub mod utils;
