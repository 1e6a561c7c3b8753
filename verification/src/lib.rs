//! The decisions of a terminal coding agent, stated and proved.

pub mod app;
pub mod apply_patch;
pub mod bash;
pub mod cells;
pub mod draw;
pub mod file_search;
pub mod grep;
pub mod history;
pub mod input;
pub mod list_dir;
pub mod login;
pub mod mcp;
pub mod oauth;
pub mod patch_grammar;
pub mod paths;
pub mod picker;
pub mod provider;
pub mod plan;
pub mod plugin_api;
pub mod prompt;
pub mod protocol;
pub mod scroll;
pub mod selection;
pub mod slash;
pub mod style;
pub mod support;
pub mod text;
pub mod tool;
pub mod transcript;
pub mod wire;
pub mod workspace;
pub mod write_file;
