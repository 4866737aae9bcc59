//! Verified core of `gx`, a tool that runs git commands across every
//! repository found under a directory tree.
pub mod text;
pub mod color;
pub mod shortcut_map;
pub mod config;
pub mod collect;
pub mod git;
pub mod proxy;
pub mod cli;
pub mod report;
pub mod spinner;
