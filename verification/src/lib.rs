//! Verified core of herdr's project picker, secret requests, Codex thread
//! renaming, Codex context usage, plugin status and tab bar layout.
use vstd::prelude::*;

pub mod text;
pub mod sorting;
pub mod paths;
pub mod env_file;
pub mod secrets;
pub mod codex_usage;
pub mod plugin_status;
pub mod json;
pub mod projects;
pub mod codex;
pub mod cli;
pub mod layout;
pub mod width;
pub mod tabs;

verus! {
} // verus!
