//! Manifest-driven syncing of agentic assets: the verified core.
pub mod text;
pub mod order;
pub mod error;
pub mod github_url;
pub mod paths;
pub mod manifest;
pub mod sources;
pub mod lockfile;
pub mod catalog;
pub mod discover;
pub mod checksum;
pub mod hooks;
pub mod install;
pub mod compose;
pub mod orphan;
pub mod sync_output;
pub mod cli;
pub mod commands;
