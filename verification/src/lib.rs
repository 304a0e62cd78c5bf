//! Verified core of the ez workspace and session manager.
pub mod browser;
pub mod cli;
pub mod config;
pub mod daemon;
pub mod error;
pub mod labels;
pub mod paths;
pub mod plugin;
pub mod recency;
pub mod repo;
pub mod search;
pub mod session;
pub mod shell;
pub mod text;
