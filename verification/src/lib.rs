//! Usage accounting for Codex session logs.

pub mod cache;
pub mod calendar;
pub mod calendar_laws;
pub mod cli;
pub mod collection_laws;
pub mod ordering;
pub mod pricing;
pub mod report;
pub mod session_log;
pub mod text;
pub mod text_laws;
pub mod text_map;
pub mod types;
pub mod usage_laws;

pub use self::session_log::{parser, scanner};
