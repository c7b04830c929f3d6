//! Session logs: finding them, reading them, and what they tell of token usage.

pub mod file_laws;
pub mod fork;
pub mod fork_laws;
pub mod laws;
pub mod line_laws;
pub mod log_laws;
pub mod manifest;
pub mod parent_laws;
pub mod parents;
pub mod parser;
pub mod scan_laws;
pub mod scanner;
pub mod wire;
pub mod wire_laws;
