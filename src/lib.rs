//! Shell alias management: dialect rendering, shell detection and
//! idempotent splicing of a managed block into a shell startup file.
pub mod cli;
pub mod config;
pub mod detect;
pub mod dialect;
pub mod merge;
pub mod shell;
pub mod store;
pub mod text;
