//! Directory-scoped command aliases.
//!
//! One configuration maps directories to tables of aliases; an alias invoked
//! inside (or below) a configured directory runs the command that the table
//! of that directory gives it. This crate holds the rules: how a directory
//! is matched, how a table is edited, what is run and in which order. It
//! opens no file and starts no process: it tells its host what to do next,
//! step by step, and is told what came of it.

pub mod alias;
pub mod args;
pub mod assoc;
pub mod config;
pub mod error;
pub mod invoke;
pub mod parser;
pub mod path;
pub mod plan;
pub mod resolver;
pub mod script;
pub mod session;
pub mod text;
pub mod utils;

pub use alias::{crud, get_cmd_str, list_entries};
pub use invoke::{run_cmd, start_editor};
pub use resolver::resolve;
pub use session::run;
