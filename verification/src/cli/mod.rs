//! What the command line tool decides, and what it writes.

pub mod command_laws;
pub mod commands;
pub mod json;
pub mod laws;
pub mod listing;
pub mod paths;
pub mod report;
pub mod select;
pub mod shell;
