//! The rules of the command-line tool: what its words mean, what it decides, what it prints.

pub mod arguments;
pub mod bench;
pub mod create;
pub mod discovery;
pub mod file_info;
pub mod inspect;
pub mod metadata;
pub mod mutate;
pub mod operation_summary;
pub mod output;
pub mod query;
pub mod selectors;
pub mod targets;
pub mod tokens;
pub mod transfer;
