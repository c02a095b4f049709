//! ark: schema-driven management of markdown artifacts with YAML frontmatter.
pub mod text;
pub mod value;
pub mod schema;
pub mod error;
pub mod sort;
pub mod artifact;
pub mod validate;
pub mod output;
pub mod cli;
pub mod hooks;
pub mod pattern;
pub mod json;
pub mod lock;
pub mod discover;
pub mod commands;
pub mod laws;
pub mod command_laws;
