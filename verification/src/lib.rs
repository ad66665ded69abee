//! Markdown lint rules with verified contracts.

pub mod text;
pub mod types;
pub mod config;
pub mod workspace;
pub mod helpers;
pub mod pattern;
pub mod fix;
pub mod rules;
