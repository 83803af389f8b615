//! Core logic of a git-wrapping command-line front end: a fuzzy subcommand
//! resolver built on Levenshtein distance, and a conventional-commit message
//! formatter driven by a plain configuration value.
//!
//! Both components are total, pure functions of their inputs: the resolver
//! always returns a best-effort match with its distance, and the formatter
//! falls back to returning the message unchanged rather than failing.

pub mod chars;
pub mod commands;
pub mod distance;
pub mod formatter;
pub mod resolver;
