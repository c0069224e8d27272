//! A natural-language calculator: a line-oriented evaluation pipeline that
//! tokenizes text with configurable regular expressions, rewrites token
//! sequences through a fixed-point rule engine, parses the result with a
//! small precedence parser, and interprets the typed syntax tree over exact
//! rational arithmetic, money, times, dates and durations.

pub mod rat;
pub mod datetime;
pub mod types;
pub mod ui_token;
pub mod executer;
pub mod syntax;
pub mod regexw;
pub mod config;
pub mod compiler;
pub mod rules;
pub mod tokinizer;
pub mod laws;

pub use rat::Rat;
