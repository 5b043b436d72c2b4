//! A line-oriented command-script interpreter: a small shell language with
//! variable substitution, quoting, external command invocation, conditional
//! blocks (`if`/`elseif`) and looping blocks (`lock`/`free`/`continue`),
//! driven by a single mutable script cursor.

pub mod builtins;
pub mod config;
pub mod engine;
pub mod errors;
pub mod eval;
pub mod frames;
pub mod numbers;
pub mod resolve;
pub mod status;
pub mod strutil;
pub mod values;
pub mod vars;
pub mod words;
