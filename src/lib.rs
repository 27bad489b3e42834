//! Prompt rendering support: fitting rendered prompts and their arguments into
//! a model's token budget, and the configuration, host and template rules
//! around it.
//!
//! The budget engine lives in `encoding` (token spans of a text), `args`
//! (argument values), `trim` (removing tokens from values and spreading a
//! budget over named arguments) and `context` (options, whole-text truncation
//! and the decision for a rendered prompt).

pub mod args;
pub mod chat_template;
pub mod context;
pub mod encoding;
pub mod error;
pub mod hosts;
pub mod image;
pub mod model;
pub mod ollama;
pub mod openai;
pub mod option;
pub mod requests;
pub mod template;
pub mod text;
pub mod together;
pub mod trim;
