//! Compact JSONL event trails: the event envelope, its validation, derived
//! indexes, filters and agent-ready repair prompts.

pub mod text;
pub mod json;
pub mod event;
pub mod index;
pub mod repair;
pub mod cli;
pub mod redact;
pub mod command;
