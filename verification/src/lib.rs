//! An agent driver that connects any model behind an OpenAI-compatible
//! endpoint to any set of MCP servers.
//!
//! The library holds the decisions: which tools a model is offered and under
//! which names, what is asked next, what is logged, and how logs become reports
//! and transcripts. It does no input and output of its own.

pub mod agent;
pub mod clock;
pub mod config;
pub mod events;
pub mod filter;
pub mod globs;
pub mod json;
pub mod mcp;
pub mod openai;
pub mod prompt;
pub mod registry;
pub mod report;
pub mod run;
pub mod serve;
pub mod slugs;
pub mod text;
pub mod thinking;
pub mod tools;
pub mod transcripts;
