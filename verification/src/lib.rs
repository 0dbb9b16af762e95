//! Core logic of a terminal coding agent, with its behaviour stated in contracts.

pub mod text;
pub mod diff;
pub mod truncate;
pub mod token_est;
pub mod sse;
pub mod ext_store;
pub mod hooks;
pub mod extension;
pub mod prompt;
pub mod skills;
pub mod context;
pub mod runtime;
pub mod markdown;
pub mod cli;
pub mod auth;
pub mod config;
pub mod subcommands;
pub mod version;
pub mod tools;
pub mod paths;
pub mod lsp;
pub mod completion_item_kind;
pub mod rpc;
pub mod session;
pub mod edit;
pub mod read;
pub mod agent_loop;
pub mod laws;
pub mod fileref;
pub mod json_text;
pub mod json;
pub mod message;
pub mod transform;
pub mod requests;
pub mod drivers;
pub mod llm_stream;
pub mod tool_registry;
pub mod tool_output;
pub mod search;
pub mod compaction;
pub mod conversation;
pub mod export;
pub mod oauth;
pub mod launch;
pub mod session_log;
