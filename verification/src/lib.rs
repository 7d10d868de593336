use vstd::prelude::*;

pub mod model;
pub mod permissions;
pub mod context;
pub mod edit;
pub mod interval;
pub mod text;
pub mod tokens;
pub mod tools;
pub mod checker;
pub mod selfupdate;
pub mod ollama;
pub mod terminal;
pub mod paths;
pub mod prompt;
pub mod memory;
pub mod json;
pub mod repair;
pub mod stream;
pub mod config;
pub mod lsp;
pub mod positions;
pub mod transport;
pub mod session;
pub mod provider_factory;
pub mod uri;
pub mod trust;
pub mod state;
pub mod skills;
pub mod tool_defs;
pub mod agent;
pub mod wire;
pub mod task;
pub mod repl;
pub mod lsp_tool;
pub mod lsp_state;
pub mod registry;
pub mod mcp;

verus! {

} // verus!
