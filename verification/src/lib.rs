//! An agent toolkit: conversation model, provider wire formats, retry policy,
//! agent loop, client framing and model derivation, with machine-checked
//! contracts.

pub mod agent;
pub mod agent_cx;
pub mod agent_run;
pub mod cache;
pub mod client;
pub mod codegen;
pub mod collections;
pub mod context;
pub mod control;
pub mod error;
pub mod json;
pub mod llm;
pub mod loop_event;
pub mod mcp;
pub mod message;
pub mod provider;
pub mod retry;
pub mod skill;
pub mod step;
pub mod text;
pub mod tool;
pub mod usage;
pub mod views;
