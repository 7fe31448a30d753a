use vstd::prelude::*;

pub mod call_fingerprint;
pub mod circuit_breaker;
pub mod decision_log;
pub mod fleet;
pub mod goal_loop;
pub mod hooks;
pub mod http_error;
pub mod issue_monitor;
pub mod json;
pub mod llm_client;
pub mod loop_guard;
pub mod lsp;
pub mod mcp;
pub mod memory;
pub mod mcp_server;
pub mod memory_service;
pub mod memory_stats;
pub mod stream_resume;
pub mod text;
