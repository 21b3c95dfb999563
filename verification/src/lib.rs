//! Verified core of the quas-wex-exort MCP plugin.
pub mod config;
pub mod mcp;
pub mod text;
