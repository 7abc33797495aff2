//! The native side of the Hermes desktop app: the parsing of the chat stream,
//! the session cache and list, the kanban command line, the agent's configuration,
//! profiles and home directory, and the installation check.
pub mod common;
pub mod config;
pub mod hermes;
pub mod json;
pub mod kanban;
pub mod models;
pub mod profiles;
pub mod sessions;
pub mod sse;
pub mod ssh_tunnel;
pub mod text;
