//! The decisions of an MCP server for a rooted Android device.

pub mod builtins;
pub mod json;
pub mod manifest;
pub mod mcp;
pub mod params;
pub mod plugin;
pub mod policy;
pub mod registry;
pub mod server;
pub mod shell;
pub mod table;
pub mod text;
pub mod tools;
pub mod transport;
