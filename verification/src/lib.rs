//! Registry of MCP server integrations: parsing of the command-line tool's
//! text output, the sidecar configuration file, and their reconciliation.

pub mod command;
pub mod config;
pub mod detail;
pub mod foreign;
pub mod json;
pub mod list;
pub mod model;
pub mod reconcile;
pub mod text;
