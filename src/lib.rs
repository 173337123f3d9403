//! A managed external-endpoint session engine: framing codecs for byte
//! streams, a registry of sessions keyed by identifier, and the decision
//! logic of the language-server, debug-adapter, terminal and background
//! command sessions that are built on them, with the records and rules of
//! the editor commands around them.
pub mod framing;
pub mod registry;
pub mod session;
pub mod lsp;
pub mod dap;
pub mod background;
pub mod agent;
pub mod git;
pub mod files;
mod text;
