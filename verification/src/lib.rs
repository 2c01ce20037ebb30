//! A remote-execution daemon core: framed wire transport, sealed envelopes,
//! connection lifecycle, process management, and LSP stream reframing.

pub mod auth;
pub mod config;
pub mod connection;
pub mod frame;
pub mod idmap;
pub mod keychain;
pub mod lsp;
pub mod manager;
pub mod process;
pub mod rewrite;
pub mod select;
pub mod server;
pub mod transport;
