//! Verified core of the tagnet daemon.

pub mod api;
pub mod bus;
pub mod chunk;
pub mod configuration;
pub mod control;
pub mod database;
pub mod directory_manager;
pub mod fetch;
pub mod file_bytes;
pub mod identity;
pub mod ids;
pub mod path_text;
pub mod paths;
pub mod peer_session;
pub mod persistence;
pub mod pipeline;
pub mod reconcile;
pub mod runtime;
pub mod state;
pub mod table;
pub mod text;
pub mod transfer;
pub mod transport;
pub mod versions;
pub mod watcher;
