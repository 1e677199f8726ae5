//! Core of a local-first media-collection tracker: the collection data model,
//! the last-writer-wins merge engine used to synchronize replicas over a local
//! network, the peer registry fed by service-discovery events, the sync-server
//! state machine, and user-account management.
//!
//! All network, file and timer work lives outside this crate; the functions
//! here take plain values (snapshots, events, timestamps) and return plain
//! values, with contracts that pin their behaviour down.

pub mod auth;
pub mod database;
pub mod laws;
pub mod merge;
pub mod models;
pub mod registry;
pub mod sync;
pub mod trusted;
