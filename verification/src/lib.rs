//! Per-session provider routing for a local model proxy.
//!
//! The library keeps two tables: the sessions discovered from incoming
//! requests, and the provider overrides that a user pinned on some of them.
//! A request is routed to its session's override when there is one, and to the
//! globally selected provider otherwise. Overrides are also kept in a
//! persisted record so that they survive a restart.

pub mod text;
pub mod json;
pub mod table;
pub mod session;
pub mod clock;
pub mod router;
pub mod laws;
pub mod session_files;
