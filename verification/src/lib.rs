//! Event ingestion and synchronization pipeline for local AI coding-agent
//! activity: transcript and feature-list parsing, completion reconciliation,
//! a bounded broadcast bus, an in-memory cache that backs the read APIs, and
//! the decision logic of the HTTP ingestion boundary.

pub mod bus;
pub mod cache;
pub mod json;
pub mod mirror;
pub mod model;
pub mod projects;
pub mod reconcile;
pub mod server;
pub mod text;
pub mod transcript;
pub mod watch;
