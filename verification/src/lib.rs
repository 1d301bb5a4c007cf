//! A verified core for a caching, failover JSON-RPC reverse proxy.
//!
//! The library models JSON values, requests and responses, the cache policy,
//! the bounded TTL store with its single-flight registry, the per-backend
//! health state machine, and the dispatch decisions of the upstream manager.
//! HTTP, timers and task plumbing live outside the library.

pub mod cache;
pub mod config;
pub mod error;
pub mod handler;
pub mod health;
pub mod json;
pub mod jsonrpc;
pub mod num;
pub mod upstream;
