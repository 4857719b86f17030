//! In-memory snapshot cache and watch dispatcher for an xDS control plane.
//!
//! `cache::CacheState` holds each node's snapshot and pending watches; its
//! operations decide, under contracts proved here, which requests are answered at
//! once and which watches a new snapshot discharges. Sending on the responder
//! channels and the lock around the state belong to the caller.
pub mod cache;
pub mod discovery;
pub mod keys;
pub mod known;
pub mod laws;
pub mod response;
pub mod snapshot;
pub mod text;
pub mod type_url;
pub mod watch;
