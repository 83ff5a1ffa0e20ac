//! The core of a microservice API gateway that fronts RPC services behind
//! a registry: a sharded token-bucket rate limiter whose per-route table is
//! rebuilt from live-pushed configuration, a service-discovery view that
//! turns registry events into diffed instance snapshots, client-side load
//! balancing (weighted random and consistent hashing) over the discovered
//! instances, and the request pipeline's decisions around them.
//!
//! Everything here is verified. The HTTP server, the RPC transport and the
//! registry sessions are external collaborators: they feed the library
//! plain values and carry its decisions out.

pub mod app_config;
pub mod controller;
pub mod hashing;
pub mod keyed;
pub mod laws;
pub mod load_balance;
pub mod memory_rate_limiter;
pub mod nacos;
pub mod random;
pub mod rate_limiter;
pub mod route_pattern;
pub mod svc_discover;
pub mod text;
