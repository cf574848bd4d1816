//! Shared, platform-neutral protocol primitives for Multi-Desktop clients and hosts,
//! together with the host-side decision logic of the control plane.
pub mod agent;
pub mod client;
pub mod config;
pub mod control;
pub mod input;
pub mod number;
pub mod pairing;
pub mod protocol;
pub mod session;
pub mod text;
pub mod tls;
pub mod transport;
