//! The protocol-independent part: actions, identities, policies and the
//! records that leave the engine.

pub mod action;
pub mod audit;
pub mod connector;
pub mod health;
pub mod identity;
pub mod metrics;
pub mod net;
pub mod policy;
pub mod text;
pub mod time;
pub mod tls;
pub mod upstream_pool;
