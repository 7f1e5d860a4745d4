//! A policy engine for an inline directory-service proxy: it recognizes the
//! account-affecting requests of a client, decides whether each one may
//! reach the real directory, and builds the answer a refused client sees.

pub mod builder;
pub mod config;
pub mod connector;
pub mod engine;
pub mod error;
pub mod process;
pub mod proxy;
