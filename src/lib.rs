//! A supervised multi-stream media republisher: a registry of stream records,
//! the decisions of the per-stream remux pipeline, the supervisor that owns
//! the live pipelines, the control loops that heal them, and the thin
//! control-plane adapter in front of them.

pub mod result;
pub mod pipeline;
pub mod ipc;
pub mod publisher;
pub mod my_actor;
pub mod start;
pub mod control;
pub mod util;
pub mod account;
pub mod config;
pub mod service;
