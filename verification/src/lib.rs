//! Core of a real-time network-latency monitor: per-target statistics over a
//! stream of probe outcomes, probe-worker decision logic, and deterministic
//! replay of recorded probe sessions.

pub mod digest;
pub mod ping;
pub mod replay;
pub mod samples;
pub mod sorting;
pub mod stats;
pub mod summary;
pub mod target;
pub mod text;
pub mod view;
