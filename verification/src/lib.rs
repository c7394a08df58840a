//! Watches a set of independently-rooted directory trees ("locations") and
//! reconciles the raw, platform-specific filesystem notifications they produce
//! into one canonical event stream (create / update / rename / delete).
//!
//! The correlation logic that turns ambiguous native signals into unambiguous
//! logical events is verified: each platform handler is a pure state machine
//! over plain values, with contracts describing exactly which events it emits
//! and how its pending-correlation state evolves.

pub mod correlation;
pub mod event;
pub mod handler;
pub mod hashing;
pub mod ingest;
pub mod jobs;
pub mod keyring;
pub mod linux;
pub mod macos;
pub mod manager;
pub mod primitives;
pub mod protected;
pub mod rng;
pub mod watcher;
pub mod windows;
