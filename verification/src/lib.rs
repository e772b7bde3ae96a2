//! Telemetry-capture engine for per-process memory sampling on a remote
//! device reached through a debug-bridge command channel.
//!
//! The crate holds the verified core: classification of an external
//! command's captured output, resolution of process, package and property
//! queries over the device's textual listings, a section-aware parser that
//! turns a free-form memory report into a structured sample, and the
//! state machine that drives a background capture loop.  All device I/O
//! (spawning the bridge command, sleeping, publishing samples) lives in
//! the surrounding application, which hands this crate plain text and
//! receives plain values back.

pub mod capture;
pub mod command;
pub mod laws;
pub mod pss;
pub mod query;
pub mod text;
