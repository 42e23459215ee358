//! A small uptime and latency monitor: each configured endpoint is probed on
//! a fixed cadence under a concurrency cap, every probe outcome lands in a
//! bounded per-endpoint history with derived latency deltas, and the whole
//! aggregate is snapshotted to a document that a later run recovers.
//!
//! The engine is split along its seams: [`model`] holds the bounded history
//! and its delta derivation, [`aggregate`] the per-endpoint map and its
//! reconciliation with the configuration, [`checker`] the classification of
//! a probe's response, [`scheduler`] the tick state machine that bounds the
//! fan-out, [`codec`] the snapshot document with its proved round trip, and
//! [`output`] the console line and audit record.  Network calls, timers and
//! file I/O stay with the caller, which hands plain values in and out.

use vstd::prelude::*;

pub mod aggregate;
pub mod checker;
pub mod codec;
pub mod config;
pub mod digits;
pub mod model;
pub mod output;
pub mod scheduler;

verus! {

/// Upper bound on the number of outcomes kept per endpoint.
pub const MAX_HISTORY: usize = 50;

} // verus!
