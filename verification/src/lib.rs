//! Verified core of a satellite-signal time server: channel allocation,
//! TLE text handling, the WebSocket telemetry framing, and the decision
//! logic that drives tracking, fallback and clock steering.
pub mod allocator;
pub mod control;
pub mod dashboard;
pub mod decimation;
pub mod display;
pub mod fields;
pub mod numeric;
pub mod pass_file;
pub mod spectrum;
pub mod text;
pub mod tle;
pub mod websocket;

use vstd::prelude::*;

verus! {

} // verus!
