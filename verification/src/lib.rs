//! Core of a live structured-tracing pipeline.
//!
//! Programs emit a stream of callsite, span and event records; a pub/sub
//! broker fans those records out to viewers; each viewer keeps an in-memory
//! index of the trace from which it renders a span tree and a flame graph.
//! This crate holds the wire schema and its binary codec, the broker's
//! routing rules, the trace index, and the flame-graph layout.

pub mod broker;
pub mod codec;
pub mod data;
pub mod event_log;
pub mod flamegraph;
pub mod fmt;
pub mod span_tree;
pub mod viewer;

use vstd::prelude::*;

verus! {

/// Default TCP port of the pub/sub broker.
pub const DEFAULT_PUB_SUB_PORT: u16 = 9002;

/// Default TCP port of the web host that serves the viewer.
pub const DEFAULT_VIEWER_WEB_SERVER_PORT: u16 = 8787;

} // verus!
