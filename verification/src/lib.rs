//! Core of a live-audio relay: a streamer mixes two sample sources,
//! quantizes and compresses batches into wire messages, and a relay fans
//! them out to listeners over a bounded broadcast bus with slow-consumer
//! eviction and supervised teardown.

use vstd::prelude::*;

pub mod bus;
pub mod codec;
pub mod config;
pub mod mixer;
pub mod playback;
pub mod relay;
pub mod sample;
pub mod status;
pub mod streamer;
pub mod wire;

verus! {

/// Shared state handed to the HTTP routing layer; the relay keeps none.
#[derive(Debug, Clone, Copy)]
pub struct AppState {}

} // verus!
