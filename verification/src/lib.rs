//! Verified core of a fertiliser spreader monitor: ring buffers of wheel
//! and roller signal timestamps, the simulated signal source, and the
//! decisions of the settings web handlers.
use vstd::prelude::*;

pub mod fake_signals;
pub mod ring_buffer;
pub mod web_handler;

verus! {
}
