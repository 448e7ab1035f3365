//! A compact flight-software bus: cooperatively scheduled apps exchanging
//! typed messages on one in-process bus, with rate-based dispatch,
//! subscription routing, peer subscription sync over connectors, a
//! deterministic wire codec, and the storage and downlink apps built on
//! top. Every function is verified against its contract; calls that reach
//! the operating system's clock or a UTF-8 conversion stand behind narrow
//! trusted declarations.
use vstd::prelude::*;

pub mod codec;
pub mod connector;
pub mod ds;
pub mod example;
pub mod file;
pub mod handle;
pub mod hs;
pub mod infograbber;
pub mod laws;
pub mod msg;
pub mod serial;
pub mod sched;
pub mod time;
pub mod tlm;
pub mod to;
pub mod utils;
pub mod watchdog;

verus! {

/// Scheduler ticks per second: the tick is the ten-millisecond unit every
/// rate and timing rule in the bus is stated over.
pub const TICKS_PER_SECOND: u64 = 100;

} // verus!
