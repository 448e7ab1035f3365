//! Time services: the shared time record and the pluggable time drivers.
use vstd::prelude::*;

verus! {

/// Microseconds timestamp.
pub type Timestamp = u64;

/// The scheduler-owned time record, shared (by value) with every app handle.
/// `sch_counter` is the scheduler's tick counter; `time_offset` is the epoch
/// offset adjusted by `SetTimeCmd`.
#[derive(Clone, Copy, PartialEq, Eq, Debug, Structural)]
pub struct TimeData {
    pub sch_counter: u64,
    pub time_offset: Timestamp,
}

/// A source of wall-clock and monotonic time. A driver whose result is a
/// function of the time record exposes it through the two model functions;
/// a driver backed by an outside clock models both as `None` and promises
/// nothing about the values it returns.
pub trait TimeDriver: Sized {
    /// What `get_system_time` returns, where that is determined by `time_data`.
    spec fn system_time_model(&self, time_data: TimeData) -> Option<Timestamp>;

    /// What `get_monotonic_time` returns, where that is determined by `time_data`.
    spec fn monotonic_time_model(&self, time_data: TimeData) -> Option<Timestamp>;

    /// Time in microseconds relative to the system epoch.
    fn get_system_time(&self, time_data: TimeData) -> (r: Timestamp)
        ensures
            self.system_time_model(time_data) matches Some(t) ==> r == t,
    ;

    /// Time in microseconds since program start or power on.
    fn get_monotonic_time(&self, time_data: TimeData) -> (r: Timestamp)
        ensures
            self.monotonic_time_model(time_data) matches Some(t) ==> r == t,
    ;
}

/// The scheduler-derived driver: system time is `sch_counter + time_offset`
/// and monotonic time is `sch_counter` ticks of ten milliseconds, both in
/// microseconds. The fallback when no hardware or host timer is available.
#[derive(Clone, Copy, PartialEq, Eq, Debug, Structural)]
pub struct SchTimeDriver;

impl SchTimeDriver {
    pub fn new() -> (r: SchTimeDriver)
        ensures
            r == SchTimeDriver,
    {
        SchTimeDriver
    }
}

impl TimeDriver for SchTimeDriver {
    open spec fn system_time_model(&self, time_data: TimeData) -> Option<Timestamp> {
        if time_data.sch_counter + time_data.time_offset <= u64::MAX {
            Some((time_data.sch_counter + time_data.time_offset) as u64)
        } else {
            None
        }
    }

    open spec fn monotonic_time_model(&self, time_data: TimeData) -> Option<Timestamp> {
        if time_data.sch_counter * 10000 <= u64::MAX {
            Some((time_data.sch_counter * 10000) as u64)
        } else {
            None
        }
    }

    fn get_system_time(&self, time_data: TimeData) -> (r: Timestamp) {
        time_data.sch_counter.wrapping_add(time_data.time_offset)
    }

    fn get_monotonic_time(&self, time_data: TimeData) -> (r: Timestamp) {
        time_data.sch_counter.wrapping_mul(10000)
    }
}

#[verifier::external_type_specification]
#[verifier::external_body]
pub struct ExInstant(std::time::Instant);

/// The host driver: wall-clock and monotonic time from the operating
/// system's clocks. The time record is ignored.
#[derive(Clone, Copy)]
pub struct UnixTimeDriver {
    start_time: std::time::Instant,
}

impl UnixTimeDriver {
    /// Relies on std::time::Instant::now for the monotonic origin.
    #[verifier::external_body]
    pub fn new() -> UnixTimeDriver {
        UnixTimeDriver { start_time: std::time::Instant::now() }
    }
}

/// Relies on std::time::SystemTime::now: microseconds since the Unix
/// epoch; an environment whose clock sits before the epoch reads zero.
#[verifier::external_body]
fn os_system_time() -> Timestamp {
    std::time::SystemTime::now()
        .duration_since(std::time::SystemTime::UNIX_EPOCH)
        .map(|d| d.as_micros() as Timestamp)
        .unwrap_or(0)
}

/// Relies on std::time::Instant::elapsed: microseconds since `origin`.
#[verifier::external_body]
fn os_monotonic_time(origin: &std::time::Instant) -> Timestamp {
    origin.elapsed().as_micros() as Timestamp
}

impl TimeDriver for UnixTimeDriver {
    open spec fn system_time_model(&self, time_data: TimeData) -> Option<Timestamp> {
        None
    }

    open spec fn monotonic_time_model(&self, time_data: TimeData) -> Option<Timestamp> {
        None
    }

    fn get_system_time(&self, time_data: TimeData) -> (r: Timestamp) {
        os_system_time()
    }

    fn get_monotonic_time(&self, time_data: TimeData) -> (r: Timestamp) {
        os_monotonic_time(&self.start_time)
    }
}

} // verus!
