//! The resource probe the housekeeping app samples. The real probe is
//! supplied by the environment; the stub serves targets without one.
use vstd::prelude::*;

verus! {

/// A probe of machine resources: per-core CPU load, memory and filesystem
/// usage in percent, and component temperatures in degrees.
pub trait SystemInfoGrabber: Sized {
    fn check_cpu_usage(&mut self) -> Vec<u8>;

    fn check_mem_usage(&mut self) -> u8;

    fn check_fs_usage(&mut self) -> Vec<u8>;

    fn check_temps(&mut self) -> Vec<i8>;
}

/// The probe-less stub: no cores, no disks, no temperatures, and a memory
/// reading pinned at the sentinel value.
pub struct StubSystemInfoGrabber;

impl StubSystemInfoGrabber {
    pub fn new() -> (r: StubSystemInfoGrabber)
        ensures
            r == StubSystemInfoGrabber,
    {
        StubSystemInfoGrabber
    }
}

impl SystemInfoGrabber for StubSystemInfoGrabber {
    fn check_cpu_usage(&mut self) -> Vec<u8> {
        Vec::new()
    }

    fn check_mem_usage(&mut self) -> u8 {
        255
    }

    fn check_fs_usage(&mut self) -> Vec<u8> {
        Vec::new()
    }

    fn check_temps(&mut self) -> Vec<i8> {
        Vec::new()
    }
}

} // verus!
