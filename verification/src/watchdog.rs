//! The hardware watchdog interface the housekeeping app supervises. The
//! real device is supplied by the environment; an absent watchdog is
//! modelled by `Option`.
use vstd::prelude::*;

verus! {

/// A hardware watchdog: enable or disable supervision, set the bite
/// timeout in seconds, and feed it to prove liveness.
pub trait Watchdog: Sized {
    fn enable(&mut self);

    fn disable(&mut self);

    fn set_timeout(&mut self, time: i32);

    fn feed(&mut self);
}

/// An optional watchdog: every operation on an absent device is a no-op.
impl<W: Watchdog> Watchdog for Option<W> {
    fn enable(&mut self) {
        match self {
            Option::Some(wd) => wd.enable(),
            Option::None => {},
        }
    }

    fn disable(&mut self) {
        match self {
            Option::Some(wd) => wd.disable(),
            Option::None => {},
        }
    }

    fn set_timeout(&mut self, time: i32) {
        match self {
            Option::Some(wd) => wd.set_timeout(time),
            Option::None => {},
        }
    }

    fn feed(&mut self) {
        match self {
            Option::Some(wd) => wd.feed(),
            Option::None => {},
        }
    }
}

} // verus!
