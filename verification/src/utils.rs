//! Small utilities: callback performance instrumentation and the
//! manual/auto supervisory toggle.
use crate::handle::Rfe;
use crate::time::{TimeDriver, Timestamp};
use vstd::prelude::*;
use vstd::std_specs::cmp::PartialEqSpec;

verus! {

/// Timing instrumentation of a periodic callback: when it was last entered,
/// how long the last pass took, and the distance between the last two
/// entries, all in microseconds.
#[derive(Clone, Copy, PartialEq, Eq, Hash, Debug, Structural)]
pub struct PerfData {
    pub enter_time: Timestamp,
    pub elapsed: u32,
    pub rate: u32,
}

/// The distance between two monotonic readings, wrapped to sixty-four bits
/// and truncated to a thirty-two bit reading.
pub open spec fn reading_distance(from: u64, to: u64) -> u32 {
    (((to - from) % 0x10000000000000000) % 0x100000000) as u32
}

impl PerfData {
    pub fn new<D: TimeDriver + Copy>(rfe: &Rfe<D>) -> (r: PerfData)
        ensures
            r.elapsed == 0,
            r.rate == 0,
            rfe.driver().monotonic_time_model(rfe.time()) matches Some(t) ==> r.enter_time == t,
    {
        PerfData { enter_time: rfe.get_met_time(), elapsed: 0, rate: 0 }
    }

    /// Record entry into a callback: the entry time becomes the clock
    /// reading just drawn, and the distance to the previous entry becomes
    /// the rate reading.
    pub fn enter<D: TimeDriver + Copy>(&mut self, rfe: &Rfe<D>)
        ensures
            final(self).elapsed == old(self).elapsed,
            final(self).rate == reading_distance(old(self).enter_time, final(self).enter_time),
            rfe.driver().monotonic_time_model(rfe.time()) matches Some(t) ==> final(self).enter_time
                == t,
    {
        let time = rfe.get_met_time();
        let wrapped = time.wrapping_sub(self.enter_time);
        proof {
            assert(wrapped == (time - self.enter_time) % 0x10000000000000000);
        }
        self.rate = (wrapped % 0x100000000) as u32;
        proof {
            assert(self.rate == reading_distance(old(self).enter_time, time));
        }
        self.enter_time = time;
    }

    /// Record exit from a callback: the distance from the entry to the
    /// clock reading just drawn becomes the elapsed reading.
    pub fn exit<D: TimeDriver + Copy>(&mut self, rfe: &Rfe<D>)
        ensures
            final(self).enter_time == old(self).enter_time,
            final(self).rate == old(self).rate,
            rfe.driver().monotonic_time_model(rfe.time()) matches Some(t) ==> final(self).elapsed
                == reading_distance(old(self).enter_time, t),
    {
        let time = rfe.get_met_time();
        let wrapped = time.wrapping_sub(self.enter_time);
        proof {
            assert(wrapped == (time - self.enter_time) % 0x10000000000000000);
        }
        self.elapsed = (wrapped % 0x100000000) as u32;
        proof {
            assert(self.elapsed == reading_distance(old(self).enter_time, time));
        }
    }
}

/// A supervisory toggle holding an auto-computed value and a manual
/// override, plus a one-shot "effective value changed" latch.
pub struct ManualAuto<T: Clone + PartialEq> {
    value_auto: T,
    value_manual: T,
    is_manual: bool,
    has_changed: bool,
}

impl<T: Clone + PartialEq> ManualAuto<T> {
    /// The auto-computed value.
    pub closed spec fn auto_val(&self) -> T {
        self.value_auto
    }

    /// The manually overridden value.
    pub closed spec fn manual_val(&self) -> T {
        self.value_manual
    }

    /// Whether the manual override is active.
    pub closed spec fn manual_flag(&self) -> bool {
        self.is_manual
    }

    /// The latched "effective value changed since last read" flag.
    pub closed spec fn changed_flag(&self) -> bool {
        self.has_changed
    }

    /// The effective value: the manual one iff the override is active.
    pub open spec fn effective(&self) -> T {
        if self.manual_flag() {
            self.manual_val()
        } else {
            self.auto_val()
        }
    }

    /// The state after a read of the latch: the latch is cleared, nothing
    /// else moves.
    pub closed spec fn after_read(self) -> ManualAuto<T> {
        ManualAuto { has_changed: false, ..self }
    }

    pub fn new(value: T, is_manual: bool) -> (r: ManualAuto<T>)
        ensures
            r.manual_flag() == is_manual,
            !r.changed_flag(),
            r.manual_val() == value,
            vstd::pervasive::cloned(value, r.auto_val()),
    {
        ManualAuto { value_auto: value.clone(), value_manual: value, is_manual, has_changed: false }
    }

    /// The model of an auto write: the edge latches only if the override is
    /// inactive and the stored auto value actually differs.
    pub closed spec fn spec_auto_set(self, v: T) -> ManualAuto<T> {
        ManualAuto {
            value_auto: v,
            has_changed: self.has_changed || (!self.is_manual && !self.value_auto.eq_spec(&v)),
            ..self
        }
    }

    /// The model of a manual write: the override activates and the edge
    /// latches iff the effective value changes.
    pub closed spec fn spec_manual_set(self, v: T) -> ManualAuto<T> {
        ManualAuto {
            value_manual: v,
            is_manual: true,
            has_changed: self.has_changed || !self.effective().eq_spec(&v),
            ..self
        }
    }

    /// The model of dropping the override: the edge latches iff the auto
    /// value the toggle falls back to differs from the manual one.
    pub closed spec fn spec_resume_auto(self) -> ManualAuto<T> {
        ManualAuto {
            is_manual: false,
            has_changed: self.has_changed || (self.is_manual && !self.value_manual.eq_spec(
                &self.value_auto,
            )),
            ..self
        }
    }

    /// Supervisory write: latches the edge only if the override is inactive
    /// and the value actually differs.
    pub fn auto_set(&mut self, value: T)
        ensures
            final(self).auto_val() == value,
            final(self).manual_val() == old(self).manual_val(),
            final(self).manual_flag() == old(self).manual_flag(),
            old(self).changed_flag() ==> final(self).changed_flag(),
            T::obeys_eq_spec() ==> *final(self) == old(self).spec_auto_set(value),
    {
        if self.value_auto != value && !self.is_manual {
            self.has_changed = true;
        }
        self.value_auto = value;
    }

    /// Manual write: activates the override and latches the edge iff the
    /// effective value changes.
    pub fn manual_set(&mut self, value: T)
        ensures
            final(self).manual_val() == value,
            final(self).auto_val() == old(self).auto_val(),
            final(self).manual_flag(),
            old(self).changed_flag() ==> final(self).changed_flag(),
            T::obeys_eq_spec() ==> *final(self) == old(self).spec_manual_set(value),
    {
        if (self.value_manual != value && self.is_manual) || (!self.is_manual && self.value_auto
            != value) {
            self.has_changed = true;
        }
        self.is_manual = true;
        self.value_manual = value;
    }

    /// Drop the manual override: latches the edge iff the auto value the
    /// toggle falls back to differs from the manual one.
    pub fn resume_auto(&mut self)
        ensures
            final(self).auto_val() == old(self).auto_val(),
            final(self).manual_val() == old(self).manual_val(),
            !final(self).manual_flag(),
            old(self).changed_flag() ==> final(self).changed_flag(),
            T::obeys_eq_spec() ==> *final(self) == old(self).spec_resume_auto(),
    {
        if self.is_manual && self.value_manual != self.value_auto {
            self.has_changed = true;
        }
        self.is_manual = false;
    }

    /// The effective value.
    pub fn get(&self) -> (r: &T)
        ensures
            *r == self.effective(),
    {
        if self.is_manual {
            &self.value_manual
        } else {
            &self.value_auto
        }
    }

    pub fn is_manual(&self) -> (r: bool)
        ensures
            r == self.manual_flag(),
    {
        self.is_manual
    }

    /// Read and clear the edge latch: returns whether the effective value
    /// changed since the previous read.
    pub fn has_changed(&mut self) -> (r: bool)
        ensures
            r == old(self).changed_flag(),
            *final(self) == old(self).after_read(),
    {
        if self.has_changed {
            self.has_changed = false;
            return true;
        }
        return false;
    }
}

/// The edge latch is one-shot: the state a read leaves behind reads as
/// unchanged, so a second read without an intervening transition returns
/// false, and nothing else moves.
pub proof fn lemma_changed_read_one_shot<T: Clone + PartialEq>(m: ManualAuto<T>)
    ensures
        !m.after_read().changed_flag(),
        m.after_read().after_read() == m.after_read(),
        m.after_read().effective() == m.effective(),
        m.after_read().manual_flag() == m.manual_flag(),
{
}

/// A write that does not change the effective value latches no edge: an
/// auto write while the override is active, or one that repeats the stored
/// auto value; a manual write of the current effective value; and dropping
/// the override while the two values agree.
pub proof fn lemma_no_effective_change_no_edge<T: Clone + PartialEq>(m: ManualAuto<T>, v: T)
    requires
        !m.changed_flag(),
    ensures
        m.manual_flag() || m.auto_val().eq_spec(&v) ==> !m.spec_auto_set(v).changed_flag(),
        m.effective().eq_spec(&v) ==> !m.spec_manual_set(v).changed_flag(),
        !m.manual_flag() || m.manual_val().eq_spec(&m.auto_val()) ==> !m.spec_resume_auto(
        ).changed_flag(),
{
}

/// A write that changes the effective value latches the edge: a manual
/// write of a differing value, an auto write of a differing value while the
/// override is inactive, and dropping the override while the values differ.
pub proof fn lemma_effective_change_latches_edge<T: Clone + PartialEq>(m: ManualAuto<T>, v: T)
    ensures
        !m.manual_flag() && !m.auto_val().eq_spec(&v) ==> m.spec_auto_set(v).changed_flag(),
        !m.effective().eq_spec(&v) ==> m.spec_manual_set(v).changed_flag(),
        m.manual_flag() && !m.manual_val().eq_spec(&m.auto_val()) ==> m.spec_resume_auto(
        ).changed_flag(),
{
}

} // verus!
