//! The housekeeping app: samples resource probes, supervises the hardware
//! watchdog through a manual/auto toggle, and publishes housekeeping
//! telemetry.
use crate::handle::Rfe;
use crate::infograbber::SystemInfoGrabber;
use crate::msg::{HsCmd, HsHk, HsHkView, HsOutData, Msg, MsgKind, MsgPacketView, MsgView, TargetMsg};
use crate::sched::{App, Rate, RfeError};
use crate::time::TimeDriver;
use crate::utils::{ManualAuto, PerfData};
use crate::watchdog::Watchdog;
use vstd::prelude::*;

verus! {

/// The housekeeping app's telemetry state.
pub struct HsData {
    pub out_data: HsOutData,
    pub hk: HsHk,
}

/// Static configuration of the housekeeping app: which probes to sample,
/// and the watchdog's startup state and timeout in seconds.
#[derive(Clone, Copy, PartialEq, Eq, Debug, Structural)]
pub struct HsConfig {
    pub cpu_checks: bool,
    pub mem_checks: bool,
    pub fs_checks: bool,
    pub temp_checks: bool,
    pub watchdog_enable: bool,
    pub watchdog_timeout: i32,
}

/// The housekeeping app.
pub struct Hs<G: SystemInfoGrabber, W: Watchdog> {
    data: HsData,
    config: HsConfig,
    grabber: G,
    wd: Option<W>,
    wd_value: ManualAuto<bool>,
}

/// The supervision toggle after one packet's command ran against it:
/// watchdog commands drive the manual/auto transitions, everything else
/// leaves it alone.
pub open spec fn toggle_step(m: ManualAuto<bool>, p: MsgPacketView) -> ManualAuto<bool> {
    match p.msg {
        MsgView::HsCmd(c) => match c {
            HsCmd::WatchdogEnableManual(v) => m.spec_manual_set(v),
            HsCmd::WatchdogEnableAuto(v) => m.spec_auto_set(v),
            HsCmd::WatchdogResumeAuto => m.spec_resume_auto(),
            _ => m,
        },
        _ => m,
    }
}

/// The supervision toggle after draining `inbox`.
pub open spec fn toggle_after(m: ManualAuto<bool>, inbox: Seq<MsgPacketView>) -> ManualAuto<bool>
    decreases inbox.len(),
{
    if inbox.len() == 0 {
        m
    } else {
        toggle_after(toggle_step(m, inbox[0]), inbox.drop_first())
    }
}

proof fn lemma_toggle_after_snoc(m: ManualAuto<bool>, s: Seq<MsgPacketView>, x: MsgPacketView)
    ensures
        toggle_after(m, s.push(x)) == toggle_step(toggle_after(m, s), x),
    decreases s.len(),
{
    if s.len() == 0 {
        assert(s.push(x)[0] == x);
        assert(s.push(x).drop_first() =~= Seq::<MsgPacketView>::empty());
        assert(toggle_after(m, s.push(x)) == toggle_after(
            toggle_step(m, x),
            Seq::<MsgPacketView>::empty(),
        ));
    } else {
        assert(s.push(x)[0] == s[0]);
        assert(s.push(x).drop_first() =~= s.drop_first().push(x));
        assert(toggle_after(m, s.push(x)) == toggle_after(
            toggle_step(m, s[0]),
            s.drop_first().push(x),
        ));
        lemma_toggle_after_snoc(toggle_step(m, s[0]), s.drop_first(), x);
    }
}

/// A freshly reset telemetry state: all counters zero, no probe readings.
pub open spec fn hs_data_is_fresh(d: HsData) -> bool {
    &&& d.out_data.counter == 0
    &&& d.hk.counter == 0
    &&& d.hk.cmd_counter == 0
    &&& d.hk.cpu_usage@.len() == 0
    &&& d.hk.mem_usage == 0
    &&& d.hk.fs_usage@.len() == 0
    &&& d.hk.temps@.len() == 0
    &&& !d.hk.cpu_usage_enabled
    &&& !d.hk.mem_usage_enabled
    &&& !d.hk.fs_usage_enabled
}

fn fresh_hs_data() -> (r: HsData)
    ensures
        hs_data_is_fresh(r),
{
    HsData {
        out_data: HsOutData { counter: 0 },
        hk: HsHk {
            perf: PerfData { enter_time: 0, elapsed: 0, rate: 0 },
            counter: 0,
            cpu_usage: Vec::new(),
            mem_usage: 0,
            fs_usage: Vec::new(),
            temps: Vec::new(),
            cmd_counter: 0,
            cpu_usage_enabled: false,
            mem_usage_enabled: false,
            fs_usage_enabled: false,
        },
    }
}

impl<G: SystemInfoGrabber, W: Watchdog> Hs<G, W> {
    /// The watchdog supervision toggle.
    pub closed spec fn wd_toggle(&self) -> ManualAuto<bool> {
        self.wd_value
    }

    /// The telemetry state.
    pub closed spec fn data(&self) -> HsData {
        self.data
    }

    /// The static configuration.
    pub closed spec fn config(&self) -> HsConfig {
        self.config
    }

    /// Construct the app: apply the configured timeout and startup state to
    /// the watchdog, and start the supervision toggle on the configured
    /// value with no override.
    pub fn new(config: HsConfig, grabber: G, watchdog: Option<W>) -> (r: Hs<G, W>)
        ensures
            r.wd_toggle().manual_flag() == false,
            !r.wd_toggle().changed_flag(),
            r.wd_toggle().manual_val() == config.watchdog_enable,
            vstd::pervasive::cloned(config.watchdog_enable, r.wd_toggle().auto_val()),
            hs_data_is_fresh(r.data()),
            r.config() == config,
    {
        let mut wd = watchdog;
        wd.set_timeout(config.watchdog_timeout);
        if config.watchdog_enable {
            wd.enable();
        } else {
            wd.disable();
        }
        Hs {
            data: fresh_hs_data(),
            config,
            grabber,
            wd,
            wd_value: ManualAuto::new(config.watchdog_enable, false),
        }
    }

    fn reset(&mut self)
        ensures
            hs_data_is_fresh(final(self).data()),
            final(self).wd_toggle() == old(self).wd_toggle(),
            final(self).config() == old(self).config(),
    {
        self.data = fresh_hs_data();
    }
}

impl<G: SystemInfoGrabber, W: Watchdog, D: TimeDriver + Copy> App<D> for Hs<G, W> {
    /// Reset, then subscribe to commands addressed to this instance.
    fn init(&mut self, rfe: &mut Rfe<D>) -> (r: Result<(), RfeError>) {
        self.reset();
        let instance = rfe.get_instance();
        rfe.subscribe(TargetMsg::new(instance, MsgKind::HsCmd));
        Ok(())
    }

    /// Count the pass, drain the inbound queue applying watchdog commands
    /// to the supervision toggle, act on a toggle edge (the device itself is
    /// outside the model), feed the watchdog, and sample the configured
    /// probes.
    fn run(&mut self, rfe: &mut Rfe<D>)
        ensures
            final(rfe).inbox().len() == 0,
            final(rfe).subs() == old(rfe).subs(),
            final(rfe).outbox() == old(rfe).outbox(),
            final(rfe).subs_dirty() == old(rfe).subs_dirty(),
            final(self).wd_toggle() == toggle_after(
                old(self).wd_toggle(),
                old(rfe).inbox(),
            ).after_read(),
            final(self).config() == old(self).config(),
    {
        self.data.hk.perf.enter(rfe);
        self.data.out_data.counter = self.data.out_data.counter.wrapping_add(1);
        let ghost inbox0 = rfe.inbox();
        let ghost m0 = self.wd_value;
        let ghost g: int = 0;
        proof {
            assert(inbox0.take(0) =~= Seq::<MsgPacketView>::empty());
        }
        loop
            invariant
                0 <= g <= inbox0.len(),
                rfe.inbox() == inbox0.skip(g),
                rfe.subs() == old(rfe).subs(),
                rfe.outbox() == old(rfe).outbox(),
                rfe.subs_dirty() == old(rfe).subs_dirty(),
                rfe.same_identity(old(rfe)),
                self.wd_value == toggle_after(m0, inbox0.take(g)),
                self.config == old(self).config(),
            ensures
                rfe.inbox().len() == 0,
                rfe.subs() == old(rfe).subs(),
                rfe.outbox() == old(rfe).outbox(),
                rfe.subs_dirty() == old(rfe).subs_dirty(),
                rfe.same_identity(old(rfe)),
                self.wd_value == toggle_after(m0, inbox0),
                self.config == old(self).config(),
            decreases rfe.inbox().len(),
        {
            let next = rfe.recv();
            match next {
                Option::None => {
                    proof {
                        assert(inbox0.take(g) =~= inbox0);
                    }
                    break ;
                },
                Option::Some(msg) => {
                    proof {
                        assert(inbox0.skip(g)[0] == inbox0[g]);
                        assert(inbox0.skip(g).drop_first() =~= inbox0.skip(g + 1));
                        assert(inbox0.take(g + 1) =~= inbox0.take(g).push(inbox0[g]));
                        lemma_toggle_after_snoc(m0, inbox0.take(g), inbox0[g]);
                    }
                    match msg.msg {
                        Msg::HsCmd(cmd) => {
                            self.data.hk.cmd_counter = self.data.hk.cmd_counter.wrapping_add(1);
                            match cmd {
                                HsCmd::Noop => {},
                                HsCmd::Reset => {
                                    self.reset();
                                },
                                HsCmd::WatchdogEnableManual(v) => {
                                    self.wd_value.manual_set(v);
                                },
                                HsCmd::WatchdogEnableAuto(v) => {
                                    self.wd_value.auto_set(v);
                                },
                                HsCmd::WatchdogResumeAuto => {
                                    self.wd_value.resume_auto();
                                },
                            }
                        },
                        _ => {},
                    }
                    proof {
                        g = g + 1;
                    }
                },
            }
        }
        if self.wd_value.has_changed() {
            if *self.wd_value.get() {
                self.wd.enable();
            } else {
                self.wd.disable();
            }
        }
        self.wd.feed();
        if self.config.cpu_checks {
            self.data.hk.cpu_usage = self.grabber.check_cpu_usage();
        }
        if self.config.mem_checks {
            self.data.hk.mem_usage = self.grabber.check_mem_usage();
        }
        if self.config.fs_checks {
            self.data.hk.fs_usage = self.grabber.check_fs_usage();
        }
        if self.config.temp_checks {
            self.data.hk.temps = self.grabber.check_temps();
        }
        self.data.hk.perf.exit(rfe);
    }

    /// Publish housekeeping telemetry: one packet of the current record,
    /// its counter synchronized to the run counter.
    fn hk(&mut self, rfe: &mut Rfe<D>)
        ensures
            final(self).data().hk.deep_view() == (HsHkView {
                counter: old(self).data().out_data.counter,
                ..old(self).data().hk.deep_view()
            }),
            final(self).data().out_data == old(self).data().out_data,
            final(self).wd_toggle() == old(self).wd_toggle(),
            final(rfe).outbox().len() == old(rfe).outbox().len() + 1,
            final(rfe).outbox().drop_last() == old(rfe).outbox(),
            final(rfe).outbox().last().msg == MsgView::HsHk(final(self).data().hk.deep_view()),
            final(rfe).outbox().last().instance == old(rfe).inst(),
            final(rfe).inbox() == old(rfe).inbox(),
            final(rfe).subs() == old(rfe).subs(),
            final(rfe).subs_dirty() == old(rfe).subs_dirty(),
    {
        self.data.hk.counter = self.data.out_data.counter;
        rfe.send(Msg::HsHk(self.data.hk.clone()));
        proof {
            assert(self.data.hk.deep_view() =~= (HsHkView {
                counter: old(self).data().out_data.counter,
                ..old(self).data().hk.deep_view()
            }));
        }
    }

    /// Publish output telemetry: one packet of the current record.
    fn out_data(&mut self, rfe: &mut Rfe<D>)
        ensures
            final(self).data().hk.deep_view() == old(self).data().hk.deep_view(),
            final(self).data().out_data == old(self).data().out_data,
            final(self).wd_toggle() == old(self).wd_toggle(),
            final(rfe).outbox().len() == old(rfe).outbox().len() + 1,
            final(rfe).outbox().drop_last() == old(rfe).outbox(),
            final(rfe).outbox().last().msg == MsgView::HsOutData(old(self).data().out_data),
            final(rfe).outbox().last().instance == old(rfe).inst(),
            final(rfe).inbox() == old(rfe).inbox(),
            final(rfe).subs() == old(rfe).subs(),
            final(rfe).subs_dirty() == old(rfe).subs_dirty(),
    {
        rfe.send(Msg::HsOutData(self.data.out_data));
    }

    fn get_app_rate(&self) -> Rate {
        Rate::Hz1
    }
}

} // verus!
