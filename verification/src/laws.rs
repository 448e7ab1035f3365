//! Cross-cutting laws of the bus: rate adherence over aligned windows,
//! loopback by subscription, the subscription-change flush, and the time
//! command's visibility.
use crate::msg::{Instance, MsgPacketView, TargetMsg};
use crate::sched::{app_dispatches, local_delivery, rate_fires, rate_period, subs_request_due,
    AppModel, CallRecord, CallbackKind, ConnSubsModel, Rate, SUBS_RETRY_TICKS};
use crate::time::{SchTimeDriver, TimeData, TimeDriver};
use vstd::prelude::*;

verus! {

/// How often a rate fires per hundred ticks.
pub open spec fn rate_hz(r: Rate) -> nat {
    match r {
        Rate::Hz1 => 1,
        Rate::Hz5 => 5,
        Rate::Hz10 => 10,
        Rate::Hz20 => 20,
        Rate::Hz50 => 50,
        Rate::Hz100 => 100,
    }
}

/// The number of ticks in `base .. base + n` a rate fires on.
pub open spec fn fire_count(r: Rate, base: int, n: nat) -> nat
    decreases n,
{
    if n == 0 {
        0
    } else {
        fire_count(r, base, (n - 1) as nat) + if (base + n - 1) % (rate_period(r) as int) == 0 {
            1nat
        } else {
            0nat
        }
    }
}

proof fn lemma_fire_count_aligned(r: Rate, base: int, n: nat)
    requires
        base >= 0,
        base % (rate_period(r) as int) == 0,
    ensures
        fire_count(r, base, n) == crate::tlm::count_multiples(n, rate_period(r) as nat),
    decreases n,
{
    if n > 0 {
        lemma_fire_count_aligned(r, base, (n - 1) as nat);
        let p = rate_period(r) as int;
        vstd::arithmetic::div_mod::lemma_fundamental_div_mod(base, p);
        vstd::arithmetic::div_mod::lemma_mod_multiples_vanish(base / p, n - 1, p);
        assert((base + n - 1) % p == (n - 1) % p);
    }
}

/// Rate correctness: over any window of one hundred ticks whose base is a
/// multiple of one hundred, a callback at rate `R` runs exactly `R` times,
/// on the ticks that are multiples of the rate's period.
pub proof fn lemma_rate_correctness(r: Rate, base: int)
    requires
        base >= 0,
        base % 100 == 0,
    ensures
        fire_count(r, base, 100) == rate_hz(r),
        forall|k: int|
            base <= k < base + 100 ==> (#[trigger] rate_fires(r, k as u64) == (k % (rate_period(
                r,
            ) as int) == 0) || k > u64::MAX),
{
    let p = rate_period(r) as int;
    assert(base % p == 0) by {
        vstd::arithmetic::div_mod::lemma_fundamental_div_mod(base, 100);
        match r {
            Rate::Hz1 => {},
            Rate::Hz5 => {
                vstd::arithmetic::div_mod::lemma_mod_multiples_vanish(5 * (base / 100), 0, 20);
            },
            Rate::Hz10 => {
                vstd::arithmetic::div_mod::lemma_mod_multiples_vanish(10 * (base / 100), 0, 10);
            },
            Rate::Hz20 => {
                vstd::arithmetic::div_mod::lemma_mod_multiples_vanish(20 * (base / 100), 0, 5);
            },
            Rate::Hz50 => {
                vstd::arithmetic::div_mod::lemma_mod_multiples_vanish(50 * (base / 100), 0, 2);
            },
            Rate::Hz100 => {},
        }
    }
    lemma_fire_count_aligned(r, base, 100);
    crate::tlm::lemma_count_multiples(100, rate_period(r) as nat);
}

/// Rate adherence at the tick: the dispatches one tick owes an app carry a
/// `run` record exactly when the app's rate fires on that tick (and
/// likewise for the other two callbacks, through the same definition), so
/// over an aligned window the per-window counts follow the rate law above.
pub proof fn lemma_dispatch_iff_rate_fires(apps: Seq<AppModel>, k: u64, i: int)
    requires
        0 <= i < apps.len(),
    ensures
        app_dispatches(apps[i], i, k).contains(
            CallRecord { app: i, callback: CallbackKind::Run, tick: k },
        ) <==> rate_fires(apps[i].app_rate, k),
{
    let d = app_dispatches(apps[i], i, k);
    let rec = CallRecord { app: i, callback: CallbackKind::Run, tick: k };
    if rate_fires(apps[i].app_rate, k) {
        assert(d[0] == rec);
        assert(d.contains(rec));
    }
    if d.contains(rec) {
        if !rate_fires(apps[i].app_rate, k) {
            let j = choose|j: int| 0 <= j < d.len() && d[j] == rec;
            assert(d[j].callback != CallbackKind::Run);
        }
    }
}

/// Loopback is by subscription, not automatic: a packet an app itself
/// produced reaches its own inbound queue exactly when its subscription
/// set holds the bus instance's own key or the wildcard key for the
/// packet's kind.
pub proof fn lemma_loopback_by_subscription(
    subs: Set<TargetMsg>,
    instance: Instance,
    p: MsgPacketView,
)
    ensures
        local_delivery(subs, instance, p) <==> (subs.contains(
            TargetMsg { instance, msg: p.msg.kind() },
        ) || subs.contains(TargetMsg { instance: Instance::All, msg: p.msg.kind() })),
{
}

/// Subscription-change flush: once a subscription change has marked a
/// connector unsynchronized, a request is due as soon as the previous
/// request lies at least the retry distance back. (A connector whose last
/// request is more recent waits out the remainder of the retry distance.)
pub proof fn lemma_subscription_change_flush(c: ConnSubsModel, counter: u64)
    requires
        !c.subs_received,
        counter >= c.subs_last_requested + SUBS_RETRY_TICKS,
    ensures
        subs_request_due(c, counter),
{
}

/// Time-command visibility: with the scheduler-derived driver, a system
/// time read after the epoch offset was set to `t` returns the tick
/// counter plus exactly `t`.
pub proof fn lemma_set_time_visibility(td: TimeData, t: u64)
    requires
        td.time_offset == t,
        td.sch_counter + t <= u64::MAX,
    ensures
        (SchTimeDriver {}).system_time_model(td) == Some((td.sch_counter + t) as u64),
{
}

} // verus!
