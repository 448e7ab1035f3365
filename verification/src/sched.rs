//! The scheduler: rate-based dispatch of app callbacks, message routing
//! between apps and connectors, and subscription synchronization with
//! peers.
use crate::connector::{Connector, ConnectorModel};
use crate::handle::Rfe;
use crate::msg::{Instance, Msg, MsgPacket, MsgPacketView, MsgView, SubList, TargetMsg};
use crate::time::{TimeData, TimeDriver};
use vstd::prelude::*;

verus! {

/// Ticks between subscription re-requests while no list has been received.
pub const SUBS_RETRY_TICKS: u64 = 10;

/// Ticks between subscription refreshes once a list has been received.
pub const SUBS_REFRESH_TICKS: u64 = 10000;

/// The dispatch rates an app callback can run at, in invocations per
/// hundred ticks.
#[derive(Debug, Clone, Copy, PartialEq, Eq, PartialOrd, Ord, Hash, Structural)]
pub enum Rate {
    Hz1,
    Hz5,
    Hz10,
    Hz20,
    Hz50,
    Hz100,
}

/// How many ticks apart a rate fires: a rate of `R` Hz fires every
/// `100 / R` ticks.
pub open spec fn rate_period(r: Rate) -> u64 {
    match r {
        Rate::Hz1 => 100,
        Rate::Hz5 => 20,
        Rate::Hz10 => 10,
        Rate::Hz20 => 5,
        Rate::Hz50 => 2,
        Rate::Hz100 => 1,
    }
}

/// A rate fires on tick `k` iff `k` is a multiple of its period.
pub open spec fn rate_fires(r: Rate, counter: u64) -> bool {
    counter % rate_period(r) == 0
}

/// Whether a callback at rate `r` runs on tick `counter`.
pub fn rate_due(r: Rate, counter: u64) -> (due: bool)
    ensures
        due == rate_fires(r, counter),
{
    match r {
        Rate::Hz1 => counter % 100 == 0,
        Rate::Hz5 => counter % 20 == 0,
        Rate::Hz10 => counter % 10 == 0,
        Rate::Hz20 => counter % 5 == 0,
        Rate::Hz50 => counter % 2 == 0,
        Rate::Hz100 => true,
    }
}

/// Marker for housekeeping-telemetry payloads: plain copyable data.
pub trait Hk: Sized + Clone + Copy + Send + Sync {

}

impl<T: Sized + Clone + Copy + Send + Sync> Hk for T {

}

/// Marker for output-telemetry payloads: plain copyable data.
pub trait OutData: Sized + Clone + Copy + Send + Sync {

}

impl<T: Sized + Clone + Copy + Send + Sync> OutData for T {

}

/// Which of an app's three callbacks a dispatch record names.
#[derive(Clone, Copy, PartialEq, Eq, Debug, Structural)]
pub enum CallbackKind {
    Run,
    Hk,
    OutData,
}

/// One recorded callback dispatch: which app (by registration index), which
/// callback, and on which tick it ran.
pub struct CallRecord {
    pub app: int,
    pub callback: CallbackKind,
    pub tick: u64,
}

/// The dispatches one app is owed on tick `k`: its `run`, `hk` and
/// `out_data` callbacks, in that order, each exactly when its rate fires.
pub open spec fn app_dispatches(m: AppModel, i: int, k: u64) -> Seq<CallRecord> {
    (if rate_fires(m.app_rate, k) {
        seq![CallRecord { app: i, callback: CallbackKind::Run, tick: k }]
    } else {
        Seq::empty()
    }) + (if rate_fires(m.hk_rate, k) {
        seq![CallRecord { app: i, callback: CallbackKind::Hk, tick: k }]
    } else {
        Seq::empty()
    }) + (if rate_fires(m.out_data_rate, k) {
        seq![CallRecord { app: i, callback: CallbackKind::OutData, tick: k }]
    } else {
        Seq::empty()
    })
}

pub open spec fn tick_dispatches_from(apps: Seq<AppModel>, i: int, k: u64) -> Seq<CallRecord>
    decreases apps.len() - i,
{
    if i < 0 || i >= apps.len() {
        Seq::empty()
    } else {
        app_dispatches(apps[i], i, k) + tick_dispatches_from(apps, i + 1, k)
    }
}

/// The dispatches one tick owes: for each app in registration order, the
/// due callbacks in callback order.
pub open spec fn tick_dispatches(apps: Seq<AppModel>, k: u64) -> Seq<CallRecord> {
    tick_dispatches_from(apps, 0, k)
}

/// Errors surfaced by the scheduler's configuration operations.
#[derive(Debug, Clone, Copy, PartialEq, Eq, Structural)]
pub enum RfeError {
    DuplicateApp,
    InitFailed,
}

/// The capability set of an application hosted on the bus.
pub trait App<D: TimeDriver + Copy>: Sized {
    /// One-time setup, run at registration. An app must not move its
    /// handle's identity or clock; it may only append to its outgoing
    /// queue, and it cannot unmark a pending subscription change.
    fn init(&mut self, rfe: &mut Rfe<D>) -> (r: Result<(), RfeError>)
        ensures
            final(rfe).same_identity(old(rfe)),
            final(rfe).outbox().len() >= old(rfe).outbox().len(),
            final(rfe).outbox().take(old(rfe).outbox().len() as int) == old(rfe).outbox(),
            old(rfe).subs_dirty() ==> final(rfe).subs_dirty(),
    ;

    /// The main periodic callback.
    fn run(&mut self, rfe: &mut Rfe<D>)
        ensures
            final(rfe).same_identity(old(rfe)),
            final(rfe).outbox().len() >= old(rfe).outbox().len(),
            final(rfe).outbox().take(old(rfe).outbox().len() as int) == old(rfe).outbox(),
            old(rfe).subs_dirty() ==> final(rfe).subs_dirty(),
    ;

    /// The housekeeping-telemetry callback.
    fn hk(&mut self, rfe: &mut Rfe<D>)
        ensures
            final(rfe).same_identity(old(rfe)),
            final(rfe).outbox().len() >= old(rfe).outbox().len(),
            final(rfe).outbox().take(old(rfe).outbox().len() as int) == old(rfe).outbox(),
            old(rfe).subs_dirty() ==> final(rfe).subs_dirty(),
    ;

    /// The output-telemetry callback.
    fn out_data(&mut self, rfe: &mut Rfe<D>)
        ensures
            final(rfe).same_identity(old(rfe)),
            final(rfe).outbox().len() >= old(rfe).outbox().len(),
            final(rfe).outbox().take(old(rfe).outbox().len() as int) == old(rfe).outbox(),
            old(rfe).subs_dirty() ==> final(rfe).subs_dirty(),
    ;

    /// The rate of the main callback.
    fn get_app_rate(&self) -> Rate;
}

/// The model of one registered app: its registration data and the state of
/// its bus handle.
#[verifier::ext_equal]
pub struct AppModel {
    pub name: Seq<char>,
    pub inst: Instance,
    pub time: TimeData,
    pub app_rate: Rate,
    pub hk_rate: Rate,
    pub out_data_rate: Rate,
    pub subs: Set<TargetMsg>,
    pub inbox: Seq<MsgPacketView>,
    pub outbox: Seq<MsgPacketView>,
    pub subs_dirty: bool,
}

/// The model of one connector's bus-side bookkeeping.
#[verifier::ext_equal]
pub struct ConnSubsModel {
    pub subs: Set<TargetMsg>,
    pub subs_received: bool,
    pub subs_last_requested: u64,
    pub net: Option<ConnectorModel>,
}

struct AppEntry<D: TimeDriver + Copy, A: App<D>> {
    name: String,
    app: A,
    app_rate: Rate,
    hk_rate: Rate,
    out_data_rate: Rate,
    rfe: Rfe<D>,
}

impl<D: TimeDriver + Copy, A: App<D>> DeepView for AppEntry<D, A> {
    type V = AppModel;

    closed spec fn deep_view(&self) -> AppModel {
        AppModel {
            name: self.name@,
            inst: self.rfe.inst(),
            time: self.rfe.time(),
            app_rate: self.app_rate,
            hk_rate: self.hk_rate,
            out_data_rate: self.out_data_rate,
            subs: self.rfe.subs(),
            inbox: self.rfe.inbox(),
            outbox: self.rfe.outbox(),
            subs_dirty: self.rfe.subs_dirty(),
        }
    }
}

/// A registered connector together with the peer's cached subscription set
/// and the subscription-sync bookkeeping.
pub struct ConnectorState<C: Connector> {
    connector: C,
    subscriptions: Vec<TargetMsg>,
    subs_received: bool,
    subs_last_requested: u64,
}

impl<C: Connector> DeepView for ConnectorState<C> {
    type V = ConnSubsModel;

    closed spec fn deep_view(&self) -> ConnSubsModel {
        ConnSubsModel {
            subs: self.subscriptions@.to_set(),
            subs_received: self.subs_received,
            subs_last_requested: self.subs_last_requested,
            net: self.connector.model(),
        }
    }
}

/// A bus instance: the registered apps in registration order, the
/// connectors, the shared time record and the tick counter.
pub struct RfeInstance<D: TimeDriver + Copy, A: App<D>, C: Connector> {
    app_list: Vec<AppEntry<D, A>>,
    time_data: TimeData,
    time_driver: D,
    instance: Instance,
    connectors: Vec<ConnectorState<C>>,
    sch_counter: u64,
    dispatch_log: Ghost<Seq<CallRecord>>,
}

/// Whether an app with subscription set `subs` is delivered a packet `p`
/// produced on the local bus by instance `instance`.
pub open spec fn local_delivery(subs: Set<TargetMsg>, instance: Instance, p: MsgPacketView) -> bool {
    ||| subs.contains(TargetMsg { instance, msg: p.msg.kind() })
    ||| subs.contains(TargetMsg { instance: Instance::All, msg: p.msg.kind() })
}

/// Whether a connector with subscription set `subs` is sent a packet `p`
/// produced on the local bus by instance `instance`.
pub open spec fn egress_delivery(subs: Set<TargetMsg>, instance: Instance, p: MsgPacketView) -> bool {
    ||| subs.contains(TargetMsg { instance, msg: p.msg.kind() })
    ||| subs.contains(TargetMsg { instance: Instance::All, msg: p.msg.kind() })
    ||| subs.contains(TargetMsg { instance: Instance::Other, msg: p.msg.kind() })
}

/// Whether an app with subscription set `subs` is delivered an inbound
/// packet `p` that arrived over a connector.
pub open spec fn ingress_delivery(subs: Set<TargetMsg>, p: MsgPacketView) -> bool {
    ||| subs.contains(TargetMsg { instance: p.instance, msg: p.msg.kind() })
    ||| subs.contains(TargetMsg { instance: Instance::All, msg: p.msg.kind() })
    ||| subs.contains(TargetMsg { instance: Instance::Other, msg: p.msg.kind() })
}

/// Byte-wise string equality, tied to the spec-level character view.
fn str_eq(a: &str, b: &str) -> (r: bool)
    ensures
        r == (a@ == b@),
{
    broadcast use {vstd::utf8::encode_utf8_decode_utf8, vstd::utf8::encode_utf8_valid_utf8};

    let ab = a.as_bytes();
    let bb = b.as_bytes();
    if ab.len() != bb.len() {
        proof {
            assert(a@ != b@) by {
                if a@ == b@ {
                    assert(vstd::utf8::encode_utf8(a@) == vstd::utf8::encode_utf8(b@));
                }
            }
        }
        return false;
    }
    let mut i: usize = 0;
    while i < ab.len()
        invariant
            i <= ab@.len(),
            ab@.len() == bb@.len(),
            ab@ == vstd::utf8::encode_utf8(a@),
            bb@ == vstd::utf8::encode_utf8(b@),
            forall|j: int| 0 <= j < i ==> ab@[j] == bb@[j],
        decreases ab@.len() - i,
    {
        if ab[i] != bb[i] {
            proof {
                assert(a@ != b@) by {
                    if a@ == b@ {
                        assert(vstd::utf8::encode_utf8(a@) == vstd::utf8::encode_utf8(b@));
                    }
                }
            }
            return false;
        }
        i = i + 1;
    }
    proof {
        assert(ab@ =~= bb@);
        assert(vstd::utf8::decode_utf8(ab@) == a@);
        assert(vstd::utf8::decode_utf8(bb@) == b@);
    }
    true
}

impl<D: TimeDriver + Copy, A: App<D>, C: Connector> RfeInstance<D, A, C> {
    /// The registered apps, in registration order.
    pub closed spec fn apps(&self) -> Seq<AppModel> {
        self.app_list.deep_view()
    }

    /// The connectors' bus-side bookkeeping, in registration order.
    pub closed spec fn conns(&self) -> Seq<ConnSubsModel> {
        self.connectors.deep_view()
    }

    /// The tick counter.
    pub closed spec fn counter(&self) -> u64 {
        self.sch_counter
    }

    /// The record of every callback dispatch so far, oldest first.
    pub closed spec fn dispatches(&self) -> Seq<CallRecord> {
        self.dispatch_log@
    }

    /// The shared time record.
    pub closed spec fn time(&self) -> TimeData {
        self.time_data
    }

    /// The time driver.
    pub closed spec fn driver(&self) -> D {
        self.time_driver
    }

    /// This bus instance's identity.
    pub closed spec fn inst(&self) -> Instance {
        self.instance
    }

    /// The scheduler's invariant: no connector's subscription request is
    /// recorded in the future.
    pub open spec fn wf(&self) -> bool {
        forall|i: int|
            0 <= i < self.conns().len() ==> #[trigger] self.conns()[i].subs_last_requested
                <= self.counter()
    }

    pub fn new(instance: Instance, time_driver: D) -> (r: RfeInstance<D, A, C>)
        ensures
            r.inst() == instance,
            r.driver() == time_driver,
            r.counter() == 0,
            r.time() == (TimeData { sch_counter: 0, time_offset: 0 }),
            r.apps() == Seq::<AppModel>::empty(),
            r.conns() == Seq::<ConnSubsModel>::empty(),
            r.dispatches() == Seq::<CallRecord>::empty(),
            r.wf(),
    {
        let r = RfeInstance {
            app_list: Vec::new(),
            time_data: TimeData { sch_counter: 0, time_offset: 0 },
            time_driver,
            instance,
            connectors: Vec::new(),
            sch_counter: 0,
            dispatch_log: Ghost(Seq::empty()),
        };
        proof {
            assert(r.apps() =~= Seq::<AppModel>::empty());
            assert(r.conns() =~= Seq::<ConnSubsModel>::empty());
        }
        r
    }

    /// Whether an app of this name is registered.
    fn has_app(&self, name: &str) -> (r: bool)
        ensures
            r == exists|i: int| 0 <= i < self.apps().len() && #[trigger] self.apps()[i].name == name@,
    {
        let mut i: usize = 0;
        while i < self.app_list.len()
            invariant
                i <= self.app_list@.len(),
                forall|j: int| 0 <= j < i ==> #[trigger] self.apps()[j].name != name@,
            decreases self.app_list@.len() - i,
        {
            if str_eq(self.app_list[i].name.as_str(), name) {
                proof {
                    assert(self.apps()[i as int].name == name@);
                }
                return true;
            }
            proof {
                assert(self.apps()[i as int].name != name@);
            }
            i = i + 1;
        }
        false
    }

    /// Register an app under a unique name: construct its handle, ask it
    /// for its rate, and run its one-time setup. A failed setup is
    /// reported, but the app stays registered with whatever state its setup
    /// produced.
    pub fn add_app(&mut self, name: &str, app: A) -> (r: Result<(), RfeError>)
        ensures
            r is Err <==> exists|i: int|
                0 <= i < old(self).apps().len() && #[trigger] old(self).apps()[i].name == name@,
            r is Err ==> *final(self) == *old(self),
            r is Ok ==> {
                &&& final(self).apps().len() == old(self).apps().len() + 1
                &&& final(self).apps().drop_last() == old(self).apps()
                &&& final(self).apps().last().name == name@
                &&& final(self).apps().last().hk_rate == Rate::Hz1
                &&& final(self).apps().last().out_data_rate == final(self).apps().last().app_rate
                &&& final(self).apps().last().inst == old(self).inst()
                &&& final(self).apps().last().time == old(self).time()
                &&& final(self).conns() == old(self).conns()
                &&& final(self).dispatches() == old(self).dispatches()
                &&& final(self).counter() == old(self).counter()
                &&& final(self).time() == old(self).time()
                &&& final(self).inst() == old(self).inst()
                &&& final(self).driver() == old(self).driver()
            },
    {
        if self.has_app(name) {
            return Err(RfeError::DuplicateApp);
        }
        let app_rate = app.get_app_rate();
        let mut entry = AppEntry {
            name: name.to_owned(),
            app,
            app_rate,
            hk_rate: Rate::Hz1,
            out_data_rate: app_rate,
            rfe: Rfe::new(self.instance, self.time_data, self.time_driver),
        };
        // a failed setup leaves the app registered with whatever state its
        // setup produced; packets it sent wait for the first tick
        let _init_result = entry.app.init(&mut entry.rfe);
        let ghost prior = self.app_list.deep_view();
        let ghost entry_model = entry.deep_view();
        self.app_list.push(entry);
        proof {
            assert(self.app_list.deep_view() =~= prior.push(entry_model));
            assert(self.apps().drop_last() =~= prior);
        }
        Ok(())
    }

    /// Register a connector: its cached peer subscription set starts empty
    /// and no subscription list has been received from it.
    pub fn add_connector(&mut self, connector: C)
        ensures
            final(self).conns().len() == old(self).conns().len() + 1,
            final(self).conns().drop_last() == old(self).conns(),
            final(self).conns().last() == (ConnSubsModel {
                subs: Set::<TargetMsg>::empty(),
                subs_received: false,
                subs_last_requested: 0,
                net: connector.model(),
            }),
            final(self).apps() == old(self).apps(),
            final(self).counter() == old(self).counter(),
            final(self).dispatches() == old(self).dispatches(),
            final(self).time() == old(self).time(),
            final(self).inst() == old(self).inst(),
            final(self).driver() == old(self).driver(),
            old(self).wf() ==> final(self).wf(),
    {
        let state = ConnectorState {
            connector,
            subscriptions: Vec::new(),
            subs_received: false,
            subs_last_requested: 0,
        };
        let ghost prior = self.connectors.deep_view();
        let ghost state_model = state.deep_view();
        self.connectors.push(state);
        proof {
            assert(Seq::<TargetMsg>::empty().to_set() =~= Set::<TargetMsg>::empty());
            assert(self.connectors.deep_view() =~= prior.push(state_model));
            assert(self.conns().drop_last() =~= prior);
        }
    }
}

/// The filter an app's inbound queue applies to locally produced packets.
pub open spec fn local_pred(subs: Set<TargetMsg>, instance: Instance) -> spec_fn(MsgPacketView) -> bool {
    |p: MsgPacketView| local_delivery(subs, instance, p)
}

/// The filter a connector applies to locally produced packets.
pub open spec fn egress_pred(subs: Set<TargetMsg>, instance: Instance) -> spec_fn(MsgPacketView) -> bool {
    |p: MsgPacketView| egress_delivery(subs, instance, p)
}

/// The filter an app's inbound queue applies to packets arriving over
/// connectors.
pub open spec fn ingress_pred(subs: Set<TargetMsg>) -> spec_fn(MsgPacketView) -> bool {
    |p: MsgPacketView| ingress_delivery(subs, p)
}

/// Whether a packet carries one of the three control payloads the
/// scheduler consumes during connector ingress.
pub open spec fn is_control(p: MsgPacketView) -> bool {
    ||| p.msg is SubList
    ||| p.msg is SetTimeCmd
    ||| p.msg is SubRequest
}

/// The filter picking the subscription requests out of a batch.
pub open spec fn subreq_pred() -> spec_fn(MsgPacketView) -> bool {
    |p: MsgPacketView| p.msg is SubRequest
}

/// A subscription-list reply: one packet from this instance at timestamp
/// zero whose list carries, as a set, the given subscription union.
pub open spec fn is_sub_reply(b: Seq<MsgPacketView>, union: Set<TargetMsg>, instance: Instance) -> bool {
    &&& b.len() == 1
    &&& b[0].instance == instance
    &&& b[0].timestamp == 0
    &&& b[0].msg matches MsgView::SubList(lv) && lv.subs.to_set() == union
}

/// A subscription-request batch: exactly one request packet from this
/// instance at timestamp zero.
pub open spec fn is_sub_request(b: Seq<MsgPacketView>, instance: Instance) -> bool {
    b == seq![MsgPacketView { instance, msg: MsgView::SubRequest, timestamp: 0 }]
}

/// The epoch offset after one batch's time commands applied in order: the
/// last one wins.
pub open spec fn batch_offset(b: Seq<MsgPacketView>, o: u64) -> u64
    decreases b.len(),
{
    if b.len() == 0 {
        o
    } else {
        batch_offset(
            b.drop_first(),
            match b[0].msg {
                MsgView::SetTimeCmd(t) => t,
                _ => o,
            },
        )
    }
}

/// The epoch offset after every connector's polled batch applied in
/// registration order, where every connector is modeled.
pub open spec fn conns_offset(conns: Seq<ConnSubsModel>, o: u64) -> u64
    decreases conns.len(),
{
    if conns.len() == 0 {
        o
    } else {
        conns_offset(
            conns.drop_first(),
            match conns[0].net {
                Option::Some(m) => if m.inbound.len() > 0 {
                    batch_offset(m.inbound[0], o)
                } else {
                    o
                },
                Option::None => o,
            },
        )
    }
}

proof fn lemma_batch_offset_snoc(b: Seq<MsgPacketView>, x: MsgPacketView, o: u64)
    ensures
        batch_offset(b.push(x), o) == (match x.msg {
            MsgView::SetTimeCmd(t) => t,
            _ => batch_offset(b, o),
        }),
    decreases b.len(),
{
    let step0 = if b.len() > 0 {
        match b[0].msg {
            MsgView::SetTimeCmd(t) => t,
            _ => o,
        }
    } else {
        o
    };
    if b.len() == 0 {
        assert(b.push(x)[0] == x);
        assert(b.push(x).drop_first() =~= Seq::<MsgPacketView>::empty());
        assert(batch_offset(b.push(x), o) == batch_offset(
            Seq::<MsgPacketView>::empty(),
            match x.msg {
                MsgView::SetTimeCmd(t) => t,
                _ => o,
            },
        ));
    } else {
        assert(b.push(x)[0] == b[0]);
        assert(b.push(x).drop_first() =~= b.drop_first().push(x));
        assert(batch_offset(b.push(x), o) == batch_offset(b.drop_first().push(x), step0));
        lemma_batch_offset_snoc(b.drop_first(), x, step0);
        assert(batch_offset(b, o) == batch_offset(b.drop_first(), step0));
    }
}

proof fn lemma_conns_offset_snoc(conns: Seq<ConnSubsModel>, x: ConnSubsModel, o: u64)
    ensures
        conns_offset(conns.push(x), o) == (match x.net {
            Option::Some(m) => if m.inbound.len() > 0 {
                batch_offset(m.inbound[0], conns_offset(conns, o))
            } else {
                conns_offset(conns, o)
            },
            Option::None => conns_offset(conns, o),
        }),
    decreases conns.len(),
{
    let step0 = if conns.len() > 0 {
        match conns[0].net {
            Option::Some(m) => if m.inbound.len() > 0 {
                batch_offset(m.inbound[0], o)
            } else {
                o
            },
            Option::None => o,
        }
    } else {
        o
    };
    if conns.len() == 0 {
        assert(conns.push(x)[0] == x);
        assert(conns.push(x).drop_first() =~= Seq::<ConnSubsModel>::empty());
        assert(conns_offset(conns.push(x), o) == conns_offset(
            Seq::<ConnSubsModel>::empty(),
            match x.net {
                Option::Some(m) => if m.inbound.len() > 0 {
                    batch_offset(m.inbound[0], o)
                } else {
                    o
                },
                Option::None => o,
            },
        ));
    } else {
        assert(conns.push(x)[0] == conns[0]);
        assert(conns.push(x).drop_first() =~= conns.drop_first().push(x));
        assert(conns_offset(conns.push(x), o) == conns_offset(conns.drop_first().push(x), step0));
        lemma_conns_offset_snoc(conns.drop_first(), x, step0);
        assert(conns_offset(conns, o) == conns_offset(conns.drop_first(), step0));
    }
}

proof fn lemma_conns_offset_inbound_congruent(a: Seq<ConnSubsModel>, b: Seq<ConnSubsModel>, o: u64)
    requires
        a.len() == b.len(),
        forall|c: int|
            0 <= c < a.len() ==> (((#[trigger] a[c]).net is Some) == (b[c].net is Some) && (a[c].net
                is Some ==> a[c].net->0.inbound == b[c].net->0.inbound)),
    ensures
        conns_offset(a, o) == conns_offset(b, o),
    decreases a.len(),
{
    if a.len() > 0 {
        assert(a[0].net is Some ==> a[0].net->0.inbound == b[0].net->0.inbound);
        assert forall|c: int|
            0 <= c < a.drop_first().len() implies (((#[trigger] a.drop_first()[c]).net is Some) == (
        b.drop_first()[c].net is Some) && (a.drop_first()[c].net is Some
            ==> a.drop_first()[c].net->0.inbound == b.drop_first()[c].net->0.inbound)) by {
            assert(a[c + 1].net is Some ==> a[c + 1].net->0.inbound == b[c + 1].net->0.inbound);
            assert((a[c + 1].net is Some) == (b[c + 1].net is Some));
        }
        lemma_conns_offset_inbound_congruent(a.drop_first(), b.drop_first(), (match a[0].net {
            Option::Some(m) => if m.inbound.len() > 0 {
                batch_offset(m.inbound[0], o)
            } else {
                o
            },
            Option::None => o,
        }));
    }
}

/// The cached peer subscription set after one batch's lists applied in
/// order: the last one wins.
pub open spec fn subs_after_batch(b: Seq<MsgPacketView>, s: Set<TargetMsg>) -> Set<TargetMsg>
    decreases b.len(),
{
    if b.len() == 0 {
        s
    } else {
        subs_after_batch(
            b.drop_first(),
            match b[0].msg {
                MsgView::SubList(lv) => lv.subs.to_set(),
                _ => s,
            },
        )
    }
}

/// Whether a subscription list has been received, after one batch.
pub open spec fn received_after_batch(b: Seq<MsgPacketView>, r: bool) -> bool
    decreases b.len(),
{
    if b.len() == 0 {
        r
    } else {
        received_after_batch(b.drop_first(), r || b[0].msg is SubList)
    }
}

proof fn lemma_subs_after_batch_snoc(b: Seq<MsgPacketView>, x: MsgPacketView, s: Set<TargetMsg>)
    ensures
        subs_after_batch(b.push(x), s) == (match x.msg {
            MsgView::SubList(lv) => lv.subs.to_set(),
            _ => subs_after_batch(b, s),
        }),
    decreases b.len(),
{
    if b.len() == 0 {
        assert(b.push(x)[0] == x);
        assert(b.push(x).drop_first() =~= Seq::<MsgPacketView>::empty());
        assert(subs_after_batch(b.push(x), s) == subs_after_batch(
            Seq::<MsgPacketView>::empty(),
            match x.msg {
                MsgView::SubList(lv) => lv.subs.to_set(),
                _ => s,
            },
        ));
    } else {
        assert(b.push(x)[0] == b[0]);
        assert(b.push(x).drop_first() =~= b.drop_first().push(x));
        let s1 = match b[0].msg {
            MsgView::SubList(lv) => lv.subs.to_set(),
            _ => s,
        };
        assert(subs_after_batch(b.push(x), s) == subs_after_batch(b.drop_first().push(x), s1));
        lemma_subs_after_batch_snoc(b.drop_first(), x, s1);
        assert(subs_after_batch(b, s) == subs_after_batch(b.drop_first(), s1));
    }
}

proof fn lemma_received_after_batch_snoc(b: Seq<MsgPacketView>, x: MsgPacketView, r: bool)
    ensures
        received_after_batch(b.push(x), r) == (received_after_batch(b, r) || x.msg is SubList),
    decreases b.len(),
{
    if b.len() == 0 {
        assert(b.push(x)[0] == x);
        assert(b.push(x).drop_first() =~= Seq::<MsgPacketView>::empty());
        assert(received_after_batch(b.push(x), r) == received_after_batch(
            Seq::<MsgPacketView>::empty(),
            r || x.msg is SubList,
        ));
    } else {
        assert(b.push(x)[0] == b[0]);
        assert(b.push(x).drop_first() =~= b.drop_first().push(x));
        assert(received_after_batch(b.push(x), r) == received_after_batch(
            b.drop_first().push(x),
            r || b[0].msg is SubList,
        ));
        lemma_received_after_batch_snoc(b.drop_first(), x, r || b[0].msg is SubList);
    }
}

/// What one ingress pass may do to a connector's observable queues: pop at
/// most the one polled batch, and append one subscription-list reply per
/// request that batch carried.
pub open spec fn ingress_log_ok(
    m: ConnectorModel,
    m2: ConnectorModel,
    union: Set<TargetMsg>,
    instance: Instance,
) -> bool {
    &&& m2.sent.len() >= m.sent.len()
    &&& m2.sent.take(m.sent.len() as int) == m.sent
    &&& forall|j: int|
        m.sent.len() <= j < m2.sent.len() ==> is_sub_reply(#[trigger] m2.sent[j], union, instance)
    &&& (m.inbound.len() == 0 ==> m2 == m)
    &&& (m.inbound.len() > 0 ==> m2.inbound == m.inbound.drop_first() && m2.sent.len()
        == m.sent.len() + m.inbound[0].filter(subreq_pred()).len())
}

proof fn lemma_filter_push<T>(s: Seq<T>, pred: spec_fn(T) -> bool, x: T)
    ensures
        pred(x) ==> s.push(x).filter(pred) == s.filter(pred).push(x),
        !pred(x) ==> s.push(x).filter(pred) == s.filter(pred),
{
    reveal(Seq::filter);
    assert(s.push(x).drop_last() =~= s);
    assert(s.push(x).last() == x);
    assert(s.push(x).len() == s.len() + 1);
}

/// The subscription union depends only on the apps' subscription sets.
proof fn lemma_union_depends_on_subs(a: Seq<AppModel>, b: Seq<AppModel>)
    requires
        a.len() == b.len(),
        forall|i: int| 0 <= i < a.len() ==> (#[trigger] a[i]).subs == b[i].subs,
    ensures
        apps_subs_union(a) == apps_subs_union(b),
    decreases a.len(),
{
    if a.len() > 0 {
        assert(a.drop_first().len() == b.drop_first().len());
        assert forall|i: int|
            0 <= i < a.drop_first().len() implies (#[trigger] a.drop_first()[i]).subs
            == b.drop_first()[i].subs by {
            assert(a[i + 1].subs == b[i + 1].subs);
        }
        lemma_union_depends_on_subs(a.drop_first(), b.drop_first());
        assert(apps_subs_union(a) =~= apps_subs_union(b));
    }
}

proof fn lemma_prefix_chain<T>(a: Seq<T>, b: Seq<T>, c: Seq<T>)
    requires
        a.len() <= b.len() <= c.len(),
        b.take(a.len() as int) == a,
        c.take(b.len() as int) == b,
    ensures
        c.take(a.len() as int) == a,
{
    assert(c.take(a.len() as int) =~= a) by {
        assert forall|i: int| 0 <= i < a.len() implies c.take(a.len() as int)[i] == a[i] by {
            assert(b.take(a.len() as int)[i] == a[i]);
            assert(c.take(b.len() as int)[i] == b[i]);
        }
    }
}

/// The tick batch: every app's outgoing-queue content at collection time,
/// concatenated in registration order.
pub open spec fn outbox_concat(apps: Seq<AppModel>) -> Seq<MsgPacketView>
    decreases apps.len(),
{
    if apps.len() == 0 {
        Seq::empty()
    } else {
        apps[0].outbox + outbox_concat(apps.drop_first())
    }
}

proof fn lemma_outbox_concat_snoc(apps: Seq<AppModel>, x: AppModel)
    ensures
        outbox_concat(apps.push(x)) == outbox_concat(apps) + x.outbox,
    decreases apps.len(),
{
    if apps.len() == 0 {
        assert(apps.push(x)[0] == x);
        assert(apps.push(x).drop_first() =~= Seq::<AppModel>::empty());
        assert(outbox_concat(apps.push(x)) == x.outbox + outbox_concat(Seq::<AppModel>::empty()));
        assert(outbox_concat(apps.push(x)) =~= outbox_concat(apps) + x.outbox);
    } else {
        assert(apps.push(x)[0] == apps[0]);
        assert(apps.push(x).drop_first() =~= apps.drop_first().push(x));
        assert(outbox_concat(apps.push(x)) == apps[0].outbox + outbox_concat(
            apps.drop_first().push(x),
        ));
        lemma_outbox_concat_snoc(apps.drop_first(), x);
        assert(outbox_concat(apps.push(x)) =~= outbox_concat(apps) + x.outbox);
    }
}

/// The callback phase's frame: registration data survives, handles carry
/// the tick's time record, an app only appends to its outgoing queue, and
/// a pending subscription change stays pending.
pub open spec fn tick_mid_frame(
    apps0: Seq<AppModel>,
    mid: Seq<AppModel>,
    counter: u64,
    offset: u64,
) -> bool {
    &&& mid.len() == apps0.len()
    &&& forall|i: int|
        0 <= i < mid.len() ==> {
            &&& (#[trigger] mid[i]).name == apps0[i].name
            &&& mid[i].app_rate == apps0[i].app_rate
            &&& mid[i].hk_rate == apps0[i].hk_rate
            &&& mid[i].out_data_rate == apps0[i].out_data_rate
            &&& mid[i].inst == apps0[i].inst
            &&& mid[i].time == (TimeData { sch_counter: counter, time_offset: offset })
            &&& mid[i].outbox.len() >= apps0[i].outbox.len()
            &&& mid[i].outbox.take(apps0[i].outbox.len() as int) == apps0[i].outbox
            &&& (apps0[i].subs_dirty ==> mid[i].subs_dirty)
        }
}

/// The fan-out phases' effect: each app's inbound queue grows by exactly
/// the locally produced packets its subscriptions select, then the
/// connector-delivered packets they select, and its change flag is
/// acknowledged.
pub open spec fn tick_fan_out(
    mid: Seq<AppModel>,
    batch: Seq<MsgPacketView>,
    ingress: Seq<MsgPacketView>,
    instance: Instance,
    apps1: Seq<AppModel>,
) -> bool {
    &&& apps1.len() == mid.len()
    &&& forall|i: int|
        0 <= i < mid.len() ==> #[trigger] apps1[i] == (AppModel {
            inbox: mid[i].inbox + batch.filter(local_pred(mid[i].subs, instance))
                + ingress.filter(ingress_pred(mid[i].subs)),
            outbox: Seq::<MsgPacketView>::empty(),
            subs_dirty: false,
            ..mid[i]
        })
}

/// The bookkeeping phase's effect: a subscription change during the tick
/// marks every peer's cached view stale, and a connector then due a request
/// per `subs_request_due` has the request tick recorded.
pub open spec fn tick_bookkeeping(
    pre6: Seq<ConnSubsModel>,
    mid: Seq<AppModel>,
    conns0: Seq<ConnSubsModel>,
    conns1: Seq<ConnSubsModel>,
    counter: u64,
) -> bool {
    &&& pre6.len() == conns0.len()
    &&& conns1.len() == conns0.len()
    &&& forall|c: int|
        0 <= c < pre6.len() ==> (#[trigger] pre6[c]).subs_last_requested
            == conns0[c].subs_last_requested
    &&& forall|c: int|
        0 <= c < pre6.len() ==> {
            let entry6 = ConnSubsModel {
                subs_received: pre6[c].subs_received && !(exists|i: int|
                    0 <= i < mid.len() && (#[trigger] mid[i]).subs_dirty),
                ..pre6[c]
            };
            let due = subs_request_due(entry6, counter);
            #[trigger] conns1[c] == (ConnSubsModel {
                subs_last_requested: if due {
                    counter
                } else {
                    pre6[c].subs_last_requested
                },
                net: conns1[c].net,
                ..entry6
            })
        }
}

/// The tick's connector traffic, observable wherever the connector is
/// modeled: the sent log keeps its past and gains, in order, the egress
/// selection exactly when it is non-empty, one subscription-list reply per
/// request in the polled batch, and the subscription request exactly when
/// one is due; exactly the one polled batch leaves the inbound queue.
pub open spec fn tick_traffic(
    conns0: Seq<ConnSubsModel>,
    conns1: Seq<ConnSubsModel>,
    batch: Seq<MsgPacketView>,
    mid: Seq<AppModel>,
    pre6: Seq<ConnSubsModel>,
    counter: u64,
    instance: Instance,
) -> bool {
    forall|c: int|
        0 <= c < conns0.len() && c < pre6.len() ==> (conns0[c].net matches Some(m) ==> ((
        #[trigger] conns1[c]).net matches Some(m2) && {
            let filtered = batch.filter(egress_pred(conns0[c].subs, instance));
            let polled = if m.inbound.len() > 0 {
                m.inbound[0]
            } else {
                Seq::empty()
            };
            let nreq = polled.filter(subreq_pred()).len() as int;
            let base = m.sent.len() + if filtered.len() > 0 {
                1int
            } else {
                0int
            };
            let entry6 = ConnSubsModel {
                subs_received: pre6[c].subs_received && !(exists|i: int|
                    0 <= i < mid.len() && (#[trigger] mid[i]).subs_dirty),
                ..pre6[c]
            };
            let due = subs_request_due(entry6, counter);
            &&& m2.inbound == (if m.inbound.len() > 0 {
                m.inbound.drop_first()
            } else {
                m.inbound
            })
            &&& m2.sent.len() == base + nreq + (if due {
                1int
            } else {
                0int
            })
            &&& m2.sent.take(m.sent.len() as int) == m.sent
            &&& (filtered.len() > 0 ==> m2.sent[m.sent.len() as int] == filtered)
            &&& (forall|j: int|
                base <= j < base + nreq ==> is_sub_reply(
                    #[trigger] m2.sent[j],
                    apps_subs_union(mid),
                    instance,
                ))
            &&& (due ==> m2.sent[base + nreq] == seq![
                MsgPacketView { instance, msg: MsgView::SubRequest, timestamp: 0 },
            ])
        }))
}

/// One tick's observable transition: for some tick batch, post-callback app
/// states, and connector-delivered packets, the six phases' effects hold.
pub open spec fn tick_transition(
    instance: Instance,
    counter: u64,
    offset: u64,
    apps0: Seq<AppModel>,
    conns0: Seq<ConnSubsModel>,
    apps1: Seq<AppModel>,
    conns1: Seq<ConnSubsModel>,
    offset1: u64,
) -> bool {
    exists|mid: Seq<AppModel>, ingress: Seq<MsgPacketView>, pre6: Seq<ConnSubsModel>|
        #![trigger mid.len(), ingress.len(), pre6.len()]
        {
            let batch = outbox_concat(mid);
            &&& tick_mid_frame(apps0, mid, counter, offset)
            &&& (forall|j: int| 0 <= j < ingress.len() ==> !is_control(#[trigger] ingress[j]))
            &&& tick_fan_out(mid, batch, ingress, instance, apps1)
            &&& tick_bookkeeping(pre6, mid, conns0, conns1, counter)
            &&& (forall|c: int|
                0 <= c < conns0.len() ==> ((#[trigger] conns0[c]).net matches Some(m) ==> {
                    let polled = if m.inbound.len() > 0 {
                        m.inbound[0]
                    } else {
                        Seq::empty()
                    };
                    pre6[c].subs == subs_after_batch(polled, conns0[c].subs)
                        && pre6[c].subs_received == received_after_batch(
                        polled,
                        conns0[c].subs_received,
                    )
                }))
            &&& tick_traffic(conns0, conns1, batch, mid, pre6, counter, instance)
            &&& ((exists|i: int| 0 <= i < apps0.len() && (#[trigger] apps0[i]).subs_dirty)
                ==> (forall|c: int|
                0 <= c < conns1.len() ==> !(#[trigger] conns1[c]).subs_received))
            &&& ((forall|c: int| 0 <= c < conns0.len() ==> (#[trigger] conns0[c]).net is Some)
                ==> offset1 == conns_offset(conns0, offset))
        }
}

/// Deliver to one app's inbound queue a clone of every batch packet its
/// subscription set asks for, in batch order (local fan-out rule).
fn deliver_local<D: TimeDriver + Copy>(rfe: &mut Rfe<D>, batch: &Vec<MsgPacket>, instance: Instance)
    ensures
        final(rfe).inbox() == old(rfe).inbox() + batch.deep_view().filter(
            local_pred(old(rfe).subs(), instance),
        ),
        final(rfe).subs() == old(rfe).subs(),
        final(rfe).outbox() == old(rfe).outbox(),
        final(rfe).subs_dirty() == old(rfe).subs_dirty(),
        final(rfe).same_identity(old(rfe)),
{
    let ghost bdv = batch.deep_view();
    let ghost pred = local_pred(old(rfe).subs(), instance);
    let mut j: usize = 0;
    while j < batch.len()
        invariant
            j <= batch@.len(),
            bdv == batch.deep_view(),
            bdv.len() == batch@.len(),
            pred == local_pred(old(rfe).subs(), instance),
            rfe.subs() == old(rfe).subs(),
            rfe.inbox() == old(rfe).inbox() + bdv.take(j as int).filter(pred),
            rfe.outbox() == old(rfe).outbox(),
            rfe.subs_dirty() == old(rfe).subs_dirty(),
            rfe.same_identity(old(rfe)),
        decreases batch@.len() - j,
    {
        let p = &batch[j];
        let target_self = TargetMsg { instance, msg: p.msg.kind() };
        let target_all = TargetMsg { instance: Instance::All, msg: p.msg.kind() };
        let wanted = rfe.subscribes(target_self) || rfe.subscribes(target_all);
        proof {
            assert(bdv[j as int] == batch@[j as int].deep_view());
            assert(wanted == pred(bdv[j as int]));
        }
        if wanted {
            rfe.post_message(p.clone());
        }
        proof {
            assert(bdv.take(j + 1) =~= bdv.take(j as int).push(bdv[j as int]));
            lemma_filter_push(bdv.take(j as int), pred, bdv[j as int]);
        }
        j = j + 1;
    }
    proof {
        assert(bdv.take(bdv.len() as int) =~= bdv);
    }
}

/// Deliver to one app's inbound queue a clone of every connector-inbound
/// packet its subscription set asks for, in arrival order (ingress fan-out
/// rule, which also honors the `Other` wildcard and the packet's own
/// sender).
fn deliver_ingress<D: TimeDriver + Copy>(rfe: &mut Rfe<D>, batch: &Vec<MsgPacket>)
    ensures
        final(rfe).inbox() == old(rfe).inbox() + batch.deep_view().filter(
            ingress_pred(old(rfe).subs()),
        ),
        final(rfe).subs() == old(rfe).subs(),
        final(rfe).outbox() == old(rfe).outbox(),
        final(rfe).subs_dirty() == old(rfe).subs_dirty(),
        final(rfe).same_identity(old(rfe)),
{
    let ghost bdv = batch.deep_view();
    let ghost pred = ingress_pred(old(rfe).subs());
    let mut j: usize = 0;
    while j < batch.len()
        invariant
            j <= batch@.len(),
            bdv == batch.deep_view(),
            bdv.len() == batch@.len(),
            pred == ingress_pred(old(rfe).subs()),
            rfe.subs() == old(rfe).subs(),
            rfe.inbox() == old(rfe).inbox() + bdv.take(j as int).filter(pred),
            rfe.outbox() == old(rfe).outbox(),
            rfe.subs_dirty() == old(rfe).subs_dirty(),
            rfe.same_identity(old(rfe)),
        decreases batch@.len() - j,
    {
        let p = &batch[j];
        let target_from = TargetMsg { instance: p.instance, msg: p.msg.kind() };
        let target_all = TargetMsg { instance: Instance::All, msg: p.msg.kind() };
        let target_other = TargetMsg { instance: Instance::Other, msg: p.msg.kind() };
        let wanted = rfe.subscribes(target_from) || rfe.subscribes(target_all) || rfe.subscribes(
            target_other,
        );
        proof {
            assert(bdv[j as int] == batch@[j as int].deep_view());
            assert(wanted == pred(bdv[j as int]));
        }
        if wanted {
            rfe.post_message(p.clone());
        }
        proof {
            assert(bdv.take(j + 1) =~= bdv.take(j as int).push(bdv[j as int]));
            lemma_filter_push(bdv.take(j as int), pred, bdv[j as int]);
        }
        j = j + 1;
    }
    proof {
        assert(bdv.take(bdv.len() as int) =~= bdv);
    }
}

/// Whether `t` occurs in `v`.
fn contains_target(v: &Vec<TargetMsg>, t: TargetMsg) -> (r: bool)
    ensures
        r == v@.to_set().contains(t),
{
    let mut i: usize = 0;
    while i < v.len()
        invariant
            i <= v@.len(),
            forall|j: int| 0 <= j < i ==> v@[j] != t,
        decreases v@.len() - i,
    {
        if v[i] == t {
            assert(v@.contains(t));
            return true;
        }
        i = i + 1;
    }
    proof {
        assert(!v@.contains(t));
    }
    false
}

/// Collect clones of the batch packets a connector's cached peer
/// subscription set asks for, in batch order (egress rule).
fn collect_egress(subs: &Vec<TargetMsg>, batch: &Vec<MsgPacket>, instance: Instance) -> (r: Vec<
    MsgPacket,
>)
    ensures
        r.deep_view() == batch.deep_view().filter(egress_pred(subs@.to_set(), instance)),
{
    let ghost bdv = batch.deep_view();
    let ghost pred = egress_pred(subs@.to_set(), instance);
    let mut r: Vec<MsgPacket> = Vec::new();
    let mut j: usize = 0;
    proof {
        assert(r.deep_view() =~= Seq::<MsgPacketView>::empty());
    }
    while j < batch.len()
        invariant
            j <= batch@.len(),
            bdv == batch.deep_view(),
            bdv.len() == batch@.len(),
            pred == egress_pred(subs@.to_set(), instance),
            r.deep_view() == bdv.take(j as int).filter(pred),
        decreases batch@.len() - j,
    {
        let p = &batch[j];
        let target_self = TargetMsg { instance, msg: p.msg.kind() };
        let target_all = TargetMsg { instance: Instance::All, msg: p.msg.kind() };
        let target_other = TargetMsg { instance: Instance::Other, msg: p.msg.kind() };
        let wanted = contains_target(subs, target_self) || contains_target(subs, target_all)
            || contains_target(subs, target_other);
        proof {
            assert(bdv[j as int] == batch@[j as int].deep_view());
            assert(wanted == pred(bdv[j as int]));
        }
        if wanted {
            let ghost rpre = r.deep_view();
            let c = p.clone();
            let ghost cdv = c.deep_view();
            r.push(c);
            proof {
                assert(r.deep_view() =~= rpre.push(cdv));
            }
        }
        proof {
            assert(bdv.take(j + 1) =~= bdv.take(j as int).push(bdv[j as int]));
            lemma_filter_push(bdv.take(j as int), pred, bdv[j as int]);
        }
        j = j + 1;
    }
    proof {
        assert(bdv.take(bdv.len() as int) =~= bdv);
    }
    r
}

impl<D: TimeDriver + Copy, A: App<D>, C: Connector> RfeInstance<D, A, C> {
    /// Phase one and two of a tick: refresh every handle's time record,
    /// invoke the due callbacks in registration order (`run`, `hk`,
    /// `out_data` per app), then drain every outgoing queue into one
    /// tick-local batch.
    fn tick_callbacks(&mut self)
        ensures
            final(self).apps().len() == old(self).apps().len(),
            forall|i: int|
                0 <= i < final(self).apps().len() ==> {
                    &&& (#[trigger] final(self).apps()[i]).name == old(self).apps()[i].name
                    &&& final(self).apps()[i].app_rate == old(self).apps()[i].app_rate
                    &&& final(self).apps()[i].hk_rate == old(self).apps()[i].hk_rate
                    &&& final(self).apps()[i].out_data_rate == old(self).apps()[i].out_data_rate
                    &&& final(self).apps()[i].inst == old(self).apps()[i].inst
                    &&& final(self).apps()[i].time == old(self).time()
                    &&& final(self).apps()[i].outbox.len() >= old(self).apps()[i].outbox.len()
                    &&& final(self).apps()[i].outbox.take(old(self).apps()[i].outbox.len() as int)
                        == old(self).apps()[i].outbox
                    &&& (old(self).apps()[i].subs_dirty ==> final(self).apps()[i].subs_dirty)
                },
            final(self).conns() == old(self).conns(),
            final(self).counter() == old(self).counter(),
            final(self).dispatches() == old(self).dispatches() + tick_dispatches(
                old(self).apps(),
                old(self).counter(),
            ),
            final(self).time() == old(self).time(),
            final(self).inst() == old(self).inst(),
            final(self).driver() == old(self).driver(),
    {
        let ghost pre = self.app_list.deep_view();
        let counter = self.sch_counter;
        let time_data = self.time_data;
        let mut done: Vec<AppEntry<D, A>> = Vec::new();
        proof {
            assert(self.app_list.deep_view() =~= pre.skip(0));
            assert(self.dispatches() + tick_dispatches_from(pre, 0, counter) == old(
                self,
            ).dispatches() + tick_dispatches(pre, counter));
        }
        while self.app_list.len() > 0
            invariant
                done@.len() + self.app_list@.len() == pre.len(),
                self.app_list.deep_view() == pre.skip(done@.len() as int),
                counter == old(self).counter(),
                time_data == old(self).time(),
                forall|j: int|
                    0 <= j < done@.len() ==> {
                        &&& (#[trigger] done.deep_view()[j]).name == pre[j].name
                        &&& done.deep_view()[j].app_rate == pre[j].app_rate
                        &&& done.deep_view()[j].hk_rate == pre[j].hk_rate
                        &&& done.deep_view()[j].out_data_rate == pre[j].out_data_rate
                        &&& done.deep_view()[j].inst == pre[j].inst
                        &&& done.deep_view()[j].time == old(self).time()
                        &&& done.deep_view()[j].outbox.len() >= pre[j].outbox.len()
                        &&& done.deep_view()[j].outbox.take(pre[j].outbox.len() as int)
                            == pre[j].outbox
                        &&& (pre[j].subs_dirty ==> done.deep_view()[j].subs_dirty)
                    },
                self.conns() == old(self).conns(),
                self.counter() == old(self).counter(),
                self.dispatches() + tick_dispatches_from(pre, done@.len() as int, counter)
                    == old(self).dispatches() + tick_dispatches(pre, counter),
                self.time() == old(self).time(),
                self.inst() == old(self).inst(),
                self.driver() == old(self).driver(),
                old(self).apps() == pre,
            decreases self.app_list@.len(),
        {
            let ghost suffix = self.app_list.deep_view();
            let mut entry = self.app_list.remove(0);
            proof {
                assert(self.app_list.deep_view() =~= suffix.skip(1));
                assert(suffix.skip(1) =~= pre.skip(done@.len() as int + 1));
                assert(suffix[0] == entry.deep_view());
                assert(pre.skip(done@.len() as int)[0] == pre[done@.len() as int]);
                assert(entry.deep_view() == pre[done@.len() as int]);
            }
            let ghost log_pre = self.dispatches();
            let ghost kidx = done@.len() as int;
            self.dispatch_log = Ghost(self.dispatch_log@ + app_dispatches(pre[kidx], kidx, counter));
            proof {
                assert(tick_dispatches_from(pre, kidx, counter) == app_dispatches(
                    pre[kidx],
                    kidx,
                    counter,
                ) + tick_dispatches_from(pre, kidx + 1, counter));
                assert(self.dispatches() + tick_dispatches_from(pre, kidx + 1, counter)
                    =~= log_pre + tick_dispatches_from(pre, kidx, counter));
            }
            entry.rfe.refresh_time(time_data);
            if rate_due(entry.app_rate, counter) {
                entry.app.run(&mut entry.rfe);
            }
            if rate_due(entry.hk_rate, counter) {
                entry.app.hk(&mut entry.rfe);
            }
            if rate_due(entry.out_data_rate, counter) {
                entry.app.out_data(&mut entry.rfe);
            }
            proof {
                assert(entry.rfe.outbox().take(pre[kidx].outbox.len() as int)
                    =~= pre[kidx].outbox) by {
                    if entry.rfe.outbox().len() > pre[kidx].outbox.len() {
                    }
                }
            }
            let ghost done_pre = done.deep_view();
            done.push(entry);
            proof {
                assert(done.deep_view() =~= done_pre.push(done@.last().deep_view()));
            }
        }
        proof {
            assert(done@.len() == pre.len());
            assert(tick_dispatches_from(pre, pre.len() as int, counter) =~= Seq::<
                CallRecord,
            >::empty());
            assert(self.dispatches() =~= self.dispatches() + Seq::<CallRecord>::empty());
        }
        self.app_list = done;
        proof {
            assert(self.apps().len() == pre.len());
        }
    }

    /// Phase two of a tick: drain every app's outgoing queue into one
    /// tick-local batch, in registration order.
    fn collect_outboxes(&mut self) -> (batch: Vec<MsgPacket>)
        ensures
            batch.deep_view() == outbox_concat(old(self).apps()),
            final(self).apps().len() == old(self).apps().len(),
            forall|i: int|
                0 <= i < final(self).apps().len() ==> #[trigger] final(self).apps()[i]
                    == (AppModel { outbox: Seq::<MsgPacketView>::empty(), ..old(self).apps()[i] }),
            final(self).conns() == old(self).conns(),
            final(self).counter() == old(self).counter(),
            final(self).dispatches() == old(self).dispatches(),
            final(self).time() == old(self).time(),
            final(self).inst() == old(self).inst(),
            final(self).driver() == old(self).driver(),
    {
        let ghost pre = self.app_list.deep_view();
        let mut batch: Vec<MsgPacket> = Vec::new();
        let mut done: Vec<AppEntry<D, A>> = Vec::new();
        proof {
            assert(self.app_list.deep_view() =~= pre.skip(0));
            assert(pre.take(0) =~= Seq::<AppModel>::empty());
            assert(batch.deep_view() =~= Seq::<MsgPacketView>::empty());
        }
        while self.app_list.len() > 0
            invariant
                done@.len() + self.app_list@.len() == pre.len(),
                self.app_list.deep_view() == pre.skip(done@.len() as int),
                batch.deep_view() == outbox_concat(pre.take(done@.len() as int)),
                forall|j: int|
                    0 <= j < done@.len() ==> #[trigger] done.deep_view()[j] == (AppModel {
                        outbox: Seq::<MsgPacketView>::empty(),
                        ..pre[j]
                    }),
                self.conns() == old(self).conns(),
                self.counter() == old(self).counter(),
                self.dispatches() == old(self).dispatches(),
                self.time() == old(self).time(),
                self.inst() == old(self).inst(),
                self.driver() == old(self).driver(),
                old(self).apps() == pre,
            decreases self.app_list@.len(),
        {
            let ghost suffix = self.app_list.deep_view();
            let ghost k = done@.len() as int;
            let mut entry = self.app_list.remove(0);
            proof {
                assert(self.app_list.deep_view() =~= suffix.skip(1));
                assert(suffix.skip(1) =~= pre.skip(k + 1));
                assert(suffix[0] == entry.deep_view());
                assert(pre.skip(k)[0] == pre[k]);
                assert(entry.deep_view() == pre[k]);
            }
            let ghost batch_pre = batch.deep_view();
            let mut outgoing = entry.rfe.take_outgoing();
            let ghost odv = outgoing.deep_view();
            batch.append(&mut outgoing);
            proof {
                assert(batch.deep_view() =~= batch_pre + odv);
                assert(pre.take(k + 1) =~= pre.take(k).push(pre[k]));
                lemma_outbox_concat_snoc(pre.take(k), pre[k]);
            }
            let ghost done_pre = done.deep_view();
            let ghost em = entry.deep_view();
            done.push(entry);
            proof {
                assert(done.deep_view() =~= done_pre.push(em));
                assert(em =~= (AppModel { outbox: Seq::<MsgPacketView>::empty(), ..pre[k] }));
            }
        }
        proof {
            assert(pre.take(pre.len() as int) =~= pre);
        }
        self.app_list = done;
        batch
    }

    /// Phase three of a tick: deliver a clone of each batch packet to every
    /// app whose subscription set asks for it, preserving batch order.
    fn fan_out_local(&mut self, batch: &Vec<MsgPacket>)
        ensures
            final(self).apps().len() == old(self).apps().len(),
            forall|i: int|
                0 <= i < final(self).apps().len() ==> #[trigger] final(self).apps()[i]
                    == (AppModel {
                    inbox: old(self).apps()[i].inbox + batch.deep_view().filter(
                        local_pred(old(self).apps()[i].subs, old(self).inst()),
                    ),
                    ..old(self).apps()[i]
                }),
            final(self).conns() == old(self).conns(),
            final(self).counter() == old(self).counter(),
            final(self).dispatches() == old(self).dispatches(),
            final(self).time() == old(self).time(),
            final(self).inst() == old(self).inst(),
            final(self).driver() == old(self).driver(),
    {
        let ghost pre = self.app_list.deep_view();
        let ghost bdv = batch.deep_view();
        let instance = self.instance;
        let mut done: Vec<AppEntry<D, A>> = Vec::new();
        proof {
            assert(self.app_list.deep_view() =~= pre.skip(0));
        }
        while self.app_list.len() > 0
            invariant
                done@.len() + self.app_list@.len() == pre.len(),
                self.app_list.deep_view() == pre.skip(done@.len() as int),
                bdv == batch.deep_view(),
                instance == old(self).inst(),
                forall|j: int|
                    0 <= j < done@.len() ==> #[trigger] done.deep_view()[j] == (AppModel {
                        inbox: pre[j].inbox + bdv.filter(local_pred(pre[j].subs, instance)),
                        ..pre[j]
                    }),
                self.conns() == old(self).conns(),
                self.counter() == old(self).counter(),
                self.dispatches() == old(self).dispatches(),
                self.time() == old(self).time(),
                self.inst() == old(self).inst(),
                self.driver() == old(self).driver(),
                old(self).apps() == pre,
            decreases self.app_list@.len(),
        {
            let ghost suffix = self.app_list.deep_view();
            let mut entry = self.app_list.remove(0);
            proof {
                assert(self.app_list.deep_view() =~= suffix.skip(1));
                assert(suffix.skip(1) =~= pre.skip(done@.len() as int + 1));
                assert(suffix[0] == entry.deep_view());
                assert(pre.skip(done@.len() as int)[0] == pre[done@.len() as int]);
                assert(entry.deep_view() == pre[done@.len() as int]);
            }
            deliver_local(&mut entry.rfe, batch, instance);
            let ghost done_pre = done.deep_view();
            let ghost em = entry.deep_view();
            done.push(entry);
            proof {
                assert(done.deep_view() =~= done_pre.push(em));
                assert(em =~= (AppModel {
                    inbox: pre[done@.len() as int - 1].inbox + bdv.filter(
                        local_pred(pre[done@.len() as int - 1].subs, instance),
                    ),
                    ..pre[done@.len() as int - 1]
                }));
            }
        }
        self.app_list = done;
    }
}

impl<D: TimeDriver + Copy, A: App<D>, C: Connector> RfeInstance<D, A, C> {
    /// Phase four of a tick: for each connector, collect the batch packets
    /// its cached peer subscription set asks for and, if any, hand them to
    /// the connector in one send.
    fn connector_egress(&mut self, batch: &Vec<MsgPacket>)
        ensures
            final(self).conns().len() == old(self).conns().len(),
            forall|i: int|
                0 <= i < final(self).conns().len() ==> {
                    let filtered = batch.deep_view().filter(
                        egress_pred(old(self).conns()[i].subs, old(self).inst()),
                    );
                    (#[trigger] final(self).conns()[i]) == (ConnSubsModel {
                        net: match old(self).conns()[i].net {
                            Option::Some(m) => Option::Some(
                                if filtered.len() > 0 {
                                    ConnectorModel {
                                        sent: m.sent.push(filtered),
                                        inbound: m.inbound,
                                    }
                                } else {
                                    m
                                },
                            ),
                            Option::None => final(self).conns()[i].net,
                        },
                        ..old(self).conns()[i]
                    })
                },
            final(self).apps() == old(self).apps(),
            final(self).counter() == old(self).counter(),
            final(self).dispatches() == old(self).dispatches(),
            final(self).time() == old(self).time(),
            final(self).inst() == old(self).inst(),
            final(self).driver() == old(self).driver(),
    {
        let ghost pre = self.connectors.deep_view();
        let ghost bdv = batch.deep_view();
        let instance = self.instance;
        let mut done: Vec<ConnectorState<C>> = Vec::new();
        proof {
            assert(self.connectors.deep_view() =~= pre.skip(0));
        }
        while self.connectors.len() > 0
            invariant
                done@.len() + self.connectors@.len() == pre.len(),
                self.connectors.deep_view() == pre.skip(done@.len() as int),
                bdv == batch.deep_view(),
                instance == old(self).inst(),
                forall|j: int|
                    0 <= j < done@.len() ==> {
                        let filtered = bdv.filter(egress_pred(pre[j].subs, instance));
                        (#[trigger] done.deep_view()[j]) == (ConnSubsModel {
                            net: match pre[j].net {
                                Option::Some(m) => Option::Some(
                                    if filtered.len() > 0 {
                                        ConnectorModel {
                                            sent: m.sent.push(filtered),
                                            inbound: m.inbound,
                                        }
                                    } else {
                                        m
                                    },
                                ),
                                Option::None => done.deep_view()[j].net,
                            },
                            ..pre[j]
                        })
                    },
                self.apps() == old(self).apps(),
                self.counter() == old(self).counter(),
                self.dispatches() == old(self).dispatches(),
                self.time() == old(self).time(),
                self.inst() == old(self).inst(),
                self.driver() == old(self).driver(),
                old(self).conns() == pre,
            decreases self.connectors@.len(),
        {
            let ghost suffix = self.connectors.deep_view();
            let ghost k = done@.len() as int;
            let mut cs = self.connectors.remove(0);
            proof {
                assert(self.connectors.deep_view() =~= suffix.skip(1));
                assert(suffix.skip(1) =~= pre.skip(k + 1));
                assert(suffix[0] == cs.deep_view());
                assert(pre.skip(k)[0] == pre[k]);
                assert(cs.deep_view() == pre[k]);
            }
            let to_send = collect_egress(&cs.subscriptions, batch, instance);
            proof {
                assert(cs.subscriptions@.to_set() == pre[k].subs);
            }
            if to_send.len() > 0 {
                cs.connector.send(to_send);
            }
            let ghost done_pre = done.deep_view();
            let ghost cm = cs.deep_view();
            done.push(cs);
            proof {
                assert(done.deep_view() =~= done_pre.push(cm));
            }
        }
        self.connectors = done;
    }
}

/// Whether the bookkeeping phase owes a connector a subscription request on
/// tick `counter`: re-request every `SUBS_RETRY_TICKS` while no list has
/// been received, refresh every `SUBS_REFRESH_TICKS` thereafter.
pub open spec fn subs_request_due(c: ConnSubsModel, counter: u64) -> bool {
    ||| (!c.subs_received && counter - c.subs_last_requested >= SUBS_RETRY_TICKS)
    ||| (c.subs_received && counter - c.subs_last_requested >= SUBS_REFRESH_TICKS)
}

/// Apply one inbound packet's control effect: a subscription list replaces
/// the connector's cached peer subscriptions, a time command sets the
/// shared epoch offset, and a subscription request is answered on the spot
/// with the given reply batch. Any other packet does nothing here.
fn handle_control<C: Connector>(
    cs: &mut ConnectorState<C>,
    time_data: &mut TimeData,
    p: &MsgPacket,
    reply: &Vec<MsgPacket>,
)
    ensures
        p.deep_view().msg matches MsgView::SubList(lv) ==> final(cs).deep_view() == (ConnSubsModel {
            subs: lv.subs.to_set(),
            subs_received: true,
            ..old(cs).deep_view()
        }) && *final(time_data) == *old(time_data),
        p.deep_view().msg is SetTimeCmd ==> final(cs).deep_view() == old(cs).deep_view(),
        p.deep_view().msg matches MsgView::SetTimeCmd(t) ==> *final(time_data) == (TimeData {
            time_offset: t,
            ..*old(time_data)
        }),
        p.deep_view().msg is SubRequest ==> *final(time_data) == *old(time_data)
            && final(cs).deep_view() == (ConnSubsModel {
            net: match old(cs).deep_view().net {
                Option::Some(m) => Option::Some(
                    ConnectorModel { sent: m.sent.push(reply.deep_view()), inbound: m.inbound },
                ),
                Option::None => final(cs).deep_view().net,
            },
            ..old(cs).deep_view()
        }),
        !(p.deep_view().msg is SubList || p.deep_view().msg is SetTimeCmd || p.deep_view().msg
            is SubRequest) ==> final(cs).deep_view() == old(cs).deep_view() && *final(time_data)
            == *old(time_data),
        final(cs).deep_view().subs_last_requested == old(cs).deep_view().subs_last_requested,
{
    broadcast use vstd::std_specs::vec::vec_clone_deep_view_proof;

    match &p.msg {
        Msg::SubList(list) => {
            let subs = list.subs.clone();
            proof {
                assert(subs.deep_view() =~= subs@);
                assert(list.subs.deep_view() =~= list.subs@);
                assert(subs@.to_set() =~= p.deep_view().msg->SubList_0.subs.to_set());
            }
            cs.subscriptions = subs;
            cs.subs_received = true;
        },
        Msg::SetTimeCmd(t) => {
            time_data.time_offset = *t;
        },
        Msg::SubRequest => {
            let r = reply.clone();
            proof {
                assert(r.deep_view() =~= reply.deep_view());
            }
            cs.connector.send(r);
        },
        _ => {},
    }
}

/// The union of the apps' subscription sets.
pub open spec fn apps_subs_union(apps: Seq<AppModel>) -> Set<TargetMsg>
    decreases apps.len(),
{
    if apps.len() == 0 {
        Set::empty()
    } else {
        apps[0].subs.union(apps_subs_union(apps.drop_first()))
    }
}

proof fn lemma_apps_subs_union_snoc(apps: Seq<AppModel>, x: AppModel)
    ensures
        apps_subs_union(apps.push(x)) == apps_subs_union(apps).union(x.subs),
    decreases apps.len(),
{
    if apps.len() == 0 {
        assert(apps.push(x)[0] == x);
        assert(apps.push(x).drop_first() =~= Seq::<AppModel>::empty());
        assert(apps_subs_union(apps.push(x)) == x.subs.union(apps_subs_union(
            Seq::<AppModel>::empty(),
        )));
        assert(apps_subs_union(apps.push(x)) =~= apps_subs_union(apps).union(x.subs));
    } else {
        assert(apps.push(x).drop_first() =~= apps.drop_first().push(x));
        lemma_apps_subs_union_snoc(apps.drop_first(), x);
        assert(apps.push(x)[0] == apps[0]);
        assert(apps_subs_union(apps.push(x)) == apps[0].subs.union(
            apps_subs_union(apps.drop_first()).union(x.subs),
        ));
        assert(apps_subs_union(apps.push(x)) =~= apps_subs_union(apps).union(x.subs));
    }
}

impl<D: TimeDriver + Copy, A: App<D>, C: Connector> RfeInstance<D, A, C> {
    /// The union of every app's current subscriptions, as one list (the
    /// payload of a subscription-request reply).
    fn all_subscriptions(&self) -> (r: Vec<TargetMsg>)
        ensures
            r@.to_set() == apps_subs_union(self.apps()),
    {
        let mut r: Vec<TargetMsg> = Vec::new();
        let mut i: usize = 0;
        proof {
            assert(self.apps().take(0) =~= Seq::<AppModel>::empty());
            assert(r@.to_set() =~= apps_subs_union(self.apps().take(0)));
        }
        while i < self.app_list.len()
            invariant
                i <= self.app_list@.len(),
                self.apps().len() == self.app_list@.len(),
                r@.to_set() == apps_subs_union(self.apps().take(i as int)),
            decreases self.app_list@.len() - i,
        {
            let mut part = self.app_list[i].rfe.subs_vec();
            let ghost rpre = r@;
            let ghost partv = part@;
            r.append(&mut part);
            proof {
                broadcast use vstd::seq_lib::lemma_seq_concat_contains_all_elements;

                assert(r@ == rpre + partv);
                assert(r@.to_set() =~= rpre.to_set().union(partv.to_set()));
                assert(partv.to_set() == self.apps()[i as int].subs);
                assert(self.apps().take(i + 1) =~= self.apps().take(i as int).push(
                    self.apps()[i as int],
                ));
                lemma_apps_subs_union_snoc(self.apps().take(i as int), self.apps()[i as int]);
            }
            i = i + 1;
        }
        proof {
            assert(self.apps().take(self.apps().len() as int) =~= self.apps());
        }
        r
    }

    /// Phase five of a tick: poll every connector once, apply control
    /// packets (a subscription list replaces the cached peer set, a time
    /// command sets the epoch offset, a subscription request is answered on
    /// the spot), and collect the remaining packets into one tick-local
    /// batch, in arrival order.
    fn connector_ingress(&mut self) -> (inbound: Vec<MsgPacket>)
        ensures
            final(self).apps() == old(self).apps(),
            final(self).conns().len() == old(self).conns().len(),
            forall|i: int|
                0 <= i < final(self).conns().len() ==> (#[trigger] final(self).conns()[i]).subs_last_requested
                    == old(self).conns()[i].subs_last_requested,
            forall|i: int|
                0 <= i < final(self).conns().len() ==> (old(self).conns()[i].net matches Some(m)
                    ==> ((#[trigger] final(self).conns()[i]).net matches Some(m2)
                    && ingress_log_ok(
                    m,
                    m2,
                    apps_subs_union(old(self).apps()),
                    old(self).inst(),
                ) && final(self).conns()[i].subs == subs_after_batch(
                    if m.inbound.len() > 0 {
                        m.inbound[0]
                    } else {
                        Seq::empty()
                    },
                    old(self).conns()[i].subs,
                ) && final(self).conns()[i].subs_received == received_after_batch(
                    if m.inbound.len() > 0 {
                        m.inbound[0]
                    } else {
                        Seq::empty()
                    },
                    old(self).conns()[i].subs_received,
                ))),
            forall|j: int|
                0 <= j < inbound.deep_view().len() ==> !is_control(
                    #[trigger] inbound.deep_view()[j],
                ),
            (forall|c: int| 0 <= c < old(self).conns().len() ==> (#[trigger] old(self).conns()[c]).net is Some)
                ==> final(self).time().time_offset == conns_offset(
                old(self).conns(),
                old(self).time().time_offset,
            ),
            final(self).counter() == old(self).counter(),
            final(self).dispatches() == old(self).dispatches(),
            final(self).time().sch_counter == old(self).time().sch_counter,
            final(self).inst() == old(self).inst(),
            final(self).driver() == old(self).driver(),
    {
        let ghost union = apps_subs_union(old(self).apps());
        let ghost offset0 = self.time_data.time_offset;
        let subs_union = self.all_subscriptions();
        let ghost rsubs = subs_union@;
        let reply_msg = Msg::SubList(SubList { subs: subs_union });
        proof {
            assert(rsubs.to_set() == union);
            assert(reply_msg.deep_view() matches MsgView::SubList(lv) && lv.subs =~= rsubs);
        }
        let ghost rmdv = reply_msg.deep_view();
        let reply_pkt = MsgPacket::new(self.instance, reply_msg, 0);
        let ghost rdv = reply_pkt.deep_view();
        let mut reply: Vec<MsgPacket> = Vec::new();
        reply.push(reply_pkt);
        proof {
            assert(reply.deep_view() =~= seq![rdv]);
            assert(rdv.msg == rmdv);
            assert(is_sub_reply(reply.deep_view(), union, old(self).inst()));
        }
        let mut inbound: Vec<MsgPacket> = Vec::new();
        let ghost pre = self.connectors.deep_view();
        let mut done: Vec<ConnectorState<C>> = Vec::new();
        proof {
            assert(self.connectors.deep_view() =~= pre.skip(0));
            assert(pre.take(0) =~= Seq::<ConnSubsModel>::empty());
        }
        while self.connectors.len() > 0
            invariant
                done@.len() + self.connectors@.len() == pre.len(),
                self.connectors.deep_view() == pre.skip(done@.len() as int),
                is_sub_reply(reply.deep_view(), union, old(self).inst()),
                union == apps_subs_union(old(self).apps()),
                offset0 == old(self).time().time_offset,
                (forall|c: int| 0 <= c < pre.len() ==> (#[trigger] pre[c]).net is Some)
                    ==> self.time().time_offset == conns_offset(
                    pre.take(done@.len() as int),
                    offset0,
                ),
                forall|j: int|
                    0 <= j < done@.len() ==> (#[trigger] done.deep_view()[j]).subs_last_requested
                        == pre[j].subs_last_requested,
                forall|j: int|
                    0 <= j < done@.len() ==> (pre[j].net matches Some(m) ==> ((
                    #[trigger] done.deep_view()[j]).net matches Some(m2) && ingress_log_ok(
                        m,
                        m2,
                        union,
                        old(self).inst(),
                    ) && done.deep_view()[j].subs == subs_after_batch(
                        if m.inbound.len() > 0 {
                            m.inbound[0]
                        } else {
                            Seq::empty()
                        },
                        pre[j].subs,
                    ) && done.deep_view()[j].subs_received == received_after_batch(
                        if m.inbound.len() > 0 {
                            m.inbound[0]
                        } else {
                            Seq::empty()
                        },
                        pre[j].subs_received,
                    ))),
                forall|j: int|
                    0 <= j < inbound.deep_view().len() ==> !is_control(
                        #[trigger] inbound.deep_view()[j],
                    ),
                self.apps() == old(self).apps(),
                self.counter() == old(self).counter(),
                self.dispatches() == old(self).dispatches(),
                self.time().sch_counter == old(self).time().sch_counter,
                self.inst() == old(self).inst(),
                self.driver() == old(self).driver(),
                old(self).conns() == pre,
            decreases self.connectors@.len(),
        {
            let ghost suffix = self.connectors.deep_view();
            let ghost k = done@.len() as int;
            let mut cs = self.connectors.remove(0);
            proof {
                assert(self.connectors.deep_view() =~= suffix.skip(1));
                assert(suffix.skip(1) =~= pre.skip(k + 1));
                assert(suffix[0] == cs.deep_view());
                assert(pre.skip(k)[0] == pre[k]);
                assert(cs.deep_view() == pre[k]);
            }
            match cs.connector.recv() {
                Option::None => {
                    proof {
                        if pre[k].net is Some {
                            let m0 = pre[k].net->0;
                            assert(m0.inbound.len() == 0);
                            assert(ingress_log_ok(m0, m0, union, old(self).inst())) by {
                                assert(m0.sent.take(m0.sent.len() as int) =~= m0.sent);
                            }
                            assert(pre.take(k + 1) =~= pre.take(k).push(pre[k]));
                            lemma_conns_offset_snoc(pre.take(k), pre[k], offset0);
                        }
                    }
                },
                Option::Some(msgs) => {
                    let ghost bdv = msgs.deep_view();
                    let ghost off_entry = self.time_data.time_offset;
                    proof {
                        if pre[k].net is Some {
                            let m0 = pre[k].net->0;
                            assert(bdv == m0.inbound[0]);
                            assert(bdv.take(0).filter(subreq_pred()) =~= Seq::<
                                MsgPacketView,
                            >::empty());
                            assert(bdv.take(0) =~= Seq::<MsgPacketView>::empty());
                            let mc = cs.deep_view().net->0;
                            assert(mc.sent.take(m0.sent.len() as int) =~= m0.sent);
                        }
                    }
                    let mut m: usize = 0;
                    while m < msgs.len()
                        invariant
                            m <= msgs@.len(),
                            bdv == msgs.deep_view(),
                            bdv.len() == msgs@.len(),
                            is_sub_reply(reply.deep_view(), union, old(self).inst()),
                            cs.deep_view().subs_last_requested == pre[k as int].subs_last_requested,
                            pre[k as int].net matches Some(m0) ==> (cs.deep_view().net
                                matches Some(mc) && {
                                &&& mc.inbound == m0.inbound.drop_first()
                                &&& mc.sent.len() == m0.sent.len() + bdv.take(m as int).filter(
                                    subreq_pred(),
                                ).len()
                                &&& mc.sent.take(m0.sent.len() as int) == m0.sent
                                &&& forall|j: int|
                                    m0.sent.len() <= j < mc.sent.len() ==> is_sub_reply(
                                        #[trigger] mc.sent[j],
                                        union,
                                        old(self).inst(),
                                    )
                                &&& cs.deep_view().subs == subs_after_batch(
                                    bdv.take(m as int),
                                    pre[k as int].subs,
                                )
                                &&& cs.deep_view().subs_received == received_after_batch(
                                    bdv.take(m as int),
                                    pre[k as int].subs_received,
                                )
                            }),
                            forall|j: int|
                                0 <= j < inbound.deep_view().len() ==> !is_control(
                                    #[trigger] inbound.deep_view()[j],
                                ),
                            pre[k as int].net is Some ==> self.time().time_offset == batch_offset(
                                bdv.take(m as int),
                                off_entry,
                            ),
                            self.time().sch_counter == old(self).time().sch_counter,
                            self.apps() == old(self).apps(),
                            self.counter() == old(self).counter(),
                            self.dispatches() == old(self).dispatches(),
                            self.inst() == old(self).inst(),
                            self.driver() == old(self).driver(),
                            self.connectors.deep_view() == pre.skip(k + 1),
                            old(self).conns() == pre,
                            0 <= k < pre.len(),
                        decreases msgs@.len() - m,
                    {
                        let p = &msgs[m];
                        proof {
                            assert(bdv[m as int] == msgs@[m as int].deep_view());
                        }
                        handle_control(&mut cs, &mut self.time_data, p, &reply);
                        let control = match &p.msg {
                            Msg::SubList(_) => true,
                            Msg::SetTimeCmd(_) => true,
                            Msg::SubRequest => true,
                            _ => false,
                        };
                        proof {
                            assert(control == is_control(bdv[m as int]));
                            assert(bdv.take(m + 1) =~= bdv.take(m as int).push(bdv[m as int]));
                            lemma_filter_push(bdv.take(m as int), subreq_pred(), bdv[m as int]);
                            if pre[k as int].net is Some {
                                lemma_batch_offset_snoc(bdv.take(m as int), bdv[m as int], off_entry);
                                lemma_subs_after_batch_snoc(
                                    bdv.take(m as int),
                                    bdv[m as int],
                                    pre[k as int].subs,
                                );
                                lemma_received_after_batch_snoc(
                                    bdv.take(m as int),
                                    bdv[m as int],
                                    pre[k as int].subs_received,
                                );
                            }
                        }
                        if !control {
                            let ghost inb_pre = inbound.deep_view();
                            inbound.push(p.clone());
                            proof {
                                assert(inbound.deep_view() =~= inb_pre.push(
                                    inbound@[inbound@.len() - 1].deep_view(),
                                ));
                            }
                        }
                        m = m + 1;
                    }
                    proof {
                        assert(bdv.take(bdv.len() as int) =~= bdv);
                        if pre[k as int].net is Some {
                            let m0 = pre[k as int].net->0;
                            let mc = cs.deep_view().net->0;
                            assert(ingress_log_ok(m0, mc, union, old(self).inst()));
                            assert(self.time().time_offset == batch_offset(bdv, off_entry));
                            assert(pre.take(k + 1) =~= pre.take(k).push(pre[k as int]));
                            lemma_conns_offset_snoc(pre.take(k), pre[k as int], offset0);
                        }
                    }
                },
            }
            let ghost done_pre = done.deep_view();
            let ghost cm = cs.deep_view();
            done.push(cs);
            proof {
                assert(done.deep_view() =~= done_pre.push(cm));
            }
        }
        proof {
            if forall|c: int| 0 <= c < pre.len() ==> (#[trigger] pre[c]).net is Some {
                assert(pre.take(pre.len() as int) =~= pre);
            }
        }
        self.connectors = done;
        inbound
    }

    /// Phase five's tail: deliver a clone of each connector-inbound packet
    /// to every app whose subscription set asks for it.
    fn fan_out_ingress(&mut self, batch: &Vec<MsgPacket>)
        ensures
            final(self).apps().len() == old(self).apps().len(),
            forall|i: int|
                0 <= i < final(self).apps().len() ==> #[trigger] final(self).apps()[i]
                    == (AppModel {
                    inbox: old(self).apps()[i].inbox + batch.deep_view().filter(
                        ingress_pred(old(self).apps()[i].subs),
                    ),
                    ..old(self).apps()[i]
                }),
            final(self).conns() == old(self).conns(),
            final(self).counter() == old(self).counter(),
            final(self).dispatches() == old(self).dispatches(),
            final(self).time() == old(self).time(),
            final(self).inst() == old(self).inst(),
            final(self).driver() == old(self).driver(),
    {
        let ghost pre = self.app_list.deep_view();
        let ghost bdv = batch.deep_view();
        let mut done: Vec<AppEntry<D, A>> = Vec::new();
        proof {
            assert(self.app_list.deep_view() =~= pre.skip(0));
        }
        while self.app_list.len() > 0
            invariant
                done@.len() + self.app_list@.len() == pre.len(),
                self.app_list.deep_view() == pre.skip(done@.len() as int),
                bdv == batch.deep_view(),
                forall|j: int|
                    0 <= j < done@.len() ==> #[trigger] done.deep_view()[j] == (AppModel {
                        inbox: pre[j].inbox + bdv.filter(ingress_pred(pre[j].subs)),
                        ..pre[j]
                    }),
                self.conns() == old(self).conns(),
                self.counter() == old(self).counter(),
                self.dispatches() == old(self).dispatches(),
                self.time() == old(self).time(),
                self.inst() == old(self).inst(),
                self.driver() == old(self).driver(),
                old(self).apps() == pre,
            decreases self.app_list@.len(),
        {
            let ghost suffix = self.app_list.deep_view();
            let mut entry = self.app_list.remove(0);
            proof {
                assert(self.app_list.deep_view() =~= suffix.skip(1));
                assert(suffix.skip(1) =~= pre.skip(done@.len() as int + 1));
                assert(suffix[0] == entry.deep_view());
                assert(pre.skip(done@.len() as int)[0] == pre[done@.len() as int]);
                assert(entry.deep_view() == pre[done@.len() as int]);
            }
            deliver_ingress(&mut entry.rfe, batch);
            let ghost done_pre = done.deep_view();
            let ghost em = entry.deep_view();
            done.push(entry);
            proof {
                assert(done.deep_view() =~= done_pre.push(em));
                assert(em =~= (AppModel {
                    inbox: pre[done@.len() as int - 1].inbox + bdv.filter(
                        ingress_pred(pre[done@.len() as int - 1].subs),
                    ),
                    ..pre[done@.len() as int - 1]
                }));
            }
        }
        self.app_list = done;
    }

    /// Phase six, first half: if any app's subscriptions changed this tick,
    /// every connector's cached view is stale; mark them all unsynchronized
    /// and acknowledge the changes.
    fn note_sub_changes(&mut self)
        ensures
            final(self).apps().len() == old(self).apps().len(),
            forall|i: int|
                0 <= i < final(self).apps().len() ==> #[trigger] final(self).apps()[i]
                    == (AppModel { subs_dirty: false, ..old(self).apps()[i] }),
            final(self).conns().len() == old(self).conns().len(),
            (exists|i: int|
                0 <= i < old(self).apps().len() && (#[trigger] old(self).apps()[i]).subs_dirty)
                ==> forall|c: int|
                0 <= c < final(self).conns().len() ==> #[trigger] final(self).conns()[c]
                    == (ConnSubsModel { subs_received: false, ..old(self).conns()[c] }),
            !(exists|i: int|
                0 <= i < old(self).apps().len() && (#[trigger] old(self).apps()[i]).subs_dirty)
                ==> final(self).conns() == old(self).conns(),
            final(self).counter() == old(self).counter(),
            final(self).dispatches() == old(self).dispatches(),
            final(self).time() == old(self).time(),
            final(self).inst() == old(self).inst(),
            final(self).driver() == old(self).driver(),
    {
        let mut any_dirty = false;
        let mut i: usize = 0;
        while i < self.app_list.len()
            invariant
                i <= self.app_list@.len(),
                any_dirty == exists|j: int|
                    0 <= j < i && (#[trigger] self.apps()[j]).subs_dirty,
            decreases self.app_list@.len() - i,
        {
            if self.app_list[i].rfe.dirty() {
                any_dirty = true;
            }
            proof {
                assert(self.apps()[i as int].subs_dirty == self.app_list@[i as int].rfe.subs_dirty());
            }
            i = i + 1;
        }
        if any_dirty {
            let ghost cpre = self.connectors.deep_view();
            let mut cdone: Vec<ConnectorState<C>> = Vec::new();
            proof {
                assert(self.connectors.deep_view() =~= cpre.skip(0));
            }
            while self.connectors.len() > 0
                invariant
                    cdone@.len() + self.connectors@.len() == cpre.len(),
                    self.connectors.deep_view() == cpre.skip(cdone@.len() as int),
                    forall|j: int|
                        0 <= j < cdone@.len() ==> #[trigger] cdone.deep_view()[j]
                            == (ConnSubsModel { subs_received: false, ..cpre[j] }),
                    self.apps() == old(self).apps(),
                    self.counter() == old(self).counter(),
                self.dispatches() == old(self).dispatches(),
                    self.time() == old(self).time(),
                    self.inst() == old(self).inst(),
                    self.driver() == old(self).driver(),
                    old(self).conns() == cpre,
                decreases self.connectors@.len(),
            {
                let ghost suffix = self.connectors.deep_view();
                let ghost k = cdone@.len() as int;
                let mut cs = self.connectors.remove(0);
                proof {
                    assert(self.connectors.deep_view() =~= suffix.skip(1));
                    assert(suffix.skip(1) =~= cpre.skip(k + 1));
                    assert(suffix[0] == cs.deep_view());
                    assert(cpre.skip(k)[0] == cpre[k]);
                    assert(cs.deep_view() == cpre[k]);
                }
                cs.subs_received = false;
                let ghost done_pre = cdone.deep_view();
                let ghost cm = cs.deep_view();
                cdone.push(cs);
                proof {
                    assert(cdone.deep_view() =~= done_pre.push(cm));
                }
            }
            self.connectors = cdone;
        }
        let ghost conns_mid = self.conns();
        let ghost pre = self.app_list.deep_view();
        let mut done: Vec<AppEntry<D, A>> = Vec::new();
        proof {
            assert(self.app_list.deep_view() =~= pre.skip(0));
            assert(pre == old(self).apps());
        }
        while self.app_list.len() > 0
            invariant
                done@.len() + self.app_list@.len() == pre.len(),
                self.app_list.deep_view() == pre.skip(done@.len() as int),
                forall|j: int|
                    0 <= j < done@.len() ==> #[trigger] done.deep_view()[j] == (AppModel {
                        subs_dirty: false,
                        ..pre[j]
                    }),
                self.conns() == conns_mid,
                self.counter() == old(self).counter(),
                self.dispatches() == old(self).dispatches(),
                self.time() == old(self).time(),
                self.inst() == old(self).inst(),
                self.driver() == old(self).driver(),
            decreases self.app_list@.len(),
        {
            let ghost suffix = self.app_list.deep_view();
            let mut entry = self.app_list.remove(0);
            proof {
                assert(self.app_list.deep_view() =~= suffix.skip(1));
                assert(suffix.skip(1) =~= pre.skip(done@.len() as int + 1));
                assert(suffix[0] == entry.deep_view());
                assert(pre.skip(done@.len() as int)[0] == pre[done@.len() as int]);
                assert(entry.deep_view() == pre[done@.len() as int]);
            }
            entry.rfe.clear_dirty();
            let ghost done_pre = done.deep_view();
            let ghost em = entry.deep_view();
            done.push(entry);
            proof {
                assert(done.deep_view() =~= done_pre.push(em));
                assert(em =~= (AppModel { subs_dirty: false, ..pre[done@.len() as int - 1] }));
            }
        }
        self.app_list = done;
    }

    /// Phase six, second half: request the peer's subscription list on
    /// every connector that is due one, and record the request tick.
    fn request_subscriptions(&mut self)
        requires
            forall|c: int|
                0 <= c < old(self).conns().len() ==> (#[trigger] old(self).conns()[c]).subs_last_requested
                    <= old(self).counter(),
        ensures
            final(self).conns().len() == old(self).conns().len(),
            forall|c: int|
                0 <= c < final(self).conns().len() ==> {
                    let oc = old(self).conns()[c];
                    let due = subs_request_due(oc, old(self).counter());
                    (#[trigger] final(self).conns()[c]) == (ConnSubsModel {
                        subs_last_requested: if due {
                            old(self).counter()
                        } else {
                            oc.subs_last_requested
                        },
                        net: match oc.net {
                            Option::Some(m) => Option::Some(
                                if due {
                                    ConnectorModel {
                                        sent: m.sent.push(
                                            seq![
                                                MsgPacketView {
                                                    instance: old(self).inst(),
                                                    msg: MsgView::SubRequest,
                                                    timestamp: 0,
                                                },
                                            ],
                                        ),
                                        inbound: m.inbound,
                                    }
                                } else {
                                    m
                                },
                            ),
                            Option::None => final(self).conns()[c].net,
                        },
                        ..oc
                    })
                },
            final(self).apps() == old(self).apps(),
            final(self).counter() == old(self).counter(),
            final(self).dispatches() == old(self).dispatches(),
            final(self).time() == old(self).time(),
            final(self).inst() == old(self).inst(),
            final(self).driver() == old(self).driver(),
    {
        broadcast use vstd::std_specs::vec::vec_clone_deep_view_proof;

        let counter = self.sch_counter;
        let request_pkt = MsgPacket::new(self.instance, Msg::SubRequest, 0);
        let mut request: Vec<MsgPacket> = Vec::new();
        request.push(request_pkt);
        let ghost reqdv = seq![
            MsgPacketView { instance: self.inst(), msg: MsgView::SubRequest, timestamp: 0 },
        ];
        proof {
            assert(request.deep_view() =~= reqdv);
        }
        let ghost pre = self.connectors.deep_view();
        let mut done: Vec<ConnectorState<C>> = Vec::new();
        proof {
            assert(self.connectors.deep_view() =~= pre.skip(0));
        }
        while self.connectors.len() > 0
            invariant
                done@.len() + self.connectors@.len() == pre.len(),
                self.connectors.deep_view() == pre.skip(done@.len() as int),
                counter == old(self).counter(),
                request.deep_view() == reqdv,
                reqdv == seq![
                    MsgPacketView {
                        instance: old(self).inst(),
                        msg: MsgView::SubRequest,
                        timestamp: 0,
                    },
                ],
                forall|j: int|
                    0 <= j < done@.len() ==> {
                        let oc = pre[j];
                        let due = subs_request_due(oc, old(self).counter());
                        (#[trigger] done.deep_view()[j]) == (ConnSubsModel {
                            subs_last_requested: if due {
                                old(self).counter()
                            } else {
                                oc.subs_last_requested
                            },
                            net: match oc.net {
                                Option::Some(m) => Option::Some(
                                    if due {
                                        ConnectorModel {
                                            sent: m.sent.push(reqdv),
                                            inbound: m.inbound,
                                        }
                                    } else {
                                        m
                                    },
                                ),
                                Option::None => done.deep_view()[j].net,
                            },
                            ..oc
                        })
                    },
                forall|c: int|
                    0 <= c < pre.len() ==> (#[trigger] pre[c]).subs_last_requested <= old(
                        self,
                    ).counter(),
                self.apps() == old(self).apps(),
                self.counter() == old(self).counter(),
                self.dispatches() == old(self).dispatches(),
                self.time() == old(self).time(),
                self.inst() == old(self).inst(),
                self.driver() == old(self).driver(),
                old(self).conns() == pre,
            decreases self.connectors@.len(),
        {
            let ghost suffix = self.connectors.deep_view();
            let ghost k = done@.len() as int;
            let mut cs = self.connectors.remove(0);
            proof {
                assert(self.connectors.deep_view() =~= suffix.skip(1));
                assert(suffix.skip(1) =~= pre.skip(k + 1));
                assert(suffix[0] == cs.deep_view());
                assert(pre.skip(k)[0] == pre[k]);
                assert(cs.deep_view() == pre[k]);
            }
            let due = (!cs.subs_received && counter - cs.subs_last_requested >= SUBS_RETRY_TICKS)
                || (cs.subs_received && counter - cs.subs_last_requested >= SUBS_REFRESH_TICKS);
            proof {
                assert(due == subs_request_due(pre[k], old(self).counter()));
            }
            if due {
                let r = request.clone();
                proof {
                    assert(r.deep_view() =~= request.deep_view());
                }
                cs.connector.send(r);
                cs.subs_last_requested = counter;
            }
            let ghost done_pre = done.deep_view();
            let ghost cm = cs.deep_view();
            done.push(cs);
            proof {
                assert(done.deep_view() =~= done_pre.push(cm));
            }
        }
        self.connectors = done;
    }

    /// One scheduler tick, expected to be driven at one hundred per second:
    /// dispatch the due callbacks, fan locally produced packets out to apps
    /// and connectors, poll the connectors and fan their packets in, keep
    /// the peers' subscription views fresh, and advance the tick counter.
    pub fn run(&mut self)
        requires
            old(self).wf(),
            old(self).counter() < u64::MAX,
        ensures
            final(self).wf(),
            final(self).counter() == old(self).counter() + 1,
            final(self).time().sch_counter == final(self).counter(),
            final(self).inst() == old(self).inst(),
            final(self).driver() == old(self).driver(),
            final(self).apps().len() == old(self).apps().len(),
            forall|i: int|
                0 <= i < final(self).apps().len() ==> {
                    &&& (#[trigger] final(self).apps()[i]).name == old(self).apps()[i].name
                    &&& final(self).apps()[i].app_rate == old(self).apps()[i].app_rate
                    &&& final(self).apps()[i].hk_rate == old(self).apps()[i].hk_rate
                    &&& final(self).apps()[i].out_data_rate == old(self).apps()[i].out_data_rate
                    &&& final(self).apps()[i].outbox == Seq::<MsgPacketView>::empty()
                    &&& !final(self).apps()[i].subs_dirty
                },
            final(self).conns().len() == old(self).conns().len(),
            final(self).dispatches() == old(self).dispatches() + tick_dispatches(
                old(self).apps(),
                old(self).counter(),
            ),
            tick_transition(
                old(self).inst(),
                old(self).counter(),
                old(self).time().time_offset,
                old(self).apps(),
                old(self).conns(),
                final(self).apps(),
                final(self).conns(),
                final(self).time().time_offset,
            ),
    {
        self.time_data.sch_counter = self.sch_counter;
        let ghost apps0 = self.apps();
        let ghost conns0 = self.conns();
        self.tick_callbacks();
        let ghost mid = self.apps();
        let batch = self.collect_outboxes();
        let ghost bdv = batch.deep_view();
        let ghost midc = self.apps();
        self.fan_out_local(&batch);
        let ghost post3 = self.apps();
        self.connector_egress(&batch);
        let ghost post4 = self.conns();
        let inbound = self.connector_ingress();
        let ghost idv = inbound.deep_view();
        let ghost post5 = self.conns();
        let ghost post5apps = self.apps();
        self.fan_out_ingress(&inbound);
        let ghost pre6 = self.conns();
        let ghost pre6apps = self.apps();
        self.note_sub_changes();
        let ghost noted = self.conns();
        self.request_subscriptions();
        self.sch_counter = self.sch_counter + 1;
        self.time_data.sch_counter = self.sch_counter;
        proof {
            let instance = old(self).inst();
            let counter = old(self).counter();
            // the callback phase's frame
            assert(tick_mid_frame(apps0, mid, counter, old(self).time().time_offset));
            // fan-out composition: local filter, then ingress filter, then
            // the acknowledged change flags
            assert(bdv == outbox_concat(mid));
            assert(tick_fan_out(mid, bdv, idv, instance, self.apps())) by {
                assert forall|i: int| 0 <= i < mid.len() implies #[trigger] self.apps()[i]
                    == (AppModel {
                    inbox: mid[i].inbox + bdv.filter(local_pred(mid[i].subs, instance))
                        + idv.filter(ingress_pred(mid[i].subs)),
                    outbox: Seq::<MsgPacketView>::empty(),
                    subs_dirty: false,
                    ..mid[i]
                }) by {
                    assert(midc[i] == (AppModel {
                        outbox: Seq::<MsgPacketView>::empty(),
                        ..mid[i]
                    }));
                    assert(post3[i] == (AppModel {
                        inbox: midc[i].inbox + bdv.filter(local_pred(midc[i].subs, instance)),
                        ..midc[i]
                    }));
                    assert(pre6apps[i] == (AppModel {
                        inbox: post3[i].inbox + idv.filter(ingress_pred(post3[i].subs)),
                        ..post3[i]
                    }));
                    assert(self.apps()[i] =~= (AppModel {
                        inbox: mid[i].inbox + bdv.filter(local_pred(mid[i].subs, instance))
                            + idv.filter(ingress_pred(mid[i].subs)),
                        outbox: Seq::<MsgPacketView>::empty(),
                        subs_dirty: false,
                        ..mid[i]
                    }));
                }
            }
            // bookkeeping composition: the stale marking and the recorded
            // request ticks
            let flushed = exists|i: int| 0 <= i < mid.len() && (#[trigger] mid[i]).subs_dirty;
            assert((exists|i: int|
                0 <= i < pre6apps.len() && (#[trigger] pre6apps[i]).subs_dirty) == flushed) by {
                if flushed {
                    let i = choose|i: int| 0 <= i < mid.len() && (#[trigger] mid[i]).subs_dirty;
                    assert(pre6apps[i].subs_dirty);
                }
                if exists|i: int| 0 <= i < pre6apps.len() && (#[trigger] pre6apps[i]).subs_dirty {
                    let i = choose|i: int|
                        0 <= i < pre6apps.len() && (#[trigger] pre6apps[i]).subs_dirty;
                    assert(mid[i].subs_dirty);
                }
            }
            assert(tick_bookkeeping(pre6, mid, conns0, self.conns(), counter)) by {
                assert forall|c: int| 0 <= c < pre6.len() implies {
                    let entry6 = ConnSubsModel {
                        subs_received: pre6[c].subs_received && !flushed,
                        ..pre6[c]
                    };
                    let due = subs_request_due(entry6, counter);
                    #[trigger] self.conns()[c] == (ConnSubsModel {
                        subs_last_requested: if due {
                            counter
                        } else {
                            pre6[c].subs_last_requested
                        },
                        net: self.conns()[c].net,
                        ..entry6
                    })
                } by {
                    let entry6 = ConnSubsModel {
                        subs_received: pre6[c].subs_received && !flushed,
                        ..pre6[c]
                    };
                    assert(noted[c] =~= entry6);
                    assert(self.conns()[c] =~= (ConnSubsModel {
                        subs_last_requested: if subs_request_due(entry6, counter) {
                            counter
                        } else {
                            pre6[c].subs_last_requested
                        },
                        net: self.conns()[c].net,
                        ..entry6
                    }));
                }
            }
            // traffic composition: egress, then exactly one reply per polled
            // request, then the subscription request exactly when due, over
            // a log that keeps its past
            assert(apps_subs_union(post3) == apps_subs_union(mid)) by {
                lemma_union_depends_on_subs(post3, mid);
            }
            // the phase-six entry bookkeeping follows the polled batch on
            // modeled connectors
            assert forall|c: int|
                0 <= c < conns0.len() && conns0[c].net is Some implies {
                let m = conns0[c].net->0;
                let polled = if m.inbound.len() > 0 {
                    m.inbound[0]
                } else {
                    Seq::<MsgPacketView>::empty()
                };
                (#[trigger] pre6[c]).subs == subs_after_batch(polled, conns0[c].subs)
                    && pre6[c].subs_received == received_after_batch(
                    polled,
                    conns0[c].subs_received,
                )
            } by {
                let m = conns0[c].net->0;
                let m4 = post4[c].net->0;
                assert(m4.inbound == m.inbound);
                assert(post4[c].subs == conns0[c].subs);
                assert(post4[c].subs_received == conns0[c].subs_received);
            }
            assert(tick_traffic(conns0, self.conns(), bdv, mid, pre6, counter, instance)) by {
                assert forall|c: int|
                    0 <= c < conns0.len() && c < pre6.len() && conns0[c].net is Some implies ((
                #[trigger] self.conns()[c]).net matches Some(m2) && {
                    let m = conns0[c].net->0;
                    let filtered = bdv.filter(egress_pred(conns0[c].subs, instance));
                    let polled = if m.inbound.len() > 0 {
                        m.inbound[0]
                    } else {
                        Seq::<MsgPacketView>::empty()
                    };
                    let nreq = polled.filter(subreq_pred()).len() as int;
                    let base = m.sent.len() + if filtered.len() > 0 {
                        1int
                    } else {
                        0int
                    };
                    let entry6 = ConnSubsModel {
                        subs_received: pre6[c].subs_received && !(exists|i: int|
                            0 <= i < mid.len() && (#[trigger] mid[i]).subs_dirty),
                        ..pre6[c]
                    };
                    let due = subs_request_due(entry6, counter);
                    &&& m2.inbound == (if m.inbound.len() > 0 {
                        m.inbound.drop_first()
                    } else {
                        m.inbound
                    })
                    &&& m2.sent.len() == base + nreq + (if due {
                        1int
                    } else {
                        0int
                    })
                    &&& m2.sent.take(m.sent.len() as int) == m.sent
                    &&& (filtered.len() > 0 ==> m2.sent[m.sent.len() as int] == filtered)
                    &&& (forall|j: int|
                        base <= j < base + nreq ==> is_sub_reply(
                            #[trigger] m2.sent[j],
                            apps_subs_union(mid),
                            instance,
                        ))
                    &&& (due ==> m2.sent[base + nreq] == seq![
                        MsgPacketView { instance, msg: MsgView::SubRequest, timestamp: 0 },
                    ])
                }) by {
                    let m = conns0[c].net->0;
                    let filtered = bdv.filter(egress_pred(conns0[c].subs, instance));
                    let polled = if m.inbound.len() > 0 {
                        m.inbound[0]
                    } else {
                        Seq::<MsgPacketView>::empty()
                    };
                    let nreq = polled.filter(subreq_pred()).len() as int;
                    let m4 = post4[c].net->0;
                    let m5 = pre6[c].net->0;
                    let m2 = self.conns()[c].net->0;
                    let base = m.sent.len() + if filtered.len() > 0 {
                        1int
                    } else {
                        0int
                    };
                    let entry6 = ConnSubsModel {
                        subs_received: pre6[c].subs_received && !flushed,
                        ..pre6[c]
                    };
                    let due = subs_request_due(entry6, counter);
                    assert(m4 == if filtered.len() > 0 {
                        ConnectorModel { sent: m.sent.push(filtered), inbound: m.inbound }
                    } else {
                        m
                    });
                    assert(m4.sent.len() == base);
                    assert(ingress_log_ok(m4, m5, apps_subs_union(post3), instance));
                    assert(m5.sent.len() == base + nreq && m5.inbound == (if m.inbound.len() > 0 {
                        m.inbound.drop_first()
                    } else {
                        m.inbound
                    })) by {
                        if m.inbound.len() == 0 {
                            assert(m5 == m4);
                            assert(polled.filter(subreq_pred()) =~= Seq::<MsgPacketView>::empty());
                        }
                    }
                    assert(noted[c].net == pre6[c].net);
                    assert(noted[c] =~= entry6);
                    // the request phase appends the request exactly when due
                    assert(m2.sent == (if due {
                        m5.sent.push(
                            seq![MsgPacketView { instance, msg: MsgView::SubRequest, timestamp: 0 }],
                        )
                    } else {
                        m5.sent
                    }));
                    assert(m2.inbound == m5.inbound);
                    assert(m2.sent.len() == base + nreq + (if due {
                        1int
                    } else {
                        0int
                    }));
                    assert(m4.sent.take(m.sent.len() as int) =~= m.sent);
                    lemma_prefix_chain(m.sent, m4.sent, m5.sent);
                    assert(m2.sent.take(m5.sent.len() as int) =~= m5.sent);
                    lemma_prefix_chain(m.sent, m5.sent, m2.sent);
                    if filtered.len() > 0 {
                        assert(m4.sent[m.sent.len() as int] == filtered);
                        assert(m5.sent.take(m4.sent.len() as int)[m.sent.len() as int]
                            == m4.sent[m.sent.len() as int]);
                        assert(m5.sent[m.sent.len() as int] == filtered);
                        assert(m2.sent.take(m5.sent.len() as int)[m.sent.len() as int]
                            == m5.sent[m.sent.len() as int]);
                        assert(m2.sent[m.sent.len() as int] == filtered);
                    }
                    assert forall|j: int| base <= j < base + nreq implies is_sub_reply(
                        #[trigger] m2.sent[j],
                        apps_subs_union(mid),
                        instance,
                    ) by {
                        assert(m2.sent.take(m5.sent.len() as int)[j] == m5.sent[j]);
                        assert(is_sub_reply(m5.sent[j], apps_subs_union(post3), instance));
                    }
                    if due {
                        assert(m2.sent[base + nreq] == seq![
                            MsgPacketView { instance, msg: MsgView::SubRequest, timestamp: 0 },
                        ]);
                    }
                }
            }
            // the time command's tick-level visibility, where every
            // connector is modeled
            assert((forall|c: int| 0 <= c < conns0.len() ==> (#[trigger] conns0[c]).net is Some)
                ==> self.time().time_offset == conns_offset(
                conns0,
                old(self).time().time_offset,
            )) by {
                if forall|c: int| 0 <= c < conns0.len() ==> (#[trigger] conns0[c]).net is Some {
                    assert forall|c: int|
                        0 <= c < post4.len() implies (((#[trigger] post4[c]).net is Some) == (
                    conns0[c].net is Some) && (post4[c].net is Some ==> post4[c].net->0.inbound
                        == conns0[c].net->0.inbound)) by {
                        assert(conns0[c].net is Some);
                    }
                    lemma_conns_offset_inbound_congruent(
                        post4,
                        conns0,
                        old(self).time().time_offset,
                    );
                }
            }
            assert((exists|i: int| 0 <= i < apps0.len() && (#[trigger] apps0[i]).subs_dirty)
                ==> (forall|c: int|
                0 <= c < self.conns().len() ==> !(#[trigger] self.conns()[c]).subs_received)) by {
                if exists|i: int| 0 <= i < apps0.len() && (#[trigger] apps0[i]).subs_dirty {
                    let i = choose|i: int|
                        0 <= i < apps0.len() && (#[trigger] apps0[i]).subs_dirty;
                    assert(mid[i].subs_dirty);
                    assert(flushed);
                }
            }
            assert(tick_transition(
                instance,
                counter,
                old(self).time().time_offset,
                apps0,
                conns0,
                self.apps(),
                self.conns(),
                self.time().time_offset,
            )) by {
                assert(mid.len() >= 0 && idv.len() >= 0 && pre6.len() >= 0);
            }
        }
    }

    /// The tick counter's current value.
    pub fn tick_count(&self) -> (r: u64)
        ensures
            r == self.counter(),
    {
        self.sch_counter
    }

    /// Borrow a registered app, by registration index.
    pub fn get_app(&self, index: usize) -> (r: Option<&A>)
        ensures
            (r is Some) == (index < self.apps().len()),
    {
        if index < self.app_list.len() {
            Some(&self.app_list[index].app)
        } else {
            None
        }
    }

    /// Borrow a registered connector mutably, by registration index. The
    /// caller owns whatever it does to the connector's queues.
    pub fn connector_mut(&mut self, index: usize) -> (r: Option<&mut C>)
        ensures
            (r is Some) == (index < old(self).conns().len()),
    {
        if index < self.connectors.len() {
            Some(&mut self.connectors[index].connector)
        } else {
            None
        }
    }
}

} // verus!
