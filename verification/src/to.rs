//! The telemetry-downlink app: per-set decimated forwarding of matching
//! packets to a single downlink connector, reconfigured at runtime by
//! command.
use crate::connector::{Connector, ConnectorModel};
use crate::handle::Rfe;
use crate::msg::{Instance, Msg, MsgKind, MsgPacket, MsgPacketView, MsgView, TargetMsg, TlmSetId, TlmSetItem, ToCmd,
    ToCmdView, ToHk, ToOutData, ToTlmSet, ToTlmSetView};
use crate::sched::{App, Rate, RfeError};
use crate::time::TimeDriver;
use crate::tlm::{item_selects, items_select_count, lemma_items_select_count_snoc, match_item};
use crate::utils::PerfData;
use vstd::prelude::*;

verus! {

/// One telemetry set's targets, in item order.
pub open spec fn to_set_targets(s: ToTlmSetView) -> Seq<TargetMsg> {
    s.items.map_values(|it: TlmSetItem| it.target)
}

/// The targets of every enabled set, in set order.
pub open spec fn to_enabled_targets_seq(sets: Seq<ToTlmSetView>) -> Seq<TargetMsg>
    decreases sets.len(),
{
    if sets.len() == 0 {
        Seq::empty()
    } else {
        (if sets[0].enabled {
            to_set_targets(sets[0])
        } else {
            Seq::empty()
        }) + to_enabled_targets_seq(sets.drop_first())
    }
}

/// The subscription set a downlink configuration asks for: the union of
/// the targets of every enabled set's items.
pub open spec fn to_enabled_targets(sets: Seq<ToTlmSetView>) -> Set<TargetMsg> {
    to_enabled_targets_seq(sets).to_set()
}

/// Whether the sets carry pairwise distinct identifiers (spec-wise, a
/// telemetry-set collection is a mapping keyed by identifier).
pub open spec fn to_unique_ids(sets: Seq<ToTlmSetView>) -> bool {
    forall|i: int, j: int| 0 <= i < j < sets.len() ==> (#[trigger] sets[i]).id != #[trigger] sets[j].id
}

/// Whether some set carries this identifier.
pub open spec fn to_has_set_id(sets: Seq<ToTlmSetView>, id: TlmSetId) -> bool {
    exists|i: int| 0 <= i < sets.len() && (#[trigger] sets[i]).id == id
}

/// Every enabled set's items after one packet with routing key `t` ran
/// against them; disabled sets are untouched.
pub open spec fn to_advance_sets(sets: Seq<ToTlmSetView>, t: TargetMsg) -> Seq<ToTlmSetView> {
    Seq::new(
        sets.len(),
        |i: int|
            if sets[i].enabled {
                ToTlmSetView { items: crate::ds::advance_items(sets[i].items, t), ..sets[i] }
            } else {
                sets[i]
            },
    )
}

/// The sets after draining `inbox`, each non-command packet run against
/// every enabled set in turn.
pub open spec fn to_sets_after(sets: Seq<ToTlmSetView>, inbox: Seq<MsgPacketView>) -> Seq<
    ToTlmSetView,
>
    decreases inbox.len(),
{
    if inbox.len() == 0 {
        sets
    } else {
        to_sets_after(to_advance_sets(sets, inbox[0].to_target()), inbox.drop_first())
    }
}

/// Whether the drained queue carries a downlink command addressed to this
/// instance.
pub open spec fn has_to_cmd(inbox: Seq<MsgPacketView>, instance: Instance) -> bool {
    exists|j: int|
        0 <= j < inbox.len() && (#[trigger] inbox[j]).msg is ToCmd && inbox[j].instance == instance
}

/// How many selecting items (over all enabled sets) one packet with
/// routing key `t` meets: the number of copies it contributes to the
/// downlink egress batch.
pub open spec fn to_select_count(sets: Seq<ToTlmSetView>, t: TargetMsg) -> nat
    decreases sets.len(),
{
    if sets.len() == 0 {
        0
    } else {
        (if sets[0].enabled {
            items_select_count(sets[0].items, t)
        } else {
            0nat
        }) + to_select_count(sets.drop_first(), t)
    }
}

proof fn lemma_to_select_count_snoc(sets: Seq<ToTlmSetView>, x: ToTlmSetView, t: TargetMsg)
    ensures
        to_select_count(sets.push(x), t) == to_select_count(sets, t) + (if x.enabled {
            items_select_count(x.items, t)
        } else {
            0nat
        }),
    decreases sets.len(),
{
    if sets.len() == 0 {
        assert(sets.push(x)[0] == x);
        assert(sets.push(x).drop_first() =~= Seq::<ToTlmSetView>::empty());
        assert(to_select_count(sets.push(x), t) == (if x.enabled {
            items_select_count(x.items, t)
        } else {
            0nat
        }) + to_select_count(Seq::<ToTlmSetView>::empty(), t));
    } else {
        assert(sets.push(x)[0] == sets[0]);
        assert(sets.push(x).drop_first() =~= sets.drop_first().push(x));
        assert(to_select_count(sets.push(x), t) == (if sets[0].enabled {
            items_select_count(sets[0].items, t)
        } else {
            0nat
        }) + to_select_count(sets.drop_first().push(x), t));
        lemma_to_select_count_snoc(sets.drop_first(), x, t);
    }
}

/// The downlink egress batch one drain produces: each packet, in drain
/// order, repeated once per item that selects it, with the sets advancing
/// between packets.
pub open spec fn to_egress_after(sets: Seq<ToTlmSetView>, inbox: Seq<MsgPacketView>) -> Seq<
    MsgPacketView,
>
    decreases inbox.len(),
{
    if inbox.len() == 0 {
        Seq::empty()
    } else {
        Seq::new(to_select_count(sets, inbox[0].to_target()) as nat, |j: int| inbox[0])
            + to_egress_after(to_advance_sets(sets, inbox[0].to_target()), inbox.drop_first())
    }
}

proof fn lemma_to_egress_after_snoc(
    sets: Seq<ToTlmSetView>,
    s: Seq<MsgPacketView>,
    x: MsgPacketView,
)
    ensures
        to_egress_after(sets, s.push(x)) == to_egress_after(sets, s) + Seq::new(
            to_select_count(to_sets_after(sets, s), x.to_target()) as nat,
            |j: int| x,
        ),
    decreases s.len(),
{
    if s.len() == 0 {
        assert(s.push(x)[0] == x);
        assert(s.push(x).drop_first() =~= Seq::<MsgPacketView>::empty());
        assert(to_egress_after(sets, s.push(x)) == Seq::new(
            to_select_count(sets, x.to_target()) as nat,
            |j: int| x,
        ) + to_egress_after(to_advance_sets(sets, x.to_target()), Seq::<MsgPacketView>::empty()));
        assert(to_egress_after(sets, s.push(x)) =~= to_egress_after(sets, s) + Seq::new(
            to_select_count(to_sets_after(sets, s), x.to_target()) as nat,
            |j: int| x,
        ));
    } else {
        assert(s.push(x)[0] == s[0]);
        assert(s.push(x).drop_first() =~= s.drop_first().push(x));
        let sets1 = to_advance_sets(sets, s[0].to_target());
        assert(to_egress_after(sets, s.push(x)) == Seq::new(
            to_select_count(sets, s[0].to_target()) as nat,
            |j: int| s[0],
        ) + to_egress_after(sets1, s.drop_first().push(x)));
        lemma_to_egress_after_snoc(sets1, s.drop_first(), x);
        assert(to_sets_after(sets, s) == to_sets_after(sets1, s.drop_first()));
        assert(to_egress_after(sets, s.push(x)) =~= to_egress_after(sets, s) + Seq::new(
            to_select_count(to_sets_after(sets, s), x.to_target()) as nat,
            |j: int| x,
        ));
    }
}

/// All batches' packets, in batch order then packet order: what posting
/// every inbound downlink batch leaves on the bus handle.
pub open spec fn batches_flat(bs: Seq<Seq<MsgPacketView>>) -> Seq<MsgPacketView>
    decreases bs.len(),
{
    if bs.len() == 0 {
        Seq::empty()
    } else {
        bs[0] + batches_flat(bs.drop_first())
    }
}

proof fn lemma_batches_flat_snoc(bs: Seq<Seq<MsgPacketView>>, x: Seq<MsgPacketView>)
    ensures
        batches_flat(bs.push(x)) == batches_flat(bs) + x,
    decreases bs.len(),
{
    if bs.len() == 0 {
        assert(bs.push(x)[0] == x);
        assert(bs.push(x).drop_first() =~= Seq::<Seq<MsgPacketView>>::empty());
        assert(batches_flat(bs.push(x)) == x + batches_flat(Seq::<Seq<MsgPacketView>>::empty()));
        assert(batches_flat(bs.push(x)) =~= batches_flat(bs) + x);
    } else {
        assert(bs.push(x)[0] == bs[0]);
        assert(bs.push(x).drop_first() =~= bs.drop_first().push(x));
        assert(batches_flat(bs.push(x)) == bs[0] + batches_flat(bs.drop_first().push(x)));
        lemma_batches_flat_snoc(bs.drop_first(), x);
        assert(batches_flat(bs.push(x)) =~= batches_flat(bs) + x);
    }
}

proof fn lemma_to_sets_after_snoc(sets: Seq<ToTlmSetView>, s: Seq<MsgPacketView>, x: MsgPacketView)
    ensures
        to_sets_after(sets, s.push(x)) == to_advance_sets(to_sets_after(sets, s), x.to_target()),
    decreases s.len(),
{
    if s.len() == 0 {
        assert(s.push(x)[0] == x);
        assert(s.push(x).drop_first() =~= Seq::<MsgPacketView>::empty());
        assert(to_sets_after(sets, s.push(x)) == to_sets_after(
            to_advance_sets(sets, x.to_target()),
            Seq::<MsgPacketView>::empty(),
        ));
    } else {
        assert(s.push(x)[0] == s[0]);
        assert(s.push(x).drop_first() =~= s.drop_first().push(x));
        assert(to_sets_after(sets, s.push(x)) == to_sets_after(
            to_advance_sets(sets, s[0].to_target()),
            s.drop_first().push(x),
        ));
        lemma_to_sets_after_snoc(to_advance_sets(sets, s[0].to_target()), s.drop_first(), x);
    }
}

proof fn lemma_to_enabled_targets_snoc(sets: Seq<ToTlmSetView>, x: ToTlmSetView)
    ensures
        to_enabled_targets_seq(sets.push(x)) == to_enabled_targets_seq(sets) + (if x.enabled {
            to_set_targets(x)
        } else {
            Seq::<TargetMsg>::empty()
        }),
    decreases sets.len(),
{
    if sets.len() == 0 {
        assert(sets.push(x)[0] == x);
        assert(sets.push(x).drop_first() =~= Seq::<ToTlmSetView>::empty());
        assert(to_enabled_targets_seq(sets.push(x)) == (if x.enabled {
            to_set_targets(x)
        } else {
            Seq::<TargetMsg>::empty()
        }) + to_enabled_targets_seq(Seq::<ToTlmSetView>::empty()));
        assert(to_enabled_targets_seq(sets.push(x)) =~= to_enabled_targets_seq(sets) + (
        if x.enabled {
            to_set_targets(x)
        } else {
            Seq::<TargetMsg>::empty()
        }));
    } else {
        assert(sets.push(x).drop_first() =~= sets.drop_first().push(x));
        lemma_to_enabled_targets_snoc(sets.drop_first(), x);
        assert(sets.push(x)[0] == sets[0]);
        assert(to_enabled_targets_seq(sets.push(x)) == (if sets[0].enabled {
            to_set_targets(sets[0])
        } else {
            Seq::<TargetMsg>::empty()
        }) + (to_enabled_targets_seq(sets.drop_first()) + (if x.enabled {
            to_set_targets(x)
        } else {
            Seq::<TargetMsg>::empty()
        })));
        assert(to_enabled_targets_seq(sets.push(x)) =~= to_enabled_targets_seq(sets) + (
        if x.enabled {
            to_set_targets(x)
        } else {
            Seq::<TargetMsg>::empty()
        }));
    }
}

/// Collect the targets of every enabled set.
fn to_collect_enabled_targets(sets: &Vec<ToTlmSet>) -> (r: Vec<TargetMsg>)
    ensures
        r@ == to_enabled_targets_seq(sets.deep_view()),
{
    let ghost sdv = sets.deep_view();
    let mut r: Vec<TargetMsg> = Vec::new();
    let mut i: usize = 0;
    proof {
        assert(sdv.take(0) =~= Seq::<ToTlmSetView>::empty());
    }
    while i < sets.len()
        invariant
            i <= sets@.len(),
            sdv == sets.deep_view(),
            sdv.len() == sets@.len(),
            r@ == to_enabled_targets_seq(sdv.take(i as int)),
        decreases sets@.len() - i,
    {
        let ghost before = r@;
        if sets[i].enabled {
            let items = &sets[i].items;
            let mut j: usize = 0;
            while j < items.len()
                invariant
                    j <= items@.len(),
                    items@ == sets@[i as int].items@,
                    i < sets@.len(),
                    sdv == sets.deep_view(),
                    sdv.len() == sets@.len(),
                    r@ == before + to_set_targets(sdv[i as int]).take(j as int),
                decreases items@.len() - j,
            {
                r.push(items[j].target);
                proof {
                    assert(to_set_targets(sdv[i as int]).take(j + 1) =~= to_set_targets(
                        sdv[i as int],
                    ).take(j as int).push(to_set_targets(sdv[i as int])[j as int]));
                    assert(to_set_targets(sdv[i as int])[j as int] == items@[j as int].target);
                }
                j = j + 1;
            }
            proof {
                assert(to_set_targets(sdv[i as int]).take(items@.len() as int) =~= to_set_targets(
                    sdv[i as int],
                ));
            }
        }
        proof {
            assert(sdv.take(i + 1) =~= sdv.take(i as int).push(sdv[i as int]));
            lemma_to_enabled_targets_snoc(sdv.take(i as int), sdv[i as int]);
            assert(r@ =~= to_enabled_targets_seq(sdv.take(i + 1)));
        }
        i = i + 1;
    }
    proof {
        assert(sdv.take(sdv.len() as int) =~= sdv);
    }
    r
}

/// The downlink app's telemetry counters.
#[derive(Clone, Copy, PartialEq, Debug, Structural, Eq)]
pub struct ToData {
    pub out_data: ToOutData,
    pub hk: ToHk,
}

/// The telemetry-downlink app.
pub struct To<C: Connector> {
    data: ToData,
    connector: C,
    tlm_sets: Vec<ToTlmSet>,
}

/// The downlink app's counters after a reset.
pub open spec fn to_data_zero() -> ToData {
    ToData {
        out_data: ToOutData { counter: 0 },
        hk: ToHk { perf: PerfData { enter_time: 0, elapsed: 0, rate: 0 }, counter: 0 },
    }
}

fn fresh_to_data() -> (r: ToData)
    ensures
        r == to_data_zero(),
{
    ToData {
        out_data: ToOutData { counter: 0 },
        hk: ToHk { perf: PerfData { enter_time: 0, elapsed: 0, rate: 0 }, counter: 0 },
    }
}

impl<C: Connector> To<C> {
    /// The configured telemetry sets, in insertion order.
    pub closed spec fn sets(&self) -> Seq<ToTlmSetView> {
        self.tlm_sets.deep_view()
    }

    /// The downlink connector.
    pub closed spec fn downlink(&self) -> C {
        self.connector
    }

    /// The telemetry counters.
    pub closed spec fn data(&self) -> ToData {
        self.data
    }

    pub fn new(connector: C, tlm_sets: Vec<ToTlmSet>) -> (r: To<C>)
        requires
            to_unique_ids(tlm_sets.deep_view()),
        ensures
            r.sets() == tlm_sets.deep_view(),
            r.data() == to_data_zero(),
            r.downlink() == connector,
    {
        To { data: fresh_to_data(), connector, tlm_sets }
    }

    /// Give back the downlink connector, consuming the app (to inspect an
    /// observable connector once a scenario is over).
    pub fn into_connector(self) -> (r: C)
        ensures
            r == self.downlink(),
    {
        self.connector
    }

    /// Re-derive the subscription set from the enabled sets' items.
    pub fn update_subscriptions<D: TimeDriver + Copy>(&mut self, rfe: &mut Rfe<D>)
        ensures
            *final(self) == *old(self),
            final(rfe).subs() == to_enabled_targets(old(self).sets()),
            final(rfe).subs_dirty(),
            final(rfe).inbox() == old(rfe).inbox(),
            final(rfe).outbox() == old(rfe).outbox(),
            final(rfe).same_identity(old(rfe)),
    {
        rfe.unsubscribe_all();
        let targets = to_collect_enabled_targets(&self.tlm_sets);
        rfe.subscribe_all(&targets);
        proof {
            assert(final(rfe).subs() =~= to_enabled_targets(old(self).sets()));
        }
    }

    /// The index of the set carrying `id`, if any.
    fn find_set(&self, id: TlmSetId) -> (r: Option<usize>)
        ensures
            r matches Some(i) ==> i < self.sets().len() && self.sets()[i as int].id == id,
            r is None ==> !to_has_set_id(self.sets(), id),
    {
        let mut i: usize = 0;
        while i < self.tlm_sets.len()
            invariant
                i <= self.tlm_sets@.len(),
                forall|j: int| 0 <= j < i ==> (#[trigger] self.sets()[j]).id != id,
            decreases self.tlm_sets@.len() - i,
        {
            if self.tlm_sets[i].id == id {
                proof {
                    assert(self.sets()[i as int].id == id);
                }
                return Some(i);
            }
            proof {
                assert(self.sets()[i as int].id != id);
            }
            i = i + 1;
        }
        None
    }

    /// Execute one downlink command. Set mutations re-derive the
    /// subscriptions; an unknown set identifier leaves the state unchanged;
    /// `Reset` clears the counters but not the configured sets.
    pub fn handle_cmd<D: TimeDriver + Copy>(&mut self, rfe: &mut Rfe<D>, cmd: &ToCmd)
        ensures
            final(rfe).inbox() == old(rfe).inbox(),
            final(rfe).outbox() == old(rfe).outbox(),
            final(rfe).same_identity(old(rfe)),
            old(rfe).subs_dirty() ==> final(rfe).subs_dirty(),
            final(self).downlink() == old(self).downlink(),
            match cmd.deep_view() {
                ToCmdView::Noop => *final(self) == *old(self) && final(rfe).subs() == old(rfe).subs(),
                ToCmdView::Reset => final(self).sets() == old(self).sets() && final(self).data()
                    == to_data_zero() && final(rfe).subs() == old(rfe).subs(),
                ToCmdView::AddTlmSet(s) => {
                    if to_has_set_id(old(self).sets(), s.id) {
                        *final(self) == *old(self) && final(rfe).subs() == old(rfe).subs()
                    } else {
                        final(self).sets() == old(self).sets().push(s) && final(self).data() == old(self).data() && final(rfe).subs() == to_enabled_targets(final(self).sets())
                    }
                },
                ToCmdView::RemoveTlmSet(id) => {
                    if to_has_set_id(old(self).sets(), id) {
                        exists|i: int|
                            0 <= i < old(self).sets().len() && (#[trigger] old(self).sets()[i]).id
                                == id && final(self).sets() == old(self).sets().remove(i) && final(rfe).subs() == to_enabled_targets(final(self).sets())
                    } else {
                        *final(self) == *old(self) && final(rfe).subs() == old(rfe).subs()
                    }
                },
                ToCmdView::DisableTlmSet(id) => {
                    if to_has_set_id(old(self).sets(), id) {
                        exists|i: int|
                            0 <= i < old(self).sets().len() && (#[trigger] old(self).sets()[i]).id
                                == id && final(self).sets() == old(self).sets().update(
                                i,
                                ToTlmSetView { enabled: false, ..old(self).sets()[i] },
                            ) && final(rfe).subs() == to_enabled_targets(final(self).sets())
                    } else {
                        *final(self) == *old(self) && final(rfe).subs() == old(rfe).subs()
                    }
                },
                ToCmdView::EnablTlmSet(id) => {
                    if to_has_set_id(old(self).sets(), id) {
                        exists|i: int|
                            0 <= i < old(self).sets().len() && (#[trigger] old(self).sets()[i]).id
                                == id && final(self).sets() == old(self).sets().update(
                                i,
                                ToTlmSetView { enabled: true, ..old(self).sets()[i] },
                            ) && final(rfe).subs() == to_enabled_targets(final(self).sets())
                    } else {
                        *final(self) == *old(self) && final(rfe).subs() == old(rfe).subs()
                    }
                },
            },
    {
        match cmd {
            ToCmd::Noop => {},
            ToCmd::Reset => {
                self.data = fresh_to_data();
            },
            ToCmd::AddTlmSet(to_tlm_set) => {
                let ghost sv = to_tlm_set.deep_view();
                match self.find_set(to_tlm_set.id) {
                    Option::Some(_) => {},
                    Option::None => {
                        let ghost prior = self.tlm_sets.deep_view();
                        self.tlm_sets.push(to_tlm_set.clone());
                        proof {
                            assert(self.tlm_sets.deep_view() =~= prior.push(sv));
                        }
                        self.update_subscriptions(rfe);
                    },
                }
            },
            ToCmd::RemoveTlmSet(set_id) => {
                match self.find_set(*set_id) {
                    Option::Some(i) => {
                        let ghost prior = self.tlm_sets.deep_view();
                        let _removed = self.tlm_sets.remove(i);
                        proof {
                            assert(self.tlm_sets.deep_view() =~= prior.remove(i as int));
                        }
                        self.update_subscriptions(rfe);
                    },
                    Option::None => {},
                }
            },
            ToCmd::DisableTlmSet(set_id) => {
                match self.find_set(*set_id) {
                    Option::Some(i) => {
                        let ghost prior = self.tlm_sets.deep_view();
                        let mut set = self.tlm_sets.remove(i);
                        set.enabled = false;
                        self.tlm_sets.insert(i, set);
                        proof {
                            assert(self.tlm_sets.deep_view() =~= prior.update(
                                i as int,
                                ToTlmSetView { enabled: false, ..prior[i as int] },
                            ));
                        }
                        self.update_subscriptions(rfe);
                    },
                    Option::None => {},
                }
            },
            ToCmd::EnablTlmSet(set_id) => {
                match self.find_set(*set_id) {
                    Option::Some(i) => {
                        let ghost prior = self.tlm_sets.deep_view();
                        let mut set = self.tlm_sets.remove(i);
                        set.enabled = true;
                        self.tlm_sets.insert(i, set);
                        proof {
                            assert(self.tlm_sets.deep_view() =~= prior.update(
                                i as int,
                                ToTlmSetView { enabled: true, ..prior[i as int] },
                            ));
                        }
                        self.update_subscriptions(rfe);
                    },
                    Option::None => {},
                }
            },
        }
    }

    /// Run one non-command packet through every enabled set's items; the
    /// packet joins the egress batch once per selecting item.
    fn filter_packet(&mut self, pkt: &MsgPacket, egress: &mut Vec<MsgPacket>)
        ensures
            final(self).sets().len() == old(self).sets().len(),
            final(self).data() == old(self).data(),
            final(self).downlink() == old(self).downlink(),
            forall|i: int|
                0 <= i < final(self).sets().len() ==> #[trigger] final(self).sets()[i] == (
                if old(self).sets()[i].enabled {
                    ToTlmSetView {
                        items: crate::ds::advance_items(
                            old(self).sets()[i].items,
                            pkt.deep_view().to_target(),
                        ),
                        ..old(self).sets()[i]
                    }
                } else {
                    old(self).sets()[i]
                }),
            final(egress)@.len() == old(egress)@.len() + to_select_count(
                old(self).sets(),
                pkt.deep_view().to_target(),
            ),
            final(egress)@.take(old(egress)@.len() as int) == old(egress)@,
            forall|j: int|
                old(egress)@.len() <= j < final(egress)@.len() ==> (#[trigger] final(egress)@[j]).deep_view()
                    == pkt.deep_view(),
    {
        let target = pkt.to_target();
        let ghost pre = self.tlm_sets.deep_view();
        let mut i: usize = 0;
        proof {
            assert(pre.take(0) =~= Seq::<ToTlmSetView>::empty());
        }
        while i < self.tlm_sets.len()
            invariant
                i <= self.tlm_sets@.len(),
                self.tlm_sets@.len() == pre.len(),
                target == pkt.deep_view().to_target(),
                forall|j: int|
                    0 <= j < i ==> #[trigger] self.sets()[j] == (
                    if pre[j].enabled {
                        ToTlmSetView {
                            items: crate::ds::advance_items(pre[j].items, target),
                            ..pre[j]
                        }
                    } else {
                        pre[j]
                    }),
                forall|j: int| i <= j < pre.len() ==> #[trigger] self.sets()[j] == pre[j],
                self.data() == old(self).data(),
                self.downlink() == old(self).downlink(),
                egress@.len() == old(egress)@.len() + to_select_count(pre.take(i as int), target),
                egress@.take(old(egress)@.len() as int) == old(egress)@,
                forall|j: int|
                    old(egress)@.len() <= j < egress@.len() ==> (#[trigger] egress@[j]).deep_view()
                        == pkt.deep_view(),
                old(self).sets() == pre,
            decreases self.tlm_sets@.len() - i,
        {
            let ghost list_pre = self.tlm_sets.deep_view();
            let ghost elem_pre = self.tlm_sets@[i as int];
            proof {
                assert(list_pre == self.sets());
                assert(self.sets()[i as int] == pre[i as int]);
            }
            let mut set = self.tlm_sets.remove(i);
            proof {
                assert(self.tlm_sets.deep_view() =~= list_pre.remove(i as int));
                assert(set == elem_pre);
                assert(list_pre[i as int] == elem_pre.deep_view());
                assert(set.deep_view() == pre[i as int]);
            }
            if set.enabled {
                let ghost items0 = set.items.deep_view();
                let mut j: usize = 0;
                while j < set.items.len()
                    invariant
                        j <= set.items@.len(),
                        set.items@.len() == items0.len(),
                        set.id == pre[i as int].id,
                        set.enabled == pre[i as int].enabled,
                        items0 == pre[i as int].items,
                        target == pkt.deep_view().to_target(),
                        forall|k: int|
                            0 <= k < j ==> set.items@[k] == crate::ds::advance_item(
                                #[trigger] items0[k],
                                target,
                            ),
                        forall|k: int| j <= k < items0.len() ==> #[trigger] set.items@[k] == items0[k],
                        self.tlm_sets.deep_view() == list_pre.remove(i as int),
                        i < pre.len(),
                        list_pre.len() == pre.len(),
                        self.sets().len() == pre.len() - 1,
                        self.data() == old(self).data(),
                        self.downlink() == old(self).downlink(),
                        egress@.len() == old(egress)@.len() + to_select_count(
                            pre.take(i as int),
                            target,
                        ) + items_select_count(items0.take(j as int), target),
                        egress@.take(old(egress)@.len() as int) == old(egress)@,
                        forall|j2: int|
                            old(egress)@.len() <= j2 < egress@.len() ==> (#[trigger] egress@[j2]).deep_view()
                                == pkt.deep_view(),
                    decreases set.items@.len() - j,
                {
                    let ghost orig_item = set.items@[j as int];
                    let mut item = set.items.remove(j);
                    let selected = match_item(&mut item, target);
                    set.items.insert(j, item);
                    proof {
                        assert(orig_item == items0[j as int]);
                        assert(selected == item_selects(items0[j as int], target));
                        assert(items0.take(j + 1) =~= items0.take(j as int).push(
                            items0[j as int],
                        ));
                        lemma_items_select_count_snoc(
                            items0.take(j as int),
                            items0[j as int],
                            target,
                        );
                    }
                    if selected {
                        egress.push(pkt.clone());
                        proof {
                            assert(egress@.take(old(egress)@.len() as int) =~= old(egress)@);
                        }
                    }
                    j = j + 1;
                }
                proof {
                    assert(set.items.deep_view() =~= crate::ds::advance_items(
                        pre[i as int].items,
                        target,
                    ));
                    assert(items0.take(items0.len() as int) =~= items0);
                }
            } else {
                proof {
                    assert(set.items.deep_view() =~= set.items@);
                }
            }
            proof {
                assert(pre.take(i + 1) =~= pre.take(i as int).push(pre[i as int]));
                lemma_to_select_count_snoc(pre.take(i as int), pre[i as int], target);
            }
            let ghost setv = set.deep_view();
            self.tlm_sets.insert(i, set);
            proof {
                assert(self.tlm_sets.deep_view() =~= list_pre.remove(i as int).insert(
                    i as int,
                    setv,
                ));
                assert(self.sets()[i as int] == setv);
                assert forall|j: int| 0 <= j < pre.len() && j != i implies #[trigger] self.sets()[j]
                    == list_pre[j] by {
                    assert(list_pre.remove(i as int).insert(i as int, setv)[j] == list_pre[j]);
                }
            }
            i = i + 1;
        }
        proof {
            assert(pre.take(pre.len() as int) =~= pre);
        }
    }
}

impl<C: Connector, D: TimeDriver + Copy> App<D> for To<C> {
    /// Subscribe to commands addressed to this instance, then derive the
    /// telemetry subscriptions from the enabled sets.
    fn init(&mut self, rfe: &mut Rfe<D>) -> (r: Result<(), RfeError>) {
        let instance = rfe.get_instance();
        rfe.subscribe(TargetMsg::new(instance, MsgKind::ToCmd));
        self.update_subscriptions(rfe);
        Ok(())
    }

    /// Count the pass and drain the inbound queue: execute downlink
    /// commands addressed to this instance, run every other packet through
    /// the sets' filtering rules, hand the selected packets to the downlink
    /// in one send, and post every inbound downlink batch onto the bus.
    fn run(&mut self, rfe: &mut Rfe<D>)
        ensures
            final(rfe).outbox() == old(rfe).outbox(),
            !has_to_cmd(old(rfe).inbox(), old(rfe).inst()) ==> {
                &&& final(rfe).subs() == old(rfe).subs()
                &&& final(rfe).subs_dirty() == old(rfe).subs_dirty()
                &&& final(self).sets() == to_sets_after(old(self).sets(), old(rfe).inbox())
                &&& final(self).data().out_data.counter == ((old(self).data().out_data.counter
                    + 1) % 0x100000000) as u32
                &&& (old(self).downlink().model() matches Some(m)
                    ==> (final(self).downlink().model() matches Some(m2) && {
                    let eg = to_egress_after(old(self).sets(), old(rfe).inbox());
                    &&& m2.inbound.len() == 0
                    &&& (eg.len() == 0 ==> m2.sent == m.sent)
                    &&& (eg.len() > 0 ==> m2.sent == m.sent.push(eg))
                    &&& final(rfe).inbox() == batches_flat(m.inbound)
                }))
            },
    {
        self.data.out_data.counter = self.data.out_data.counter.wrapping_add(1);
        let mut egress: Vec<MsgPacket> = Vec::new();
        let ghost inbox0 = rfe.inbox();
        let ghost sets0 = self.sets();
        let ghost c1 = self.data.out_data.counter;
        let ghost instance0 = rfe.inst();
        let ghost g: int = 0;
        proof {
            assert(inbox0.take(0) =~= Seq::<MsgPacketView>::empty());
            assert(c1 == ((old(self).data().out_data.counter + 1) % 0x100000000) as u32);
            assert(egress.deep_view() =~= Seq::<MsgPacketView>::empty());
            assert(to_egress_after(sets0, inbox0.take(0)) =~= Seq::<MsgPacketView>::empty());
        }
        loop
            invariant
                0 <= g <= inbox0.len(),
                rfe.inbox() == inbox0.skip(g),
                rfe.outbox() == old(rfe).outbox(),
                rfe.same_identity(old(rfe)),
                old(rfe).subs_dirty() ==> rfe.subs_dirty(),
                rfe.inst() == instance0,
                !has_to_cmd(inbox0, instance0) ==> {
                    &&& rfe.subs() == old(rfe).subs()
                    &&& rfe.subs_dirty() == old(rfe).subs_dirty()
                    &&& self.sets() == to_sets_after(sets0, inbox0.take(g))
                    &&& self.data.out_data.counter == c1
                    &&& self.downlink().model() == old(self).downlink().model()
                    &&& egress.deep_view() == to_egress_after(sets0, inbox0.take(g))
                },
            ensures
                rfe.inbox().len() == 0,
                rfe.outbox() == old(rfe).outbox(),
                rfe.same_identity(old(rfe)),
                old(rfe).subs_dirty() ==> rfe.subs_dirty(),
                !has_to_cmd(inbox0, instance0) ==> {
                    &&& rfe.subs() == old(rfe).subs()
                    &&& rfe.subs_dirty() == old(rfe).subs_dirty()
                    &&& self.sets() == to_sets_after(sets0, inbox0)
                    &&& self.data.out_data.counter == c1
                    &&& self.downlink().model() == old(self).downlink().model()
                    &&& egress.deep_view() == to_egress_after(sets0, inbox0)
                },
            decreases rfe.inbox().len(),
        {
            let next = rfe.recv();
            match next {
                Option::None => {
                    proof {
                        assert(inbox0.take(g) =~= inbox0);
                    }
                    break ;
                },
                Option::Some(msg) => {
                    proof {
                        assert(inbox0.skip(g)[0] == inbox0[g]);
                        assert(inbox0.skip(g).drop_first() =~= inbox0.skip(g + 1));
                        assert(inbox0.take(g + 1) =~= inbox0.take(g).push(inbox0[g]));
                    }
                    let mut is_cmd = false;
                    match &msg.msg {
                        Msg::ToCmd(cmd) => {
                            if msg.instance == rfe.get_instance() {
                                proof {
                                    assert(msg.deep_view() == inbox0[g]);
                                    assert(inbox0[g].msg is ToCmd && inbox0[g].instance
                                        == instance0);
                                    assert(has_to_cmd(inbox0, instance0));
                                }
                                is_cmd = true;
                                let c = cmd.clone();
                                self.handle_cmd(rfe, &c);
                            }
                        },
                        _ => {},
                    }
                    if !is_cmd {
                        let ghost epre = egress.deep_view();
                        let ghost sets_cur = self.sets();
                        self.filter_packet(&msg, &mut egress);
                        proof {
                            if !has_to_cmd(inbox0, instance0) {
                                lemma_to_sets_after_snoc(sets0, inbox0.take(g), inbox0[g]);
                                assert(self.sets() =~= to_sets_after(sets0, inbox0.take(g + 1)));
                                lemma_to_egress_after_snoc(sets0, inbox0.take(g), inbox0[g]);
                                assert(egress.deep_view() =~= to_egress_after(
                                    sets0,
                                    inbox0.take(g + 1),
                                )) by {
                                    let added = Seq::new(
                                        to_select_count(sets_cur, inbox0[g].to_target()) as nat,
                                        |j: int| inbox0[g],
                                    );
                                    assert(egress.deep_view().len() == epre.len() + added.len());
                                    assert forall|j: int|
                                        0 <= j < egress.deep_view().len() implies egress.deep_view()[j]
                                        == (epre + added)[j] by {
                                        if j < epre.len() {
                                            assert(egress@.take(epre.len() as int)[j]
                                                == egress@[j]);
                                        } else {
                                            assert(egress@[j].deep_view() == msg.deep_view());
                                            assert(msg.deep_view() == inbox0[g]);
                                        }
                                    }
                                    assert(egress.deep_view() =~= epre + added);
                                }
                            }
                        }
                    }
                    proof {
                        g = g + 1;
                    }
                },
            }
        }
        let ghost egdv = egress.deep_view();
        proof {
            if !has_to_cmd(inbox0, instance0) {
                assert(egdv == to_egress_after(sets0, inbox0));
            }
        }
        if egress.len() > 0 {
            self.connector.send(egress);
        }
        let ghost sent_after = self.downlink().model();
        let ghost sets_mid = self.sets();
        let ghost subs_mid = rfe.subs();
        let ghost dirty_mid = rfe.subs_dirty();
        let ghost counter_mid = self.data.out_data.counter;
        proof {
            if !has_to_cmd(inbox0, instance0) && old(self).downlink().model() is Some {
                let m = old(self).downlink().model()->0;
                if egdv.len() > 0 {
                    assert(sent_after == Some(
                        ConnectorModel { sent: m.sent.push(egdv), inbound: m.inbound },
                    ));
                } else {
                    assert(sent_after == Some(m));
                }
            }
            if sent_after is Some {
                assert(sent_after->0.inbound.skip(0) =~= sent_after->0.inbound);
                assert(sent_after->0.inbound.take(0) =~= Seq::<Seq<MsgPacketView>>::empty());
            }
        }
        let ghost n: int = 0;
        loop
            invariant
                rfe.outbox() == old(rfe).outbox(),
                rfe.same_identity(old(rfe)),
                rfe.subs() == subs_mid,
                rfe.subs_dirty() == dirty_mid,
                self.data.out_data.counter == counter_mid,
                self.sets() == sets_mid,
                sent_after is Some ==> {
                    &&& self.downlink().model() matches Some(mc)
                    &&& self.downlink().model()->0.sent == sent_after->0.sent
                    &&& 0 <= n <= sent_after->0.inbound.len()
                    &&& self.downlink().model()->0.inbound == sent_after->0.inbound.skip(n)
                    &&& rfe.inbox() == batches_flat(sent_after->0.inbound.take(n))
                },
            ensures
                rfe.outbox() == old(rfe).outbox(),
                rfe.same_identity(old(rfe)),
                rfe.subs() == subs_mid,
                rfe.subs_dirty() == dirty_mid,
                self.data.out_data.counter == counter_mid,
                self.sets() == sets_mid,
                sent_after is Some ==> (self.downlink().model() matches Some(mc) && mc.sent
                    == sent_after->0.sent && mc.inbound.len() == 0 && rfe.inbox() == batches_flat(
                    sent_after->0.inbound,
                )),
            decreases self.connector.recv_bound(),
        {
            let ghost premod = self.downlink().model();
            let batch = self.connector.recv();
            match batch {
                Option::None => {
                    proof {
                        if sent_after is Some {
                            let m0 = sent_after->0;
                            let mc = self.downlink().model()->0;
                            assert(mc.inbound.len() == 0);
                            assert(n == m0.inbound.len());
                            assert(m0.inbound.take(n) =~= m0.inbound);
                        }
                    }
                    break ;
                },
                Option::Some(msgs) => {
                    let ghost bdv2 = msgs.deep_view();
                    proof {
                        if sent_after is Some {
                            let m0 = sent_after->0;
                            let mp = premod->0;
                            assert(mp.inbound.len() > 0);
                            let mc = self.downlink().model()->0;
                            assert(mc.inbound == mp.inbound.drop_first());
                            assert(mp.inbound.drop_first() =~= m0.inbound.skip(n + 1));
                            assert(n + 1 <= m0.inbound.len());
                            assert(bdv2 == mp.inbound[0]);
                            assert(mp.inbound[0] == m0.inbound[n]);
                        }
                    }
                    let ghost inbox_base = rfe.inbox();
                    let mut k: usize = 0;
                    let inbound = msgs;
                    while k < inbound.len()
                        invariant
                            0 <= k <= inbound@.len(),
                            bdv2 == inbound.deep_view(),
                            bdv2.len() == inbound@.len(),
                            rfe.outbox() == old(rfe).outbox(),
                            rfe.same_identity(old(rfe)),
                            rfe.subs() == subs_mid,
                            rfe.subs_dirty() == dirty_mid,
                            rfe.inbox() == inbox_base + bdv2.take(k as int),
                        decreases inbound@.len() - k,
                    {
                        let p = inbound[k].clone();
                        proof {
                            assert(bdv2[k as int] == inbound@[k as int].deep_view());
                        }
                        rfe.post_message(p);
                        proof {
                            assert(bdv2.take(k + 1) =~= bdv2.take(k as int).push(bdv2[k as int]));
                            assert(rfe.inbox() =~= inbox_base + bdv2.take(k + 1));
                        }
                        k = k + 1;
                    }
                    proof {
                        assert(bdv2.take(bdv2.len() as int) =~= bdv2);
                        if sent_after is Some {
                            let m0 = sent_after->0;
                            assert(m0.inbound.take(n + 1) =~= m0.inbound.take(n).push(
                                m0.inbound[n],
                            ));
                            lemma_batches_flat_snoc(m0.inbound.take(n), m0.inbound[n]);
                            assert(rfe.inbox() =~= batches_flat(m0.inbound.take(n + 1)));
                        }
                        n = n + 1;
                    }
                },
            }
        }
        proof {
            if !has_to_cmd(inbox0, instance0) && old(self).downlink().model() is Some {
                let m = old(self).downlink().model()->0;
                let m2 = self.downlink().model()->0;
                assert(egdv == to_egress_after(sets0, inbox0));
                assert((egdv.len() == 0 ==> m2.sent == m.sent) && (egdv.len() > 0 ==> m2.sent
                    == m.sent.push(egdv)));
            }
        }
    }

    /// Publish housekeeping telemetry: one packet of the current record.
    fn hk(&mut self, rfe: &mut Rfe<D>)
        ensures
            *final(self) == *old(self),
            final(rfe).outbox().len() == old(rfe).outbox().len() + 1,
            final(rfe).outbox().drop_last() == old(rfe).outbox(),
            final(rfe).outbox().last().msg == MsgView::ToHk(old(self).data().hk),
            final(rfe).outbox().last().instance == old(rfe).inst(),
            final(rfe).inbox() == old(rfe).inbox(),
            final(rfe).subs() == old(rfe).subs(),
            final(rfe).subs_dirty() == old(rfe).subs_dirty(),
    {
        rfe.send(Msg::ToHk(self.data.hk));
    }

    /// Publish output telemetry: one packet of the current record.
    fn out_data(&mut self, rfe: &mut Rfe<D>)
        ensures
            *final(self) == *old(self),
            final(rfe).outbox().len() == old(rfe).outbox().len() + 1,
            final(rfe).outbox().drop_last() == old(rfe).outbox(),
            final(rfe).outbox().last().msg == MsgView::ToOutData(old(self).data().out_data),
            final(rfe).outbox().last().instance == old(rfe).inst(),
            final(rfe).inbox() == old(rfe).inbox(),
            final(rfe).subs() == old(rfe).subs(),
            final(rfe).subs_dirty() == old(rfe).subs_dirty(),
    {
        rfe.send(Msg::ToOutData(self.data.out_data));
    }

    fn get_app_rate(&self) -> Rate {
        Rate::Hz50
    }
}

} // verus!
