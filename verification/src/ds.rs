//! The data-storage app: per-set decimated persistence of matching packets
//! to files, reconfigured at runtime by command.
use crate::codec::{encode_packet, spec_packet};
use crate::file::DsFile;
use crate::handle::Rfe;
use crate::msg::{DsCmd, DsHk, DsOutData, DsTlmSet, DsTlmSetView, Msg, MsgPacket, MsgPacketView,
    MsgView, TargetMsg, TlmSetId, TlmSetItem};
use crate::sched::{App, Rate, RfeError};
use crate::time::TimeDriver;
use crate::tlm::{item_selects, items_select_count, lemma_items_select_count_snoc,
    match_item, target_matches};
use crate::utils::PerfData;
use vstd::prelude::*;

verus! {

/// One telemetry set's targets, in item order.
pub open spec fn set_targets(s: DsTlmSetView) -> Seq<TargetMsg> {
    s.items.map_values(|it: TlmSetItem| it.target)
}

/// The targets of every enabled set, in set order.
pub open spec fn enabled_targets_seq(sets: Seq<DsTlmSetView>) -> Seq<TargetMsg>
    decreases sets.len(),
{
    if sets.len() == 0 {
        Seq::empty()
    } else {
        (if sets[0].enabled {
            set_targets(sets[0])
        } else {
            Seq::empty()
        }) + enabled_targets_seq(sets.drop_first())
    }
}

/// The subscription set a storage configuration asks for: the union of the
/// targets of every enabled set's items.
pub open spec fn ds_enabled_targets(sets: Seq<DsTlmSetView>) -> Set<TargetMsg> {
    enabled_targets_seq(sets).to_set()
}

/// Whether the sets carry pairwise distinct identifiers (spec-wise, a
/// telemetry-set collection is a mapping keyed by identifier).
pub open spec fn ds_unique_ids(sets: Seq<DsTlmSetView>) -> bool {
    forall|i: int, j: int| 0 <= i < j < sets.len() ==> (#[trigger] sets[i]).id != #[trigger] sets[j].id
}

/// Whether some set carries this identifier.
pub open spec fn has_set_id(sets: Seq<DsTlmSetView>, id: TlmSetId) -> bool {
    exists|i: int| 0 <= i < sets.len() && (#[trigger] sets[i]).id == id
}

/// One item after one packet with routing key `t` ran against it.
pub open spec fn advance_item(it: TlmSetItem, t: TargetMsg) -> TlmSetItem {
    if target_matches(it.target, t) {
        TlmSetItem { counter: ((it.counter + 1) % 0x10000) as u16, ..it }
    } else {
        it
    }
}

/// One set's items after one packet with routing key `t` ran against them.
pub open spec fn advance_items(items: Seq<TlmSetItem>, t: TargetMsg) -> Seq<TlmSetItem> {
    items.map_values(|it: TlmSetItem| advance_item(it, t))
}

/// Every enabled set's items after one packet with routing key `t` ran
/// against them; disabled sets are untouched.
pub open spec fn ds_advance_sets(sets: Seq<DsTlmSetView>, t: TargetMsg) -> Seq<DsTlmSetView> {
    Seq::new(
        sets.len(),
        |i: int|
            if sets[i].enabled {
                DsTlmSetView { items: advance_items(sets[i].items, t), ..sets[i] }
            } else {
                sets[i]
            },
    )
}

/// The sets after draining `inbox`, each packet run against every enabled
/// set in turn.
pub open spec fn ds_sets_after(sets: Seq<DsTlmSetView>, inbox: Seq<MsgPacketView>) -> Seq<
    DsTlmSetView,
>
    decreases inbox.len(),
{
    if inbox.len() == 0 {
        sets
    } else {
        ds_sets_after(ds_advance_sets(sets, inbox[0].to_target()), inbox.drop_first())
    }
}

/// Whether the drained queue carries any storage command.
pub open spec fn has_ds_cmd(inbox: Seq<MsgPacketView>) -> bool {
    exists|j: int| 0 <= j < inbox.len() && (#[trigger] inbox[j]).msg is DsCmd
}

proof fn lemma_ds_sets_after_snoc(sets: Seq<DsTlmSetView>, s: Seq<MsgPacketView>, x: MsgPacketView)
    ensures
        ds_sets_after(sets, s.push(x)) == ds_advance_sets(ds_sets_after(sets, s), x.to_target()),
    decreases s.len(),
{
    if s.len() == 0 {
        assert(s.push(x)[0] == x);
        assert(s.push(x).drop_first() =~= Seq::<MsgPacketView>::empty());
        assert(ds_sets_after(sets, s.push(x)) == ds_sets_after(
            ds_advance_sets(sets, x.to_target()),
            Seq::<MsgPacketView>::empty(),
        ));
    } else {
        assert(s.push(x)[0] == s[0]);
        assert(s.push(x).drop_first() =~= s.drop_first().push(x));
        assert(ds_sets_after(sets, s.push(x)) == ds_sets_after(
            ds_advance_sets(sets, s[0].to_target()),
            s.drop_first().push(x),
        ));
        lemma_ds_sets_after_snoc(ds_advance_sets(sets, s[0].to_target()), s.drop_first(), x);
    }
}

proof fn lemma_ds_sets_after_ids(sets: Seq<DsTlmSetView>, inbox: Seq<MsgPacketView>)
    ensures
        ds_sets_after(sets, inbox).len() == sets.len(),
        forall|i: int|
            0 <= i < sets.len() ==> (#[trigger] ds_sets_after(sets, inbox)[i]).id == sets[i].id,
    decreases inbox.len(),
{
    if inbox.len() > 0 {
        lemma_ds_sets_after_ids(ds_advance_sets(sets, inbox[0].to_target()), inbox.drop_first());
    }
}

proof fn lemma_enabled_targets_snoc(sets: Seq<DsTlmSetView>, x: DsTlmSetView)
    ensures
        enabled_targets_seq(sets.push(x)) == enabled_targets_seq(sets) + (if x.enabled {
            set_targets(x)
        } else {
            Seq::<TargetMsg>::empty()
        }),
    decreases sets.len(),
{
    if sets.len() == 0 {
        assert(sets.push(x)[0] == x);
        assert(sets.push(x).drop_first() =~= Seq::<DsTlmSetView>::empty());
        assert(enabled_targets_seq(sets.push(x)) == (if x.enabled {
            set_targets(x)
        } else {
            Seq::<TargetMsg>::empty()
        }) + enabled_targets_seq(Seq::<DsTlmSetView>::empty()));
        assert(enabled_targets_seq(sets.push(x)) =~= enabled_targets_seq(sets) + (if x.enabled {
            set_targets(x)
        } else {
            Seq::<TargetMsg>::empty()
        }));
    } else {
        assert(sets.push(x).drop_first() =~= sets.drop_first().push(x));
        lemma_enabled_targets_snoc(sets.drop_first(), x);
        assert(sets.push(x)[0] == sets[0]);
        assert(enabled_targets_seq(sets.push(x)) == (if sets[0].enabled {
            set_targets(sets[0])
        } else {
            Seq::<TargetMsg>::empty()
        }) + (enabled_targets_seq(sets.drop_first()) + (if x.enabled {
            set_targets(x)
        } else {
            Seq::<TargetMsg>::empty()
        })));
        assert(enabled_targets_seq(sets.push(x)) =~= enabled_targets_seq(sets) + (if x.enabled {
            set_targets(x)
        } else {
            Seq::<TargetMsg>::empty()
        }));
    }
}

/// Collect the targets of every enabled set.
fn collect_enabled_targets(sets: &Vec<DsTlmSet>) -> (r: Vec<TargetMsg>)
    ensures
        r@ == enabled_targets_seq(sets.deep_view()),
{
    let ghost sdv = sets.deep_view();
    let mut r: Vec<TargetMsg> = Vec::new();
    let mut i: usize = 0;
    proof {
        assert(sdv.take(0) =~= Seq::<DsTlmSetView>::empty());
    }
    while i < sets.len()
        invariant
            i <= sets@.len(),
            sdv == sets.deep_view(),
            sdv.len() == sets@.len(),
            r@ == enabled_targets_seq(sdv.take(i as int)),
        decreases sets@.len() - i,
    {
        let ghost before = r@;
        if sets[i].enabled {
            let items = &sets[i].items;
            let mut j: usize = 0;
            while j < items.len()
                invariant
                    j <= items@.len(),
                    items@ == sets@[i as int].items@,
                    i < sets@.len(),
                    sdv == sets.deep_view(),
                    sdv.len() == sets@.len(),
                    r@ == before + set_targets(sdv[i as int]).take(j as int),
                decreases items@.len() - j,
            {
                r.push(items[j].target);
                proof {
                    assert(set_targets(sdv[i as int]).take(j + 1) =~= set_targets(
                        sdv[i as int],
                    ).take(j as int).push(set_targets(sdv[i as int])[j as int]));
                    assert(set_targets(sdv[i as int])[j as int] == items@[j as int].target);
                }
                j = j + 1;
            }
            proof {
                assert(set_targets(sdv[i as int]).take(items@.len() as int) =~= set_targets(
                    sdv[i as int],
                ));
            }
        }
        proof {
            assert(sdv.take(i + 1) =~= sdv.take(i as int).push(sdv[i as int]));
            lemma_enabled_targets_snoc(sdv.take(i as int), sdv[i as int]);
            assert(r@ =~= enabled_targets_seq(sdv.take(i + 1)));
        }
        i = i + 1;
    }
    proof {
        assert(sdv.take(sdv.len() as int) =~= sdv);
    }
    r
}

/// One attempted storage write: which set's file, the exact bytes handed
/// over (the packet's wire encoding), and whether the file accepted them.
#[verifier::ext_equal]
pub struct WriteRecord {
    pub set: TlmSetId,
    pub bytes: Seq<u8>,
    pub stored: bool,
}

/// How many selecting items (over all enabled sets) one packet with
/// routing key `t` meets: the number of storage writes it triggers.
pub open spec fn ds_select_count(sets: Seq<DsTlmSetView>, t: TargetMsg) -> nat
    decreases sets.len(),
{
    if sets.len() == 0 {
        0
    } else {
        (if sets[0].enabled {
            items_select_count(sets[0].items, t)
        } else {
            0nat
        }) + ds_select_count(sets.drop_first(), t)
    }
}

proof fn lemma_ds_select_count_snoc(sets: Seq<DsTlmSetView>, x: DsTlmSetView, t: TargetMsg)
    ensures
        ds_select_count(sets.push(x), t) == ds_select_count(sets, t) + (if x.enabled {
            items_select_count(x.items, t)
        } else {
            0nat
        }),
    decreases sets.len(),
{
    if sets.len() == 0 {
        assert(sets.push(x)[0] == x);
        assert(sets.push(x).drop_first() =~= Seq::<DsTlmSetView>::empty());
        assert(ds_select_count(sets.push(x), t) == (if x.enabled {
            items_select_count(x.items, t)
        } else {
            0nat
        }) + ds_select_count(Seq::<DsTlmSetView>::empty(), t));
    } else {
        assert(sets.push(x)[0] == sets[0]);
        assert(sets.push(x).drop_first() =~= sets.drop_first().push(x));
        assert(ds_select_count(sets.push(x), t) == (if sets[0].enabled {
            items_select_count(sets[0].items, t)
        } else {
            0nat
        }) + ds_select_count(sets.drop_first().push(x), t));
        lemma_ds_select_count_snoc(sets.drop_first(), x, t);
    }
}

/// The encodings one drain hands to the files: each packet's wire encoding,
/// in drain order, repeated once per item that selects it, with the sets
/// advancing between packets.
pub open spec fn ds_writes_expected(sets: Seq<DsTlmSetView>, inbox: Seq<MsgPacketView>) -> Seq<
    Seq<u8>,
>
    decreases inbox.len(),
{
    if inbox.len() == 0 {
        Seq::empty()
    } else {
        Seq::new(
            ds_select_count(sets, inbox[0].to_target()) as nat,
            |j: int| spec_packet(inbox[0]),
        ) + ds_writes_expected(ds_advance_sets(sets, inbox[0].to_target()), inbox.drop_first())
    }
}

proof fn lemma_ds_writes_expected_snoc(
    sets: Seq<DsTlmSetView>,
    s: Seq<MsgPacketView>,
    x: MsgPacketView,
)
    ensures
        ds_writes_expected(sets, s.push(x)) == ds_writes_expected(sets, s) + Seq::new(
            ds_select_count(ds_sets_after(sets, s), x.to_target()) as nat,
            |j: int| spec_packet(x),
        ),
    decreases s.len(),
{
    if s.len() == 0 {
        assert(s.push(x)[0] == x);
        assert(s.push(x).drop_first() =~= Seq::<MsgPacketView>::empty());
        assert(ds_writes_expected(sets, s.push(x)) == Seq::new(
            ds_select_count(sets, x.to_target()) as nat,
            |j: int| spec_packet(x),
        ) + ds_writes_expected(
            ds_advance_sets(sets, x.to_target()),
            Seq::<MsgPacketView>::empty(),
        ));
        assert(ds_writes_expected(sets, s.push(x)) =~= ds_writes_expected(sets, s) + Seq::new(
            ds_select_count(ds_sets_after(sets, s), x.to_target()) as nat,
            |j: int| spec_packet(x),
        ));
    } else {
        assert(s.push(x)[0] == s[0]);
        assert(s.push(x).drop_first() =~= s.drop_first().push(x));
        let sets1 = ds_advance_sets(sets, s[0].to_target());
        assert(ds_writes_expected(sets, s.push(x)) == Seq::new(
            ds_select_count(sets, s[0].to_target()) as nat,
            |j: int| spec_packet(s[0]),
        ) + ds_writes_expected(sets1, s.drop_first().push(x)));
        lemma_ds_writes_expected_snoc(sets1, s.drop_first(), x);
        assert(ds_sets_after(sets, s) == ds_sets_after(sets1, s.drop_first()));
        assert(ds_writes_expected(sets, s.push(x)) =~= ds_writes_expected(sets, s) + Seq::new(
            ds_select_count(ds_sets_after(sets, s), x.to_target()) as nat,
            |j: int| spec_packet(x),
        ));
    }
}

/// The byte total of the accepted writes among these records.
pub open spec fn stored_sum(recs: Seq<WriteRecord>) -> int
    decreases recs.len(),
{
    if recs.len() == 0 {
        0
    } else {
        (if recs[0].stored {
            recs[0].bytes.len() as int
        } else {
            0
        }) + stored_sum(recs.drop_first())
    }
}

proof fn lemma_stored_sum_snoc(recs: Seq<WriteRecord>, x: WriteRecord)
    ensures
        stored_sum(recs.push(x)) == stored_sum(recs) + (if x.stored {
            x.bytes.len() as int
        } else {
            0
        }),
    decreases recs.len(),
{
    if recs.len() == 0 {
        assert(recs.push(x)[0] == x);
        assert(recs.push(x).drop_first() =~= Seq::<WriteRecord>::empty());
        assert(stored_sum(recs.push(x)) == (if x.stored {
            x.bytes.len() as int
        } else {
            0
        }) + stored_sum(Seq::<WriteRecord>::empty()));
    } else {
        assert(recs.push(x)[0] == recs[0]);
        assert(recs.push(x).drop_first() =~= recs.drop_first().push(x));
        assert(stored_sum(recs.push(x)) == (if recs[0].stored {
            recs[0].bytes.len() as int
        } else {
            0
        }) + stored_sum(recs.drop_first().push(x)));
        lemma_stored_sum_snoc(recs.drop_first(), x);
    }
}

proof fn lemma_stored_sum_concat(a: Seq<WriteRecord>, b: Seq<WriteRecord>)
    ensures
        stored_sum(a + b) == stored_sum(a) + stored_sum(b),
    decreases a.len(),
{
    if a.len() == 0 {
        assert(a + b =~= b);
    } else {
        assert((a + b)[0] == a[0]);
        assert((a + b).drop_first() =~= a.drop_first() + b);
        assert(stored_sum(a + b) == (if a[0].stored {
            a[0].bytes.len() as int
        } else {
            0
        }) + stored_sum(a.drop_first() + b));
        lemma_stored_sum_concat(a.drop_first(), b);
    }
}

proof fn lemma_stored_sum_nonneg(recs: Seq<WriteRecord>)
    ensures
        stored_sum(recs) >= 0,
    decreases recs.len(),
{
    if recs.len() > 0 {
        lemma_stored_sum_nonneg(recs.drop_first());
    }
}

/// The data-storage app's mutable state: telemetry counters, the open-file
/// table and the storage enable latch.
pub struct DsData<F: DsFile> {
    pub hk: DsHk,
    pub out_data: DsOutData,
    pub file_list: Vec<(TlmSetId, F)>,
    pub enabled: bool,
}

/// The data-storage app.
pub struct Ds<F: DsFile> {
    data: DsData<F>,
    tlm_sets: Vec<DsTlmSet>,
    start_enabled: bool,
    write_log: Ghost<Seq<WriteRecord>>,
}

fn fresh_ds_data<F: DsFile>() -> (r: DsData<F>)
    ensures
        r.out_data == (DsOutData { counter: 0, bytes_written: 0, bytes_written_this_cycle: 0 }),
        !r.enabled,
        r.file_list@.len() == 0,
{
    DsData {
        hk: DsHk { perf: PerfData { enter_time: 0, elapsed: 0, rate: 0 }, counter: 0 },
        out_data: DsOutData { counter: 0, bytes_written: 0, bytes_written_this_cycle: 0 },
        file_list: Vec::new(),
        enabled: false,
    }
}

impl<F: DsFile> Ds<F> {
    /// The configured telemetry sets, in insertion order.
    pub closed spec fn sets(&self) -> Seq<DsTlmSetView> {
        self.tlm_sets.deep_view()
    }

    /// Whether storage is currently enabled.
    pub closed spec fn enabled(&self) -> bool {
        self.data.enabled
    }

    /// The output-telemetry record (counters and byte accounting).
    pub closed spec fn out(&self) -> DsOutData {
        self.data.out_data
    }

    /// The housekeeping record.
    pub closed spec fn hk_data(&self) -> DsHk {
        self.data.hk
    }

    /// The record of every storage write attempted so far, oldest first.
    pub closed spec fn writes(&self) -> Seq<WriteRecord> {
        self.write_log@
    }

    /// The open-file table's keys, in creation order: one entry per set a
    /// write has reached since the last reset.
    pub closed spec fn file_ids(&self) -> Seq<TlmSetId> {
        self.data.file_list@.map_values(|e: (TlmSetId, F)| e.0)
    }

    pub fn new(tlm_sets: Vec<DsTlmSet>, start_enabled: bool) -> (r: Ds<F>)
        requires
            ds_unique_ids(tlm_sets.deep_view()),
        ensures
            r.sets() == tlm_sets.deep_view(),
            !r.enabled(),
            r.out() == (DsOutData { counter: 0, bytes_written: 0, bytes_written_this_cycle: 0 }),
            r.file_ids() == Seq::<TlmSetId>::empty(),
            r.writes() == Seq::<WriteRecord>::empty(),
    {
        let r = Ds {
            data: fresh_ds_data(),
            tlm_sets,
            start_enabled,
            write_log: Ghost(Seq::empty()),
        };
        proof {
            assert(r.file_ids() =~= Seq::<TlmSetId>::empty());
        }
        r
    }

    /// Re-derive the subscription set from the enabled sets' items:
    /// unsubscribe from everything, then subscribe to the union of enabled
    /// targets.
    pub fn update_subscriptions<D: TimeDriver + Copy>(&mut self, rfe: &mut Rfe<D>)
        ensures
            *final(self) == *old(self),
            final(rfe).subs() == ds_enabled_targets(old(self).sets()),
            final(rfe).subs_dirty(),
            final(rfe).inbox() == old(rfe).inbox(),
            final(rfe).outbox() == old(rfe).outbox(),
            final(rfe).same_identity(old(rfe)),
    {
        rfe.unsubscribe_all();
        let targets = collect_enabled_targets(&self.tlm_sets);
        rfe.subscribe_all(&targets);
        proof {
            assert(final(rfe).subs() =~= ds_enabled_targets(old(self).sets()));
        }
    }

    /// The current output-telemetry record.
    pub fn output(&self) -> (r: DsOutData)
        ensures
            r == self.out(),
    {
        self.data.out_data
    }

    /// Whether storage is currently enabled.
    pub fn is_enabled(&self) -> (r: bool)
        ensures
            r == self.enabled(),
    {
        self.data.enabled
    }

    /// The index of the set carrying `id`, if any.
    fn find_set(&self, id: TlmSetId) -> (r: Option<usize>)
        ensures
            r matches Some(i) ==> i < self.sets().len() && self.sets()[i as int].id == id,
            r is None ==> !has_set_id(self.sets(), id),
    {
        let mut i: usize = 0;
        while i < self.tlm_sets.len()
            invariant
                i <= self.tlm_sets@.len(),
                forall|j: int| 0 <= j < i ==> (#[trigger] self.sets()[j]).id != id,
            decreases self.tlm_sets@.len() - i,
        {
            if self.tlm_sets[i].id == id {
                proof {
                    assert(self.sets()[i as int].id == id);
                }
                return Some(i);
            }
            proof {
                assert(self.sets()[i as int].id != id);
            }
            i = i + 1;
        }
        None
    }

    /// Execute one storage command. Set mutations re-derive the
    /// subscriptions; an unknown set or file identifier leaves the state
    /// unchanged; `Reset` clears the counters and the enable latch but not
    /// the configured sets.
    pub fn handle_cmd<D: TimeDriver + Copy>(&mut self, rfe: &mut Rfe<D>, cmd: DsCmd)
        ensures
            final(rfe).inbox() == old(rfe).inbox(),
            final(rfe).outbox() == old(rfe).outbox(),
            final(rfe).same_identity(old(rfe)),
            old(rfe).subs_dirty() ==> final(rfe).subs_dirty(),
            final(self).writes() == old(self).writes(),
            final(self).out().bytes_written == old(self).out().bytes_written || cmd.deep_view()
                is Reset,
            cmd.deep_view() is Reset ==> final(self).file_ids() == Seq::<TlmSetId>::empty(),
            !(cmd.deep_view() is Reset) ==> final(self).file_ids() == old(self).file_ids(),
            match cmd.deep_view() {
                crate::msg::DsCmdView::Noop => *final(self) == *old(self) && final(rfe).subs()
                    == old(rfe).subs(),
                crate::msg::DsCmdView::Reset => final(self).sets() == old(self).sets() && !final(self).enabled() && final(self).out() == (DsOutData {
                    counter: 0,
                    bytes_written: 0,
                    bytes_written_this_cycle: 0,
                }) && final(rfe).subs() == old(rfe).subs(),
                crate::msg::DsCmdView::CloseAll => final(self).sets() == old(self).sets() && final(self).enabled() == old(self).enabled() && final(self).out() == old(self).out() && final(rfe).subs() == old(rfe).subs(),
                crate::msg::DsCmdView::Close(_) => final(self).sets() == old(self).sets() && final(self).enabled() == old(self).enabled() && final(self).out() == old(self).out() && final(rfe).subs() == old(rfe).subs(),
                crate::msg::DsCmdView::AddTlmSet(s) => {
                    if has_set_id(old(self).sets(), s.id) {
                        *final(self) == *old(self) && final(rfe).subs() == old(rfe).subs()
                    } else {
                        final(self).sets() == old(self).sets().push(s) && final(self).enabled()
                            == old(self).enabled() && final(self).out() == old(self).out() && final(rfe).subs() == ds_enabled_targets(final(self).sets())
                    }
                },
                crate::msg::DsCmdView::RemoveTlmSet(id) => {
                    if has_set_id(old(self).sets(), id) {
                        exists|i: int|
                            0 <= i < old(self).sets().len() && (#[trigger] old(self).sets()[i]).id
                                == id && final(self).sets() == old(self).sets().remove(i) && final(rfe).subs() == ds_enabled_targets(final(self).sets())
                    } else {
                        *final(self) == *old(self) && final(rfe).subs() == old(rfe).subs()
                    }
                },
                crate::msg::DsCmdView::DisableTlmSet(id) => {
                    if has_set_id(old(self).sets(), id) {
                        exists|i: int|
                            0 <= i < old(self).sets().len() && (#[trigger] old(self).sets()[i]).id
                                == id && final(self).sets() == old(self).sets().update(
                                i,
                                DsTlmSetView { enabled: false, ..old(self).sets()[i] },
                            ) && final(rfe).subs() == ds_enabled_targets(final(self).sets())
                    } else {
                        *final(self) == *old(self) && final(rfe).subs() == old(rfe).subs()
                    }
                },
                crate::msg::DsCmdView::EnablTlmSet(id) => {
                    if has_set_id(old(self).sets(), id) {
                        exists|i: int|
                            0 <= i < old(self).sets().len() && (#[trigger] old(self).sets()[i]).id
                                == id && final(self).sets() == old(self).sets().update(
                                i,
                                DsTlmSetView { enabled: true, ..old(self).sets()[i] },
                            ) && final(rfe).subs() == ds_enabled_targets(final(self).sets())
                    } else {
                        *final(self) == *old(self) && final(rfe).subs() == old(rfe).subs()
                    }
                },
            },
    {
        match cmd {
            DsCmd::Noop => {},
            DsCmd::Reset => {
                self.data = fresh_ds_data();
                proof {
                    assert(self.file_ids() =~= Seq::<TlmSetId>::empty());
                }
            },
            DsCmd::CloseAll => {
                let ghost fids0 = self.file_ids();
                let mut i: usize = 0;
                while i < self.data.file_list.len()
                    invariant
                        self.sets() == old(self).sets(),
                        self.enabled() == old(self).enabled(),
                        self.out() == old(self).out(),
                        self.file_ids() == fids0,
                        self.writes() == old(self).writes(),
                    decreases self.data.file_list@.len() - i,
                {
                    let mut entry = self.data.file_list.remove(i);
                    entry.1.close();
                    self.data.file_list.insert(i, entry);
                    proof {
                        assert(self.file_ids() =~= fids0);
                    }
                    i = i + 1;
                }
            },
            DsCmd::Close(id) => {
                let ghost fids0 = self.file_ids();
                let mut i: usize = 0;
                let mut found = false;
                while i < self.data.file_list.len() && !found
                    invariant
                        self.sets() == old(self).sets(),
                        self.enabled() == old(self).enabled(),
                        self.out() == old(self).out(),
                        self.file_ids() == fids0,
                        self.writes() == old(self).writes(),
                        i <= self.data.file_list@.len(),
                    decreases self.data.file_list@.len() - i,
                {
                    if self.data.file_list[i].0 == id {
                        let mut entry = self.data.file_list.remove(i);
                        entry.1.close();
                        self.data.file_list.insert(i, entry);
                        found = true;
                        proof {
                            assert(self.file_ids() =~= fids0);
                        }
                    }
                    i = i + 1;
                }
            },
            DsCmd::AddTlmSet(ds_tlm_set) => {
                let ghost sv = ds_tlm_set.deep_view();
                match self.find_set(ds_tlm_set.id) {
                    Option::Some(_) => {},
                    Option::None => {
                        let ghost prior = self.tlm_sets.deep_view();
                        self.tlm_sets.push(ds_tlm_set);
                        proof {
                            assert(self.tlm_sets.deep_view() =~= prior.push(sv));
                        }
                        self.update_subscriptions(rfe);
                    },
                }
            },
            DsCmd::RemoveTlmSet(set_id) => {
                match self.find_set(set_id) {
                    Option::Some(i) => {
                        let ghost prior = self.tlm_sets.deep_view();
                        let _removed = self.tlm_sets.remove(i);
                        proof {
                            assert(self.tlm_sets.deep_view() =~= prior.remove(i as int));
                        }
                        self.update_subscriptions(rfe);
                    },
                    Option::None => {},
                }
            },
            DsCmd::DisableTlmSet(set_id) => {
                match self.find_set(set_id) {
                    Option::Some(i) => {
                        let ghost prior = self.tlm_sets.deep_view();
                        let mut set = self.tlm_sets.remove(i);
                        set.enabled = false;
                        let ghost setv = set.deep_view();
                        self.tlm_sets.insert(i, set);
                        proof {
                            assert(self.tlm_sets.deep_view() =~= prior.update(
                                i as int,
                                DsTlmSetView { enabled: false, ..prior[i as int] },
                            ));
                        }
                        self.update_subscriptions(rfe);
                    },
                    Option::None => {},
                }
            },
            DsCmd::EnablTlmSet(set_id) => {
                match self.find_set(set_id) {
                    Option::Some(i) => {
                        let ghost prior = self.tlm_sets.deep_view();
                        let mut set = self.tlm_sets.remove(i);
                        set.enabled = true;
                        self.tlm_sets.insert(i, set);
                        proof {
                            assert(self.tlm_sets.deep_view() =~= prior.update(
                                i as int,
                                DsTlmSetView { enabled: true, ..prior[i as int] },
                            ));
                        }
                        self.update_subscriptions(rfe);
                    },
                    Option::None => {},
                }
            },
        }
    }

    /// Write one encoded packet through the set's file, creating the file
    /// table entry on first use (never otherwise), and account the bytes on
    /// success.
    fn write_selected(&mut self, set_id: TlmSetId, path: &String, pkt: &MsgPacket)
        ensures
            final(self).sets() == old(self).sets(),
            final(self).enabled() == old(self).enabled(),
            final(self).out().counter == old(self).out().counter,
            final(self).out().bytes_written == old(self).out().bytes_written,
            old(self).file_ids().contains(set_id) ==> final(self).file_ids() == old(
                self,
            ).file_ids(),
            !old(self).file_ids().contains(set_id) ==> final(self).file_ids() == old(
                self,
            ).file_ids().push(set_id),
            final(self).writes().len() == old(self).writes().len() + 1,
            final(self).writes().drop_last() == old(self).writes(),
            final(self).writes().last().set == set_id,
            final(self).writes().last().bytes == spec_packet(pkt.deep_view()),
            final(self).out().bytes_written_this_cycle == (if final(self).writes().last().stored {
                (((old(self).out().bytes_written_this_cycle + spec_packet(
                    pkt.deep_view(),
                ).len()) as int) % 0x100000000) as u32
            } else {
                old(self).out().bytes_written_this_cycle
            }),
    {
        let ghost fids0 = self.file_ids();
        let mut idx: usize = 0;
        let mut found = false;
        while idx < self.data.file_list.len()
            invariant_except_break
                !found,
                forall|j: int| 0 <= j < idx ==> #[trigger] self.file_ids()[j] != set_id,
            invariant
                idx <= self.data.file_list@.len(),
                self.sets() == old(self).sets(),
                self.enabled() == old(self).enabled(),
                self.out() == old(self).out(),
                self.file_ids() == fids0,
                self.writes() == old(self).writes(),
            ensures
                idx <= self.data.file_list@.len(),
                found ==> idx < self.data.file_list@.len() && fids0[idx as int] == set_id,
                !found ==> !fids0.contains(set_id),
                self.sets() == old(self).sets(),
                self.enabled() == old(self).enabled(),
                self.out() == old(self).out(),
                self.file_ids() == fids0,
                self.writes() == old(self).writes(),
            decreases self.data.file_list@.len() - idx,
        {
            if self.data.file_list[idx].0 == set_id {
                found = true;
                proof {
                    assert(self.file_ids()[idx as int] == set_id);
                }
                break;
            }
            proof {
                assert(self.file_ids()[idx as int] != set_id);
            }
            idx = idx + 1;
        }
        if !found {
            let f = F::new(path.clone());
            idx = self.data.file_list.len();
            self.data.file_list.push((set_id, f));
            proof {
                assert(self.file_ids() =~= fids0.push(set_id));
            }
        }
        let bytes = encode_packet(pkt);
        let ghost bdv = bytes@;
        let ghost fids1 = self.file_ids();
        let ghost list1 = self.data.file_list@;
        let mut entry = self.data.file_list.remove(idx);
        let write_result = entry.1.write(bytes.as_slice());
        self.data.file_list.insert(idx, entry);
        proof {
            assert(entry.0 == list1[idx as int].0);
            assert(self.data.file_list@ =~= list1.remove(idx as int).insert(
                idx as int,
                self.data.file_list@[idx as int],
            ));
            assert(self.file_ids() =~= fids1);
        }
        let stored = write_result.is_ok();
        let ghost log_pre = self.write_log@;
        self.write_log = Ghost(
            self.write_log@.push(WriteRecord { set: set_id, bytes: bdv, stored }),
        );
        proof {
            assert(self.writes().drop_last() =~= log_pre);
        }
        if stored {
            let low = (bytes.len() as u64) % 0x100000000;
            self.data.out_data.bytes_written_this_cycle =
                self.data.out_data.bytes_written_this_cycle.wrapping_add(low as u32);
            proof {
                let m = 0x100000000int;
                let l = bdv.len() as int;
                let c0 = old(self).out().bytes_written_this_cycle as int;
                vstd::arithmetic::div_mod::lemma_fundamental_div_mod(l, m);
                vstd::arithmetic::div_mod::lemma_mod_multiples_vanish(l / m, c0 + (l % m), m);
                assert(self.data.out_data.bytes_written_this_cycle == (((c0 + l) % m) as u32));
            }
        }
    }

    /// Run one non-command packet through every enabled set's items,
    /// advancing each matching item's counter and storing the packet once
    /// per selecting item.
    fn store_packet<D: TimeDriver + Copy>(&mut self, pkt: &MsgPacket)
        ensures
            final(self).sets().len() == old(self).sets().len(),
            forall|i: int|
                0 <= i < final(self).sets().len() ==> #[trigger] final(self).sets()[i] == (
                if old(self).sets()[i].enabled {
                    DsTlmSetView {
                        items: advance_items(
                            old(self).sets()[i].items,
                            pkt.deep_view().to_target(),
                        ),
                        ..old(self).sets()[i]
                    }
                } else {
                    old(self).sets()[i]
                }),
            final(self).enabled() == old(self).enabled(),
            final(self).out().counter == old(self).out().counter,
            final(self).out().bytes_written == old(self).out().bytes_written,
            final(self).file_ids().len() >= old(self).file_ids().len(),
            final(self).file_ids().take(old(self).file_ids().len() as int) == old(self).file_ids(),
            forall|j: int|
                old(self).file_ids().len() <= j < final(self).file_ids().len() ==> has_set_id(
                    old(self).sets(),
                    #[trigger] final(self).file_ids()[j],
                ),
            final(self).writes().len() == old(self).writes().len() + ds_select_count(
                old(self).sets(),
                pkt.deep_view().to_target(),
            ),
            final(self).writes().take(old(self).writes().len() as int) == old(self).writes(),
            forall|j: int|
                old(self).writes().len() <= j < final(self).writes().len() ==> (#[trigger] final(self).writes()[j]).bytes == spec_packet(pkt.deep_view()),
            final(self).out().bytes_written_this_cycle == (((old(self).out().bytes_written_this_cycle
                + stored_sum(final(self).writes().skip(old(self).writes().len() as int)))
                % 0x100000000) as u32),
    {
        let target = pkt.to_target();
        let ghost pre = self.tlm_sets.deep_view();
        let mut i: usize = 0;
        proof {
            assert(pre.take(0) =~= Seq::<DsTlmSetView>::empty());
            assert(self.writes().skip(self.writes().len() as int) =~= Seq::<WriteRecord>::empty());
            assert(self.writes().take(self.writes().len() as int) =~= self.writes());
        }
        while i < self.tlm_sets.len()
            invariant
                i <= self.tlm_sets@.len(),
                self.tlm_sets@.len() == pre.len(),
                target == pkt.deep_view().to_target(),
                forall|j: int|
                    0 <= j < i ==> #[trigger] self.sets()[j] == (
                    if pre[j].enabled {
                        DsTlmSetView { items: advance_items(pre[j].items, target), ..pre[j] }
                    } else {
                        pre[j]
                    }),
                forall|j: int| i <= j < pre.len() ==> #[trigger] self.sets()[j] == pre[j],
                self.enabled() == old(self).enabled(),
                self.out().counter == old(self).out().counter,
                self.out().bytes_written == old(self).out().bytes_written,
                self.file_ids().len() >= old(self).file_ids().len(),
                self.file_ids().take(old(self).file_ids().len() as int) == old(self).file_ids(),
                forall|j: int|
                    old(self).file_ids().len() <= j < self.file_ids().len() ==> has_set_id(
                        pre,
                        #[trigger] self.file_ids()[j],
                    ),
                self.writes().len() == old(self).writes().len() + ds_select_count(
                    pre.take(i as int),
                    target,
                ),
                self.writes().take(old(self).writes().len() as int) == old(self).writes(),
                forall|j: int|
                    old(self).writes().len() <= j < self.writes().len() ==> (#[trigger] self.writes()[j]).bytes
                        == spec_packet(pkt.deep_view()),
                self.out().bytes_written_this_cycle == (((old(self).out().bytes_written_this_cycle
                    + stored_sum(self.writes().skip(old(self).writes().len() as int)))
                    % 0x100000000) as u32),
                old(self).sets() == pre,
            decreases self.tlm_sets@.len() - i,
        {
            let ghost list_pre = self.tlm_sets.deep_view();
            let ghost elem_pre = self.tlm_sets@[i as int];
            proof {
                assert(list_pre == self.sets());
                assert(self.sets()[i as int] == pre[i as int]);
            }
            let mut set = self.tlm_sets.remove(i);
            proof {
                assert(self.tlm_sets.deep_view() =~= list_pre.remove(i as int));
                assert(set == elem_pre);
                assert(list_pre[i as int] == elem_pre.deep_view());
                assert(list_pre[i as int] == pre[i as int]);
                assert(set.deep_view() == pre[i as int]);
            }
            if set.enabled {
                let set_id = set.id;
                proof {
                    assert(pre[i as int].id == set_id);
                    assert(has_set_id(pre, set_id));
                }
                let ghost items0 = set.items.deep_view();
                let mut j: usize = 0;
                while j < set.items.len()
                    invariant
                        j <= set.items@.len(),
                        set.items@.len() == items0.len(),
                        set.id == pre[i as int].id,
                        set.enabled == pre[i as int].enabled,
                        set.path@ == pre[i as int].path,
                        items0 == pre[i as int].items,
                        target == pkt.deep_view().to_target(),
                        forall|k: int|
                            0 <= k < j ==> set.items@[k] == advance_item(#[trigger] items0[k], target),
                        forall|k: int| j <= k < items0.len() ==> #[trigger] set.items@[k] == items0[k],
                        self.tlm_sets.deep_view() == list_pre.remove(i as int),
                        i < pre.len(),
                        list_pre.len() == pre.len(),
                        self.sets().len() == pre.len() - 1,
                        self.enabled() == old(self).enabled(),
                        self.out().counter == old(self).out().counter,
                        self.out().bytes_written == old(self).out().bytes_written,
                        self.file_ids().len() >= old(self).file_ids().len(),
                        self.file_ids().take(old(self).file_ids().len() as int) == old(
                            self,
                        ).file_ids(),
                        forall|j2: int|
                            old(self).file_ids().len() <= j2 < self.file_ids().len()
                                ==> has_set_id(pre, #[trigger] self.file_ids()[j2]),
                        self.writes().len() == old(self).writes().len() + ds_select_count(
                            pre.take(i as int),
                            target,
                        ) + items_select_count(items0.take(j as int), target),
                        self.writes().take(old(self).writes().len() as int) == old(self).writes(),
                        forall|j2: int|
                            old(self).writes().len() <= j2 < self.writes().len() ==> (
                            #[trigger] self.writes()[j2]).bytes == spec_packet(pkt.deep_view()),
                        self.out().bytes_written_this_cycle == (((old(self).out().bytes_written_this_cycle
                            + stored_sum(self.writes().skip(old(self).writes().len() as int)))
                            % 0x100000000) as u32),
                        has_set_id(pre, set_id),
                        set_id == pre[i as int].id,
                    decreases set.items@.len() - j,
                {
                    let ghost orig_item = set.items@[j as int];
                    let mut item = set.items.remove(j);
                    let selected = match_item(&mut item, target);
                    set.items.insert(j, item);
                    proof {
                        assert(orig_item == items0[j as int]);
                        assert(selected == item_selects(items0[j as int], target));
                        assert(items0.take(j + 1) =~= items0.take(j as int).push(
                            items0[j as int],
                        ));
                        lemma_items_select_count_snoc(
                            items0.take(j as int),
                            items0[j as int],
                            target,
                        );
                    }
                    if selected {
                        let path = set.path.clone();
                        let ghost fids_pre = self.file_ids();
                        let ghost w_pre = self.writes();
                        self.write_selected(set_id, &path, pkt);
                        proof {
                            if !fids_pre.contains(set_id) {
                                assert(self.file_ids().take(fids_pre.len() as int) =~= fids_pre);
                            }
                            assert(self.file_ids().take(old(self).file_ids().len() as int) =~= old(
                                self,
                            ).file_ids());
                            let w0 = old(self).writes();
                            let appended_pre = w_pre.skip(w0.len() as int);
                            let rec = self.writes().last();
                            assert(self.writes().take(w0.len() as int) =~= w0) by {
                                assert forall|j2: int| 0 <= j2 < w0.len() implies self.writes()[j2]
                                    == w0[j2] by {
                                    assert(self.writes().drop_last()[j2] == w_pre[j2]);
                                    assert(w_pre.take(w0.len() as int)[j2] == w0[j2]);
                                }
                            }
                            assert(self.writes().skip(w0.len() as int) =~= appended_pre.push(rec))
                                by {
                                assert forall|j2: int|
                                    0 <= j2 < self.writes().skip(w0.len() as int).len() implies
                                    self.writes().skip(w0.len() as int)[j2] == appended_pre.push(
                                    rec,
                                )[j2] by {
                                    if j2 < appended_pre.len() {
                                        assert(self.writes().drop_last()[w0.len() + j2]
                                            == w_pre[w0.len() + j2]);
                                    }
                                }
                            }
                            lemma_stored_sum_snoc(appended_pre, rec);
                            assert forall|j2: int|
                                old(self).writes().len() <= j2 < self.writes().len() implies (
                            #[trigger] self.writes()[j2]).bytes == spec_packet(
                                pkt.deep_view(),
                            ) by {
                                if j2 < w_pre.len() {
                                    assert(self.writes().drop_last()[j2] == w_pre[j2]);
                                }
                            }
                            if rec.stored {
                                let m = 0x100000000int;
                                let su = stored_sum(appended_pre);
                                let l = rec.bytes.len() as int;
                                lemma_stored_sum_nonneg(appended_pre);
                                vstd::arithmetic::div_mod::lemma_fundamental_div_mod(
                                    old(self).out().bytes_written_this_cycle as int + su,
                                    m,
                                );
                                vstd::arithmetic::div_mod::lemma_mod_multiples_vanish(
                                    (old(self).out().bytes_written_this_cycle as int + su) / m,
                                    ((old(self).out().bytes_written_this_cycle as int + su) % m)
                                        + l,
                                    m,
                                );
                            }
                        }
                    }
                    j = j + 1;
                }
                proof {
                    assert(set.items.deep_view() =~= advance_items(pre[i as int].items, target));
                    assert(items0.take(items0.len() as int) =~= items0);
                }
            } else {
                proof {
                    assert(set.items.deep_view() =~= set.items@);
                }
            }
            proof {
                assert(pre.take(i + 1) =~= pre.take(i as int).push(pre[i as int]));
                lemma_ds_select_count_snoc(pre.take(i as int), pre[i as int], target);
            }
            let ghost setv = set.deep_view();
            self.tlm_sets.insert(i, set);
            proof {
                assert(self.tlm_sets.deep_view() =~= list_pre.remove(i as int).insert(
                    i as int,
                    setv,
                ));
                assert(self.sets()[i as int] == setv);
                assert forall|j: int| 0 <= j < pre.len() && j != i implies #[trigger] self.sets()[j]
                    == list_pre[j] by {
                    if j < i {
                        assert(list_pre.remove(i as int).insert(i as int, setv)[j] == list_pre[j]);
                    } else {
                        assert(list_pre.remove(i as int).insert(i as int, setv)[j] == list_pre[j]);
                    }
                }
            }
            i = i + 1;
        }
        proof {
            assert(pre.take(pre.len() as int) =~= pre);
        }
    }
}

impl<F: DsFile, D: TimeDriver + Copy> App<D> for Ds<F> {
    /// Reset the state, apply the configured start latch and derive the
    /// subscriptions from the enabled sets.
    fn init(&mut self, rfe: &mut Rfe<D>) -> (r: Result<(), RfeError>) {
        self.data = fresh_ds_data();
        self.data.enabled = self.start_enabled;
        self.update_subscriptions(rfe);
        Ok(())
    }

    /// Count the pass, then drain the inbound queue: execute storage
    /// commands, and run every other packet through the enabled sets'
    /// filtering rules while storage is enabled. Whether a write succeeds is
    /// the file object's affair, so only the cycle's successful-write total
    /// is folded into the running byte count.
    fn run(&mut self, rfe: &mut Rfe<D>)
        ensures
            final(rfe).inbox().len() == 0,
            final(rfe).outbox() == old(rfe).outbox(),
            final(self).writes().len() >= old(self).writes().len(),
            final(self).writes().take(old(self).writes().len() as int) == old(self).writes(),
            !has_ds_cmd(old(rfe).inbox()) ==> {
                &&& final(rfe).subs() == old(rfe).subs()
                &&& final(rfe).subs_dirty() == old(rfe).subs_dirty()
                &&& final(self).enabled() == old(self).enabled()
                &&& final(self).out().counter == ((old(self).out().counter + 1) % 0x100000000) as u32
                &&& final(self).out().bytes_written == ((old(self).out().bytes_written
                    + final(self).out().bytes_written_this_cycle) % 0x100000000) as u32
                &&& (old(self).enabled() ==> final(self).sets() == ds_sets_after(
                    old(self).sets(),
                    old(rfe).inbox(),
                ) && old(self).file_ids().len() <= final(self).file_ids().len()
                    && final(self).file_ids().take(old(self).file_ids().len() as int) == old(
                    self,
                ).file_ids() && (forall|j: int|
                    old(self).file_ids().len() <= j < final(self).file_ids().len() ==> has_set_id(
                        old(self).sets(),
                        #[trigger] final(self).file_ids()[j],
                    )) && final(self).writes().len() == old(self).writes().len()
                    + ds_writes_expected(old(self).sets(), old(rfe).inbox()).len() && (forall|
                    j: int,
                |
                    0 <= j < ds_writes_expected(old(self).sets(), old(rfe).inbox()).len()
                        ==> (#[trigger] final(self).writes()[old(self).writes().len() + j]).bytes
                        == ds_writes_expected(old(self).sets(), old(rfe).inbox())[j])
                    && final(self).out().bytes_written_this_cycle == ((stored_sum(
                    final(self).writes().skip(old(self).writes().len() as int),
                ) % 0x100000000) as u32))
                &&& (!old(self).enabled() ==> final(self).sets() == old(self).sets()
                    && final(self).out().bytes_written_this_cycle == 0
                    && final(self).out().bytes_written == old(self).out().bytes_written
                    && final(self).file_ids() == old(self).file_ids()
                    && final(self).writes() == old(self).writes())
            },
    {
        self.data.out_data.counter = self.data.out_data.counter.wrapping_add(1);
        self.data.out_data.bytes_written_this_cycle = 0;
        let ghost inbox0 = rfe.inbox();
        let ghost sets0 = self.sets();
        let ghost enabled0 = self.data.enabled;
        let ghost c1 = self.data.out_data.counter;
        let ghost bw0 = self.data.out_data.bytes_written;
        let ghost fids0 = self.file_ids();
        let ghost w0 = self.writes();
        let ghost g: int = 0;
        proof {
            assert(inbox0.take(0) =~= Seq::<MsgPacketView>::empty());
            assert(c1 == ((old(self).out().counter + 1) % 0x100000000) as u32);
            assert(fids0.take(fids0.len() as int) =~= fids0);
            assert(w0.take(w0.len() as int) =~= w0);
            assert(w0.skip(w0.len() as int) =~= Seq::<WriteRecord>::empty());
            assert(ds_writes_expected(sets0, inbox0.take(0)) =~= Seq::<Seq<u8>>::empty());
        }
        loop
            invariant
                0 <= g <= inbox0.len(),
                rfe.inbox() == inbox0.skip(g),
                rfe.outbox() == old(rfe).outbox(),
                rfe.same_identity(old(rfe)),
                old(rfe).subs_dirty() ==> rfe.subs_dirty(),
                self.writes().len() >= w0.len(),
                self.writes().take(w0.len() as int) == w0,
                !has_ds_cmd(inbox0) ==> {
                    &&& rfe.subs() == old(rfe).subs()
                    &&& rfe.subs_dirty() == old(rfe).subs_dirty()
                    &&& self.enabled() == enabled0
                    &&& self.out().counter == c1
                    &&& self.out().bytes_written == bw0
                    &&& (enabled0 ==> self.sets() == ds_sets_after(sets0, inbox0.take(g))
                        && fids0.len() <= self.file_ids().len()
                        && self.file_ids().take(fids0.len() as int) == fids0 && (forall|j: int|
                        fids0.len() <= j < self.file_ids().len() ==> has_set_id(
                            sets0,
                            #[trigger] self.file_ids()[j],
                        )) && self.writes().len() == w0.len() + ds_writes_expected(
                        sets0,
                        inbox0.take(g),
                    ).len() && (forall|j: int|
                        0 <= j < ds_writes_expected(sets0, inbox0.take(g)).len() ==> (
                        #[trigger] self.writes()[w0.len() + j]).bytes == ds_writes_expected(
                            sets0,
                            inbox0.take(g),
                        )[j]) && self.out().bytes_written_this_cycle == ((stored_sum(
                        self.writes().skip(w0.len() as int),
                    ) % 0x100000000) as u32))
                    &&& (!enabled0 ==> self.sets() == sets0 && self.out().bytes_written_this_cycle
                        == 0 && self.file_ids() == fids0 && self.writes() == w0)
                },
            ensures
                rfe.inbox().len() == 0,
                rfe.outbox() == old(rfe).outbox(),
                rfe.same_identity(old(rfe)),
                old(rfe).subs_dirty() ==> rfe.subs_dirty(),
                self.writes().len() >= w0.len(),
                self.writes().take(w0.len() as int) == w0,
                !has_ds_cmd(inbox0) ==> {
                    &&& rfe.subs() == old(rfe).subs()
                    &&& rfe.subs_dirty() == old(rfe).subs_dirty()
                    &&& self.enabled() == enabled0
                    &&& self.out().counter == c1
                    &&& self.out().bytes_written == bw0
                    &&& (enabled0 ==> self.sets() == ds_sets_after(sets0, inbox0)
                        && fids0.len() <= self.file_ids().len()
                        && self.file_ids().take(fids0.len() as int) == fids0 && (forall|j: int|
                        fids0.len() <= j < self.file_ids().len() ==> has_set_id(
                            sets0,
                            #[trigger] self.file_ids()[j],
                        )) && self.writes().len() == w0.len() + ds_writes_expected(
                        sets0,
                        inbox0,
                    ).len() && (forall|j: int|
                        0 <= j < ds_writes_expected(sets0, inbox0).len() ==> (
                        #[trigger] self.writes()[w0.len() + j]).bytes == ds_writes_expected(
                            sets0,
                            inbox0,
                        )[j]) && self.out().bytes_written_this_cycle == ((stored_sum(
                        self.writes().skip(w0.len() as int),
                    ) % 0x100000000) as u32))
                    &&& (!enabled0 ==> self.sets() == sets0 && self.out().bytes_written_this_cycle
                        == 0 && self.file_ids() == fids0 && self.writes() == w0)
                },
            decreases rfe.inbox().len(),
        {
            let next = rfe.recv();
            match next {
                Option::None => {
                    proof {
                        assert(inbox0.take(g) =~= inbox0);
                    }
                    break ;
                },
                Option::Some(msg) => {
                    proof {
                        assert(inbox0.skip(g)[0] == inbox0[g]);
                        assert(inbox0.skip(g).drop_first() =~= inbox0.skip(g + 1));
                        assert(inbox0.take(g + 1) =~= inbox0.take(g).push(inbox0[g]));
                    }
                    match msg.msg {
                        Msg::DsCmd(cmd) => {
                            proof {
                                assert(inbox0[g].msg is DsCmd);
                                assert(has_ds_cmd(inbox0));
                            }
                            self.handle_cmd(rfe, cmd);
                        },
                        other => {
                            if self.data.enabled {
                                let pkt = MsgPacket {
                                    instance: msg.instance,
                                    msg: other,
                                    timestamp: msg.timestamp,
                                };
                                proof {
                                    assert(pkt.deep_view().to_target()
                                        == inbox0[g].to_target());
                                }
                                let ghost fids_pre = self.file_ids();
                                let ghost sets_pre = self.sets();
                                let ghost w_pre = self.writes();
                                self.store_packet::<D>(&pkt);
                                proof {
                                    assert(self.writes().take(w0.len() as int) =~= w0) by {
                                        assert forall|j2: int| 0 <= j2 < w0.len() implies
                                            self.writes()[j2] == w0[j2] by {
                                            assert(self.writes().take(w_pre.len() as int)[j2]
                                                == w_pre[j2]);
                                            assert(w_pre.take(w0.len() as int)[j2] == w0[j2]);
                                        }
                                    }
                                    if !has_ds_cmd(inbox0) && enabled0 {
                                        lemma_ds_sets_after_snoc(sets0, inbox0.take(g), inbox0[g]);
                                        assert(self.sets() =~= ds_sets_after(
                                            sets0,
                                            inbox0.take(g + 1),
                                        ));
                                        assert(self.file_ids().take(fids0.len() as int)
                                            =~= fids0) by {
                                            assert(self.file_ids().take(fids_pre.len() as int)
                                                == fids_pre);
                                            assert forall|j: int| 0 <= j < fids0.len() implies
                                                self.file_ids()[j] == fids0[j] by {
                                                assert(self.file_ids().take(
                                                    fids_pre.len() as int,
                                                )[j] == fids_pre[j]);
                                                assert(fids_pre.take(fids0.len() as int)[j]
                                                    == fids0[j]);
                                            }
                                        }
                                        lemma_ds_sets_after_ids(sets0, inbox0.take(g));
                                        assert forall|j: int|
                                            fids0.len() <= j < self.file_ids().len() implies
                                            has_set_id(sets0, #[trigger] self.file_ids()[j]) by {
                                            if j < fids_pre.len() {
                                                assert(self.file_ids().take(
                                                    fids_pre.len() as int,
                                                )[j] == fids_pre[j]);
                                                assert(self.file_ids()[j] == fids_pre[j]);
                                            } else {
                                                assert(has_set_id(
                                                    sets_pre,
                                                    self.file_ids()[j],
                                                ));
                                                let si = choose|si: int|
                                                    0 <= si < sets_pre.len() && (
                                                    #[trigger] sets_pre[si]).id
                                                        == self.file_ids()[j];
                                                assert(sets_pre[si].id == sets0[si].id);
                                            }
                                        }
                                        // the write log gained this packet's expected records
                                        lemma_ds_writes_expected_snoc(
                                            sets0,
                                            inbox0.take(g),
                                            inbox0[g],
                                        );
                                        let exp_pre = ds_writes_expected(sets0, inbox0.take(g));
                                        let exp_now = ds_writes_expected(
                                            sets0,
                                            inbox0.take(g + 1),
                                        );
                                        assert(self.writes().len() == w0.len() + exp_now.len());
                                        assert forall|j: int|
                                            0 <= j < exp_now.len() implies (#[trigger] self.writes()[w0.len()
                                            + j]).bytes == exp_now[j] by {
                                            if j < exp_pre.len() {
                                                assert(self.writes().take(
                                                    w_pre.len() as int,
                                                )[w0.len() + j] == w_pre[w0.len() + j]);
                                                assert(w_pre[w0.len() + j].bytes == exp_pre[j]);
                                            } else {
                                                assert(self.writes()[w0.len() + j].bytes
                                                    == spec_packet(pkt.deep_view()));
                                                assert(exp_now[j] == spec_packet(inbox0[g]));
                                            }
                                        }
                                        // the cycle total follows the accepted writes
                                        let added = self.writes().skip(w_pre.len() as int);
                                        assert(self.writes().skip(w0.len() as int)
                                            =~= w_pre.skip(w0.len() as int) + added) by {
                                            assert forall|j2: int|
                                                0 <= j2 < self.writes().skip(
                                                    w0.len() as int,
                                                ).len() implies self.writes().skip(
                                                w0.len() as int,
                                            )[j2] == (w_pre.skip(w0.len() as int) + added)[j2] by {
                                                if j2 < w_pre.len() - w0.len() {
                                                    assert(self.writes().take(
                                                        w_pre.len() as int,
                                                    )[w0.len() + j2] == w_pre[w0.len() + j2]);
                                                }
                                            }
                                        }
                                        lemma_stored_sum_concat(
                                            w_pre.skip(w0.len() as int),
                                            added,
                                        );
                                        let m = 0x100000000int;
                                        let s1 = stored_sum(w_pre.skip(w0.len() as int));
                                        let s2 = stored_sum(added);
                                        lemma_stored_sum_nonneg(w_pre.skip(w0.len() as int));
                                        lemma_stored_sum_nonneg(added);
                                        vstd::arithmetic::div_mod::lemma_fundamental_div_mod(
                                            s1,
                                            m,
                                        );
                                        vstd::arithmetic::div_mod::lemma_mod_multiples_vanish(
                                            s1 / m,
                                            (s1 % m) + s2,
                                            m,
                                        );
                                        assert(self.out().bytes_written_this_cycle == ((
                                        stored_sum(self.writes().skip(w0.len() as int))
                                            % m) as u32));
                                    }
                                }
                            }
                        },
                    }
                    proof {
                        g = g + 1;
                    }
                },
            }
        }
        self.data.out_data.bytes_written = self.data.out_data.bytes_written.wrapping_add(
            self.data.out_data.bytes_written_this_cycle,
        );
    }

    /// Publish housekeeping telemetry: one packet of the current record,
    /// its counter synchronized to the run counter.
    fn hk(&mut self, rfe: &mut Rfe<D>)
        ensures
            final(self).hk_data() == (DsHk { counter: old(self).out().counter, ..old(self).hk_data() }),
            final(self).out() == old(self).out(),
            final(self).sets() == old(self).sets(),
            final(self).file_ids() == old(self).file_ids(),
            final(self).enabled() == old(self).enabled(),
            final(rfe).outbox().len() == old(rfe).outbox().len() + 1,
            final(rfe).outbox().drop_last() == old(rfe).outbox(),
            final(rfe).outbox().last().msg == MsgView::DsHk(final(self).hk_data()),
            final(rfe).outbox().last().instance == old(rfe).inst(),
            final(rfe).inbox() == old(rfe).inbox(),
            final(rfe).subs() == old(rfe).subs(),
            final(rfe).subs_dirty() == old(rfe).subs_dirty(),
    {
        self.data.hk.counter = self.data.out_data.counter;
        rfe.send(Msg::DsHk(self.data.hk));
    }

    /// Publish output telemetry: one packet of the current record.
    fn out_data(&mut self, rfe: &mut Rfe<D>)
        ensures
            final(self).hk_data() == old(self).hk_data(),
            final(self).out() == old(self).out(),
            final(self).sets() == old(self).sets(),
            final(self).file_ids() == old(self).file_ids(),
            final(self).enabled() == old(self).enabled(),
            final(rfe).outbox().len() == old(rfe).outbox().len() + 1,
            final(rfe).outbox().drop_last() == old(rfe).outbox(),
            final(rfe).outbox().last().msg == MsgView::DsOutData(old(self).out()),
            final(rfe).outbox().last().instance == old(rfe).inst(),
            final(rfe).inbox() == old(rfe).inbox(),
            final(rfe).subs() == old(rfe).subs(),
            final(rfe).subs_dirty() == old(rfe).subs_dirty(),
    {
        rfe.send(Msg::DsOutData(self.data.out_data));
    }

    fn get_app_rate(&self) -> Rate {
        Rate::Hz1
    }
}

} // verus!
