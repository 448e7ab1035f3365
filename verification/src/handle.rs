//! The per-app bus endpoint: subscription set, outgoing queue, inbound
//! queue and time access.
use crate::msg::{Instance, Msg, MsgPacket, MsgPacketView, TargetMsg};
use crate::time::{TimeData, TimeDriver, Timestamp};
use std::collections::VecDeque;
use vstd::prelude::*;

verus! {

broadcast use {vstd::seq_lib::lemma_seq_contains_after_push, vstd::seq_lib::group_filter_ensures};

/// An app's handle onto the bus. Apps interact with the bus only through
/// this type; the scheduler owns one per registered app.
pub struct Rfe<D: TimeDriver + Copy> {
    subscriptions: Vec<TargetMsg>,
    msgs_to_send: Vec<MsgPacket>,
    msgs_received: VecDeque<MsgPacket>,
    instance: Instance,
    time_data: TimeData,
    time_driver: D,
    subs_updated: bool,
}

impl<D: TimeDriver + Copy> Rfe<D> {
    /// The subscription set.
    pub closed spec fn subs(&self) -> Set<TargetMsg> {
        self.subscriptions@.to_set()
    }

    /// The outgoing queue, oldest first.
    pub closed spec fn outbox(&self) -> Seq<MsgPacketView> {
        self.msgs_to_send.deep_view()
    }

    /// The inbound queue, oldest first.
    pub closed spec fn inbox(&self) -> Seq<MsgPacketView> {
        self.msgs_received.deep_view()
    }

    /// The identity of the hosting bus instance.
    pub closed spec fn inst(&self) -> Instance {
        self.instance
    }

    /// The scheduler-maintained time record this handle reads.
    pub closed spec fn time(&self) -> TimeData {
        self.time_data
    }

    /// The time driver this handle reads through.
    pub closed spec fn driver(&self) -> D {
        self.time_driver
    }

    /// Whether the subscription set changed since the scheduler last looked.
    pub closed spec fn subs_dirty(&self) -> bool {
        self.subs_updated
    }

    /// The parts of a handle that only the scheduler moves: identity, time
    /// and driver.
    pub open spec fn same_identity(&self, o: &Rfe<D>) -> bool {
        self.inst() == o.inst() && self.time() == o.time() && self.driver() == o.driver()
    }

    pub fn new(instance: Instance, time_data: TimeData, time_driver: D) -> (r: Rfe<D>)
        ensures
            r.inst() == instance,
            r.time() == time_data,
            r.driver() == time_driver,
            r.subs() == Set::<TargetMsg>::empty(),
            r.inbox() == Seq::<MsgPacketView>::empty(),
            r.outbox() == Seq::<MsgPacketView>::empty(),
            !r.subs_dirty(),
    {
        let r = Rfe {
            subscriptions: Vec::new(),
            msgs_to_send: Vec::new(),
            msgs_received: VecDeque::new(),
            instance,
            time_data,
            time_driver,
            subs_updated: false,
        };
        proof {
            assert(r.subs() =~= Set::<TargetMsg>::empty());
            assert(r.inbox() =~= Seq::<MsgPacketView>::empty());
            assert(r.outbox() =~= Seq::<MsgPacketView>::empty());
        }
        r
    }

    pub fn get_instance(&self) -> (r: Instance)
        ensures
            r == self.inst(),
    {
        self.instance
    }

    /// Whether `t` is in the subscription set.
    pub fn subscribes(&self, t: TargetMsg) -> (r: bool)
        ensures
            r == self.subs().contains(t),
    {
        let mut i: usize = 0;
        while i < self.subscriptions.len()
            invariant
                i <= self.subscriptions@.len(),
                forall|j: int| 0 <= j < i ==> self.subscriptions@[j] != t,
            decreases self.subscriptions@.len() - i,
        {
            if self.subscriptions[i] == t {
                assert(self.subscriptions@.contains(t));
                return true;
            }
            i = i + 1;
        }
        proof {
            assert(!self.subscriptions@.contains(t));
        }
        false
    }

    /// Add a target to the subscription set and mark it updated.
    pub fn subscribe(&mut self, msg: TargetMsg)
        ensures
            final(self).subs() == old(self).subs().insert(msg),
            final(self).subs_dirty(),
            final(self).inbox() == old(self).inbox(),
            final(self).outbox() == old(self).outbox(),
            final(self).same_identity(old(self)),
    {
        if !self.subscribes(msg) {
            let ghost pre = self.subscriptions@;
            self.subscriptions.push(msg);
            proof {
                assert forall|x: TargetMsg| #[trigger]
                    self.subscriptions@.contains(x) <==> (pre.contains(x) || x == msg) by {
                    if self.subscriptions@.contains(x) {
                        let j = choose|j: int|
                            0 <= j < self.subscriptions@.len() && self.subscriptions@[j] == x;
                        if j < pre.len() {
                            assert(pre[j] == x);
                        }
                    }
                    if pre.contains(x) {
                        let j = choose|j: int| 0 <= j < pre.len() && pre[j] == x;
                        assert(self.subscriptions@[j] == x);
                    }
                    if x == msg {
                        assert(self.subscriptions@[pre.len() as int] == x);
                    }
                }
                assert(self.subscriptions@.to_set() =~= pre.to_set().insert(msg));
            }
        } else {
            proof {
                assert(self.subscriptions@.to_set() =~= self.subscriptions@.to_set().insert(msg));
            }
        }
        self.subs_updated = true;
    }

    /// Add every target in `msgs` to the subscription set and mark it
    /// updated.
    pub fn subscribe_all(&mut self, msgs: &Vec<TargetMsg>)
        ensures
            final(self).subs() == old(self).subs().union(msgs@.to_set()),
            final(self).subs_dirty(),
            final(self).inbox() == old(self).inbox(),
            final(self).outbox() == old(self).outbox(),
            final(self).same_identity(old(self)),
    {
        let ghost pre = self.subs();
        let mut i: usize = 0;
        while i < msgs.len()
            invariant
                i <= msgs@.len(),
                self.subs() == pre.union(msgs@.take(i as int).to_set()),
                self.inbox() == old(self).inbox(),
                self.outbox() == old(self).outbox(),
                self.same_identity(old(self)),
                old(self).subs() == pre,
            decreases msgs@.len() - i,
        {
            self.subscribe(msgs[i]);
            proof {
                assert(msgs@.take(i + 1) =~= msgs@.take(i as int).push(msgs@[i as int]));
                assert(msgs@.take(i as int).push(msgs@[i as int]).to_set() =~= msgs@.take(
                    i as int,
                ).to_set().insert(msgs@[i as int]));
                assert(self.subs() =~= pre.union(msgs@.take(i + 1).to_set()));
            }
            i = i + 1;
        }
        proof {
            assert(msgs@.take(msgs@.len() as int) =~= msgs@);
        }
        self.subs_updated = true;
    }

    /// Remove a target from the subscription set and mark it updated.
    pub fn unsubscribe(&mut self, msg: &TargetMsg)
        ensures
            final(self).subs() == old(self).subs().remove(*msg),
            final(self).subs_dirty(),
            final(self).inbox() == old(self).inbox(),
            final(self).outbox() == old(self).outbox(),
            final(self).same_identity(old(self)),
    {
        let mut kept: Vec<TargetMsg> = Vec::new();
        let mut i: usize = 0;
        while i < self.subscriptions.len()
            invariant
                i <= self.subscriptions@.len(),
                kept@ == self.subscriptions@.take(i as int).filter(|y: TargetMsg| y != *msg),
            decreases self.subscriptions@.len() - i,
        {
            let x = self.subscriptions[i];
            proof {
                reveal(Seq::filter);
                assert(self.subscriptions@.take(i + 1).drop_last() =~= self.subscriptions@.take(
                    i as int,
                ));
                assert(self.subscriptions@.take(i + 1).last() == x);
            }
            if !(x == *msg) {
                kept.push(x);
            }
            i = i + 1;
        }
        proof {
            assert(self.subscriptions@.take(self.subscriptions@.len() as int)
                =~= self.subscriptions@);
        }
        self.subscriptions = kept;
        proof {
            let pre = old(self).subscriptions@;
            let pred = |y: TargetMsg| y != *msg;
            assert(self.subscriptions@ == pre.filter(pred));
            assert forall|x: TargetMsg| #[trigger]
                self.subscriptions@.contains(x) <==> (pre.contains(x) && x != *msg) by {
                if self.subscriptions@.contains(x) {
                    pre.lemma_filter_contains_rev(pred, x);
                    let j = choose|j: int|
                        0 <= j < pre.filter(pred).len() && pre.filter(pred)[j] == x;
                    assert(pred(pre.filter(pred)[j]));
                }
                if pre.contains(x) && x != *msg {
                    let j = choose|j: int| 0 <= j < pre.len() && pre[j] == x;
                    pre.lemma_filter_contains(pred, j);
                }
            }
            assert(self.subscriptions@.to_set() =~= pre.to_set().remove(*msg));
        }
        self.subs_updated = true;
    }

    /// Empty the subscription set and mark it updated.
    pub fn unsubscribe_all(&mut self)
        ensures
            final(self).subs() == Set::<TargetMsg>::empty(),
            final(self).subs_dirty(),
            final(self).inbox() == old(self).inbox(),
            final(self).outbox() == old(self).outbox(),
            final(self).same_identity(old(self)),
    {
        self.subscriptions.clear();
        self.subs_updated = true;
        proof {
            assert(self.subscriptions@.to_set() =~= Set::<TargetMsg>::empty());
        }
    }

    /// Enqueue an outbound packet carrying this handle's own instance and
    /// the current system time.
    pub fn send(&mut self, msg: Msg)
        ensures
            final(self).outbox().len() == old(self).outbox().len() + 1,
            final(self).outbox().drop_last() == old(self).outbox(),
            final(self).outbox().last().instance == old(self).inst(),
            final(self).outbox().last().msg == msg.deep_view(),
            old(self).driver().system_time_model(old(self).time()) matches Some(t) ==> final(self).outbox().last().timestamp == t,
            final(self).subs() == old(self).subs(),
            final(self).inbox() == old(self).inbox(),
            final(self).subs_dirty() == old(self).subs_dirty(),
            final(self).same_identity(old(self)),
    {
        let instance = self.get_instance();
        let ts = self.get_system_time();
        let p = MsgPacket::new(instance, msg, ts);
        let ghost pdv = p.deep_view();
        self.msgs_to_send.push(p);
        proof {
            assert(self.msgs_to_send.deep_view() =~= old(self).msgs_to_send.deep_view().push(pdv));
            assert(self.outbox().drop_last() =~= old(self).outbox());
        }
    }

    /// Enqueue an outbound packet addressed to `target`, with the current
    /// system time.
    pub fn send_cmd(&mut self, msg: Msg, target: Instance)
        ensures
            final(self).outbox().len() == old(self).outbox().len() + 1,
            final(self).outbox().drop_last() == old(self).outbox(),
            final(self).outbox().last().instance == target,
            final(self).outbox().last().msg == msg.deep_view(),
            old(self).driver().system_time_model(old(self).time()) matches Some(t) ==> final(self).outbox().last().timestamp == t,
            final(self).subs() == old(self).subs(),
            final(self).inbox() == old(self).inbox(),
            final(self).subs_dirty() == old(self).subs_dirty(),
            final(self).same_identity(old(self)),
    {
        let ts = self.get_system_time();
        let p = MsgPacket::new(target, msg, ts);
        let ghost pdv = p.deep_view();
        self.msgs_to_send.push(p);
        proof {
            assert(self.msgs_to_send.deep_view() =~= old(self).msgs_to_send.deep_view().push(pdv));
            assert(self.outbox().drop_last() =~= old(self).outbox());
        }
    }

    /// Append a packet to the inbound queue (scheduler fan-out).
    pub fn post_message(&mut self, msg: MsgPacket)
        ensures
            final(self).inbox() == old(self).inbox().push(msg.deep_view()),
            final(self).subs() == old(self).subs(),
            final(self).outbox() == old(self).outbox(),
            final(self).subs_dirty() == old(self).subs_dirty(),
            final(self).same_identity(old(self)),
    {
        let ghost pdv = msg.deep_view();
        self.msgs_received.push_back(msg);
        proof {
            assert(self.msgs_received.deep_view() =~= old(self).msgs_received.deep_view().push(
                pdv,
            ));
        }
    }

    /// Pop the oldest inbound packet, if any.
    pub fn recv(&mut self) -> (r: Option<MsgPacket>)
        ensures
            old(self).inbox().len() == 0 ==> r is None && final(self).inbox() == old(self).inbox(),
            old(self).inbox().len() > 0 ==> (r matches Some(p) && p.deep_view() == old(self).inbox()[0]
                && final(self).inbox() == old(self).inbox().drop_first()),
            final(self).subs() == old(self).subs(),
            final(self).outbox() == old(self).outbox(),
            final(self).subs_dirty() == old(self).subs_dirty(),
            final(self).same_identity(old(self)),
    {
        let r = self.msgs_received.pop_front();
        proof {
            if old(self).msgs_received@.len() > 0 {
                assert(self.msgs_received.deep_view() =~= old(
                    self,
                ).msgs_received.deep_view().drop_first());
            }
        }
        r
    }

    /// Time in microseconds since program start or power on.
    pub fn get_met_time(&self) -> (r: Timestamp)
        ensures
            self.driver().monotonic_time_model(self.time()) matches Some(t) ==> r == t,
    {
        self.time_driver.get_monotonic_time(self.time_data)
    }

    /// Time in microseconds relative to the system epoch.
    pub fn get_system_time(&self) -> (r: Timestamp)
        ensures
            self.driver().system_time_model(self.time()) matches Some(t) ==> r == t,
    {
        self.time_driver.get_system_time(self.time_data)
    }

    /// Drain the outgoing queue (scheduler outbound collection).
    pub(crate) fn take_outgoing(&mut self) -> (r: Vec<MsgPacket>)
        ensures
            r.deep_view() == old(self).outbox(),
            final(self).outbox() == Seq::<MsgPacketView>::empty(),
            final(self).subs() == old(self).subs(),
            final(self).inbox() == old(self).inbox(),
            final(self).subs_dirty() == old(self).subs_dirty(),
            final(self).same_identity(old(self)),
    {
        let r = self.msgs_to_send.split_off(0);
        proof {
            assert(r@ =~= old(self).msgs_to_send@);
            assert(r.deep_view() =~= old(self).outbox());
            assert(self.msgs_to_send.deep_view() =~= Seq::<MsgPacketView>::empty());
        }
        r
    }

    /// Copy the subscription list (scheduler subscription-sync reply).
    pub(crate) fn subs_vec(&self) -> (r: Vec<TargetMsg>)
        ensures
            r@.to_set() == self.subs(),
    {
        let mut r: Vec<TargetMsg> = Vec::new();
        let mut i: usize = 0;
        while i < self.subscriptions.len()
            invariant
                i <= self.subscriptions@.len(),
                r@ == self.subscriptions@.take(i as int),
            decreases self.subscriptions@.len() - i,
        {
            r.push(self.subscriptions[i]);
            proof {
                assert(self.subscriptions@.take(i + 1) =~= self.subscriptions@.take(
                    i as int,
                ).push(self.subscriptions@[i as int]));
            }
            i = i + 1;
        }
        proof {
            assert(r@ =~= self.subscriptions@);
        }
        r
    }

    /// Overwrite the time record (scheduler, once per tick).
    pub(crate) fn refresh_time(&mut self, time_data: TimeData)
        ensures
            final(self).time() == time_data,
            final(self).inst() == old(self).inst(),
            final(self).driver() == old(self).driver(),
            final(self).subs() == old(self).subs(),
            final(self).inbox() == old(self).inbox(),
            final(self).outbox() == old(self).outbox(),
            final(self).subs_dirty() == old(self).subs_dirty(),
    {
        self.time_data = time_data;
    }

    /// Whether the subscription set changed since the last tick.
    pub(crate) fn dirty(&self) -> (r: bool)
        ensures
            r == self.subs_dirty(),
    {
        self.subs_updated
    }

    /// Acknowledge a subscription change (scheduler bookkeeping).
    pub(crate) fn clear_dirty(&mut self)
        ensures
            !final(self).subs_dirty(),
            final(self).subs() == old(self).subs(),
            final(self).inbox() == old(self).inbox(),
            final(self).outbox() == old(self).outbox(),
            final(self).same_identity(old(self)),
    {
        self.subs_updated = false;
    }
}

} // verus!
