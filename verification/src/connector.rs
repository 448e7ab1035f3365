//! Connectors: bidirectional framed transports carrying packet batches
//! between this bus instance and a peer.
use crate::msg::{MsgPacket, MsgPacketView};
use std::collections::VecDeque;
use vstd::prelude::*;

verus! {

/// The observable state of a connector: every batch handed to `send`, and
/// the batches waiting to be returned by `recv`, oldest first.
#[verifier::ext_equal]
pub struct ConnectorModel {
    pub sent: Seq<Seq<MsgPacketView>>,
    pub inbound: Seq<Seq<MsgPacketView>>,
}

/// A bidirectional transport endpoint. `send` and `recv` must be
/// non-blocking; `recv` returns at most one batch per call. A connector
/// whose queues live in memory exposes them through `model`; one backed by
/// outside I/O models as `None` and promises nothing about its traffic.
pub trait Connector: Sized {
    /// The observable queues, where the connector has them. A connector
    /// backed by outside I/O keeps the default: nothing observable.
    open spec fn model(&self) -> Option<ConnectorModel> {
        None
    }

    /// A bound on how many more times `recv` can succeed in a row: the
    /// measure a drain loop terminates on. A verified connector supplies
    /// one; implementations outside the verifier keep the default and are
    /// not held to it.
    open spec fn recv_bound(&self) -> nat {
        0
    }

    /// Hand one batch to the peer.
    fn send(&mut self, msgs: Vec<MsgPacket>)
        ensures
            old(self).model() matches Some(m) ==> final(self).model() == Some(
                ConnectorModel { sent: m.sent.push(msgs.deep_view()), inbound: m.inbound },
            ),
            final(self).recv_bound() == old(self).recv_bound(),
    ;

    /// Poll for one inbound batch.
    fn recv(&mut self) -> (r: Option<Vec<MsgPacket>>)
        ensures
            old(self).model() matches Some(m) ==> {
                &&& m.inbound.len() == 0 ==> r is None && final(self).model() == Some(m)
                &&& m.inbound.len() > 0 ==> (r matches Some(v) && v.deep_view() == m.inbound[0]
                    && final(self).model() == Some(
                    ConnectorModel { sent: m.sent, inbound: m.inbound.drop_first() },
                ))
            },
            r is Some ==> final(self).recv_bound() < old(self).recv_bound(),
    ;
}

/// An in-memory connector: what is sent accumulates in an observable log,
/// and inbound batches are queued by hand. Useful as a loopback or test
/// endpoint.
pub struct MemConnector {
    sent: Vec<Vec<MsgPacket>>,
    inbound: VecDeque<Vec<MsgPacket>>,
}

impl MemConnector {
    pub fn new() -> (r: MemConnector)
        ensures
            r.model() == Some(
                ConnectorModel {
                    sent: Seq::<Seq<MsgPacketView>>::empty(),
                    inbound: Seq::<Seq<MsgPacketView>>::empty(),
                },
            ),
    {
        let r = MemConnector { sent: Vec::new(), inbound: VecDeque::new() };
        proof {
            assert(r.sent.deep_view() =~= Seq::<Seq<MsgPacketView>>::empty());
            assert(r.inbound.deep_view() =~= Seq::<Seq<MsgPacketView>>::empty());
        }
        r
    }

    /// Queue a batch for the next `recv` calls, as a peer would.
    pub fn push_incoming(&mut self, msgs: Vec<MsgPacket>)
        ensures
            old(self).model() matches Some(m) ==> final(self).model() == Some(
                ConnectorModel { sent: m.sent, inbound: m.inbound.push(msgs.deep_view()) },
            ),
    {
        let ghost mdv = msgs.deep_view();
        self.inbound.push_back(msgs);
        proof {
            assert(self.inbound.deep_view() =~= old(self).inbound.deep_view().push(mdv));
        }
    }

    /// Take the log of sent batches, leaving it empty.
    pub fn take_sent(&mut self) -> (r: Vec<Vec<MsgPacket>>)
        ensures
            old(self).model() matches Some(m) ==> r.deep_view() == m.sent && final(self).model()
                == Some(ConnectorModel { sent: Seq::<Seq<MsgPacketView>>::empty(), inbound: m.inbound }),
    {
        let r = self.sent.split_off(0);
        proof {
            assert(r@ =~= old(self).sent@);
            assert(r.deep_view() =~= old(self).sent.deep_view());
            assert(self.sent.deep_view() =~= Seq::<Seq<MsgPacketView>>::empty());
        }
        r
    }
}

impl Connector for MemConnector {
    closed spec fn model(&self) -> Option<ConnectorModel> {
        Some(ConnectorModel { sent: self.sent.deep_view(), inbound: self.inbound.deep_view() })
    }

    closed spec fn recv_bound(&self) -> nat {
        self.inbound@.len()
    }

    fn send(&mut self, msgs: Vec<MsgPacket>) {
        let ghost mdv = msgs.deep_view();
        self.sent.push(msgs);
        proof {
            assert(self.sent.deep_view() =~= old(self).sent.deep_view().push(mdv));
        }
    }

    fn recv(&mut self) -> (r: Option<Vec<MsgPacket>>) {
        let r = self.inbound.pop_front();
        proof {
            if old(self).inbound@.len() > 0 {
                assert(self.inbound.deep_view() =~= old(self).inbound.deep_view().drop_first());
            }
        }
        r
    }
}

} // verus!
