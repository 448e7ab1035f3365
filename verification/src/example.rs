//! The example app: a canonical bus consumer that counts its own runs,
//! answers its command set, and publishes housekeeping and output
//! telemetry.
use crate::handle::Rfe;
use crate::msg::{ExampleCmd, ExampleHk, ExampleOutData, Instance, Msg, MsgKind, MsgPacketView,
    MsgView, TargetMsg};
use crate::sched::{App, Rate, RfeError};
use crate::time::TimeDriver;
use crate::utils::PerfData;
use vstd::prelude::*;

verus! {

/// The example app's mutable state.
#[derive(Clone, Copy, PartialEq, Debug, Structural, Eq)]
pub struct ExampleData {
    pub hk: ExampleHk,
    pub out_data: ExampleOutData,
}

/// The example app.
pub struct Example {
    data: ExampleData,
}

/// Whether a packet carries the example app's reset command.
pub open spec fn is_example_reset(p: MsgPacketView) -> bool {
    p.msg matches MsgView::ExampleCmd(c) && c is Reset
}

/// The run counter after draining `inbox` from the given value: each reset
/// command zeroes it.
pub open spec fn example_counter_after(c0: u32, inbox: Seq<MsgPacketView>) -> u32
    decreases inbox.len(),
{
    if inbox.len() == 0 {
        c0
    } else {
        example_counter_after(
            if is_example_reset(inbox[0]) {
                0u32
            } else {
                c0
            },
            inbox.drop_first(),
        )
    }
}

proof fn lemma_example_counter_snoc(c0: u32, s: Seq<MsgPacketView>, x: MsgPacketView)
    ensures
        example_counter_after(c0, s.push(x)) == (if is_example_reset(x) {
            0u32
        } else {
            example_counter_after(c0, s)
        }),
    decreases s.len(),
{
    if s.len() == 0 {
        assert(s.push(x)[0] == x);
        assert(s.push(x).drop_first() =~= Seq::<MsgPacketView>::empty());
        assert(example_counter_after(c0, s.push(x)) == example_counter_after(
            if is_example_reset(x) {
                0u32
            } else {
                c0
            },
            Seq::<MsgPacketView>::empty(),
        ));
    } else {
        let c1 = if is_example_reset(s[0]) {
            0u32
        } else {
            c0
        };
        assert(s.push(x)[0] == s[0]);
        assert(s.push(x).drop_first() =~= s.drop_first().push(x));
        assert(example_counter_after(c0, s.push(x)) == example_counter_after(
            c1,
            s.drop_first().push(x),
        ));
        lemma_example_counter_snoc(c1, s.drop_first(), x);
        assert(example_counter_after(c0, s) == example_counter_after(c1, s.drop_first()));
    }
}

/// The example app's state after a reset.
pub open spec fn example_data_zero() -> ExampleData {
    ExampleData {
        hk: ExampleHk { perf: PerfData { enter_time: 0, elapsed: 0, rate: 0 }, counter: 0 },
        out_data: ExampleOutData { counter: 0 },
    }
}

fn fresh_example_data() -> (r: ExampleData)
    ensures
        r == example_data_zero(),
{
    ExampleData {
        hk: ExampleHk { perf: PerfData { enter_time: 0, elapsed: 0, rate: 0 }, counter: 0 },
        out_data: ExampleOutData { counter: 0 },
    }
}

impl Example {
    pub fn new() -> (r: Example)
        ensures
            r.data() == example_data_zero(),
    {
        Example { data: fresh_example_data() }
    }

    /// The app's current state.
    pub closed spec fn data(&self) -> ExampleData {
        self.data
    }
}

impl<D: TimeDriver + Copy> App<D> for Example {
    /// Reset, then subscribe to remote example housekeeping and to commands
    /// addressed to this instance.
    fn init(&mut self, rfe: &mut Rfe<D>) -> (r: Result<(), RfeError>) {
        self.data = fresh_example_data();
        rfe.subscribe(TargetMsg::new(Instance::Other, MsgKind::ExampleHk));
        let instance = rfe.get_instance();
        rfe.subscribe(TargetMsg::new(instance, MsgKind::ExampleCmd));
        Ok(())
    }

    /// Count the pass, drain the inbound queue answering commands, and ask
    /// for a reset once the counter passes ten.
    fn run(&mut self, rfe: &mut Rfe<D>)
        ensures
            final(rfe).inbox().len() == 0,
            final(rfe).subs() == old(rfe).subs(),
            final(rfe).subs_dirty() == old(rfe).subs_dirty(),
            final(self).data().out_data.counter == example_counter_after(
                ((old(self).data().out_data.counter + 1) % 0x100000000) as u32,
                old(rfe).inbox(),
            ),
            final(self).data().out_data.counter <= 10 ==> final(rfe).outbox() == old(rfe).outbox(),
            final(self).data().out_data.counter > 10 ==> {
                &&& final(rfe).outbox().len() == old(rfe).outbox().len() + 1
                &&& final(rfe).outbox().drop_last() == old(rfe).outbox()
                &&& final(rfe).outbox().last().msg == MsgView::ExampleCmd(ExampleCmd::Reset)
                &&& final(rfe).outbox().last().instance == old(rfe).inst()
            },
    {
        self.data.hk.perf.enter(rfe);
        self.data.out_data.counter = self.data.out_data.counter.wrapping_add(1);
        let ghost inbox0 = rfe.inbox();
        let ghost c1 = self.data.out_data.counter;
        let ghost g: int = 0;
        proof {
            assert(inbox0.take(0) =~= Seq::<MsgPacketView>::empty());
            assert(c1 == ((old(self).data().out_data.counter + 1) % 0x100000000) as u32);
        }
        loop
            invariant
                0 <= g <= inbox0.len(),
                rfe.inbox() == inbox0.skip(g),
                rfe.subs() == old(rfe).subs(),
                rfe.subs_dirty() == old(rfe).subs_dirty(),
                rfe.outbox() == old(rfe).outbox(),
                rfe.same_identity(old(rfe)),
                self.data.out_data.counter == example_counter_after(c1, inbox0.take(g)),
            ensures
                rfe.inbox().len() == 0,
                rfe.subs() == old(rfe).subs(),
                rfe.subs_dirty() == old(rfe).subs_dirty(),
                rfe.outbox() == old(rfe).outbox(),
                rfe.same_identity(old(rfe)),
                self.data.out_data.counter == example_counter_after(c1, inbox0),
            decreases rfe.inbox().len(),
        {
            let next = rfe.recv();
            match next {
                Option::None => {
                    proof {
                        assert(inbox0.skip(g).len() == 0);
                        assert(inbox0.take(g) =~= inbox0);
                    }
                    break ;
                },
                Option::Some(msg) => {
                    proof {
                        assert(inbox0.skip(g)[0] == inbox0[g]);
                        assert(inbox0.skip(g).drop_first() =~= inbox0.skip(g + 1));
                        assert(inbox0.take(g + 1) =~= inbox0.take(g).push(inbox0[g]));
                        lemma_example_counter_snoc(c1, inbox0.take(g), inbox0[g]);
                    }
                    match msg.msg {
                        Msg::ExampleCmd(cmd) => {
                            match cmd {
                                ExampleCmd::Noop => {},
                                ExampleCmd::Reset => {
                                    self.data = fresh_example_data();
                                },
                            }
                        },
                        _ => {},
                    }
                    proof {
                        g = g + 1;
                    }
                },
            }
        }
        if self.data.out_data.counter > 10 {
            rfe.send(Msg::ExampleCmd(ExampleCmd::Reset));
        }
        self.data.hk.perf.exit(rfe);
    }

    /// Publish housekeeping telemetry: one packet of the current record,
    /// its counter synchronized to the run counter.
    fn hk(&mut self, rfe: &mut Rfe<D>)
        ensures
            final(self).data() == (ExampleData {
                hk: ExampleHk {
                    counter: old(self).data().out_data.counter,
                    ..old(self).data().hk
                },
                ..old(self).data()
            }),
            final(rfe).outbox().len() == old(rfe).outbox().len() + 1,
            final(rfe).outbox().drop_last() == old(rfe).outbox(),
            final(rfe).outbox().last().msg == MsgView::ExampleHk(final(self).data().hk),
            final(rfe).outbox().last().instance == old(rfe).inst(),
            final(rfe).inbox() == old(rfe).inbox(),
            final(rfe).subs() == old(rfe).subs(),
            final(rfe).subs_dirty() == old(rfe).subs_dirty(),
    {
        self.data.hk.counter = self.data.out_data.counter;
        rfe.send(Msg::ExampleHk(self.data.hk));
    }

    /// Publish output telemetry: one packet of the current record.
    fn out_data(&mut self, rfe: &mut Rfe<D>)
        ensures
            *final(self) == *old(self),
            final(rfe).outbox().len() == old(rfe).outbox().len() + 1,
            final(rfe).outbox().drop_last() == old(rfe).outbox(),
            final(rfe).outbox().last().msg == MsgView::ExampleOutData(
                old(self).data().out_data,
            ),
            final(rfe).outbox().last().instance == old(rfe).inst(),
            final(rfe).inbox() == old(rfe).inbox(),
            final(rfe).subs() == old(rfe).subs(),
            final(rfe).subs_dirty() == old(rfe).subs_dirty(),
    {
        rfe.send(Msg::ExampleOutData(self.data.out_data));
    }

    fn get_app_rate(&self) -> Rate {
        Rate::Hz1
    }
}

} // verus!
