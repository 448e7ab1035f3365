//! End-to-end scheduler scenarios: loopback by subscription, peer
//! subscription sync, and time commands.
use rfe::connector::MemConnector;
use rfe::handle::Rfe;
use rfe::msg::{ExampleHk, ExampleOutData, Instance, Msg, MsgKind, MsgPacket, SubList, TargetMsg};
use rfe::sched::{App, Rate, RfeError, RfeInstance};
use rfe::time::SchTimeDriver;
use rfe::utils::PerfData;

/// A scripted test app: subscribes to a fixed set of targets at setup,
/// sends a fixed message on one tick, and records everything it receives
/// and the system time it reads on each pass.
struct ScriptApp {
    subs: Vec<TargetMsg>,
    send_on_pass: Option<(u32, Msg)>,
    send_in_init: Option<Msg>,
    pass: u32,
    received: Vec<MsgPacket>,
    times: Vec<u64>,
    late_sub: Option<(u32, TargetMsg)>,
}

impl ScriptApp {
    fn new(subs: Vec<TargetMsg>) -> ScriptApp {
        ScriptApp {
            subs,
            send_on_pass: None,
            send_in_init: None,
            pass: 0,
            received: Vec::new(),
            times: Vec::new(),
            late_sub: None,
        }
    }
}

impl App<SchTimeDriver> for ScriptApp {
    fn init(&mut self, rfe: &mut Rfe<SchTimeDriver>) -> Result<(), RfeError> {
        for t in &self.subs {
            rfe.subscribe(*t);
        }
        if let Some(msg) = &self.send_in_init {
            rfe.send(msg.clone());
        }
        Ok(())
    }

    fn run(&mut self, rfe: &mut Rfe<SchTimeDriver>) {
        self.times.push(rfe.get_system_time());
        while let Some(p) = rfe.recv() {
            self.received.push(p);
        }
        if let Some((pass, msg)) = &self.send_on_pass {
            if *pass == self.pass {
                rfe.send(msg.clone());
            }
        }
        if let Some((pass, target)) = &self.late_sub {
            if *pass == self.pass {
                rfe.subscribe(*target);
            }
        }
        self.pass += 1;
    }

    fn hk(&mut self, _rfe: &mut Rfe<SchTimeDriver>) {}

    fn out_data(&mut self, _rfe: &mut Rfe<SchTimeDriver>) {}

    fn get_app_rate(&self) -> Rate {
        Rate::Hz100
    }
}

fn example_hk_msg(counter: u32) -> Msg {
    Msg::ExampleHk(ExampleHk { perf: PerfData { enter_time: 0, elapsed: 0, rate: 0 }, counter })
}

/// An app's own packet is not observed in the tick it was sent; it arrives
/// exactly once on the next tick.
#[test]
fn loopback_arrives_next_tick() {
    let mut sched: RfeInstance<SchTimeDriver, ScriptApp, MemConnector> =
        RfeInstance::new(Instance::Example, SchTimeDriver::new());
    let mut app = ScriptApp::new(vec![TargetMsg::new(Instance::All, MsgKind::ExampleHk)]);
    app.send_on_pass = Some((0, example_hk_msg(1)));
    sched.add_app("example", app).unwrap();

    sched.run();
    assert_eq!(sched.get_app(0).unwrap().received.len(), 0);

    sched.run();
    let app = sched.get_app(0).unwrap();
    assert_eq!(app.received.len(), 1);
    assert_eq!(app.received[0].instance, Instance::Example);
    assert_eq!(app.received[0].msg, example_hk_msg(1));

    sched.run();
    assert_eq!(sched.get_app(0).unwrap().received.len(), 1);
}

/// Two apps: the subscriber sees the producer's packet on the next tick;
/// the producer, not self-subscribed, never sees it.
#[test]
fn delivery_only_to_subscribers() {
    let mut sched: RfeInstance<SchTimeDriver, ScriptApp, MemConnector> =
        RfeInstance::new(Instance::Example, SchTimeDriver::new());
    let watcher = ScriptApp::new(vec![TargetMsg::new(Instance::Example, MsgKind::ExampleOutData)]);
    let mut producer = ScriptApp::new(vec![]);
    producer.send_on_pass = Some((0, Msg::ExampleOutData(ExampleOutData { counter: 5 })));
    sched.add_app("watcher", watcher).unwrap();
    sched.add_app("producer", producer).unwrap();

    sched.run();
    sched.run();
    let watcher = sched.get_app(0).unwrap();
    assert_eq!(watcher.received.len(), 1);
    assert_eq!(watcher.received[0].msg, Msg::ExampleOutData(ExampleOutData { counter: 5 }));
    assert_eq!(sched.get_app(1).unwrap().received.len(), 0);
}

/// Duplicate app names are refused and leave the registry unchanged.
#[test]
fn duplicate_app_name_is_refused() {
    let mut sched: RfeInstance<SchTimeDriver, ScriptApp, MemConnector> =
        RfeInstance::new(Instance::Example, SchTimeDriver::new());
    sched.add_app("alpha", ScriptApp::new(vec![])).unwrap();
    let r = sched.add_app("alpha", ScriptApp::new(vec![]));
    assert_eq!(r, Err(RfeError::DuplicateApp));
    assert!(sched.get_app(1).is_none());
}

/// A peer's subscription request is answered within the tick with one
/// subscription-list packet carrying the union of the apps' subscriptions
/// and a zero timestamp.
#[test]
fn sub_request_answered_with_union() {
    let mut sched: RfeInstance<SchTimeDriver, ScriptApp, MemConnector> =
        RfeInstance::new(Instance::Example, SchTimeDriver::new());
    let target = TargetMsg::new(Instance::All, MsgKind::ExampleHk);
    sched.add_app("example", ScriptApp::new(vec![target])).unwrap();
    sched.add_connector(MemConnector::new());

    sched
        .connector_mut(0)
        .unwrap()
        .push_incoming(vec![MsgPacket::new(Instance::Other, Msg::SubRequest, 7)]);
    sched.run();

    let sent = sched.connector_mut(0).unwrap().take_sent();
    assert_eq!(sent.len(), 1);
    assert_eq!(sent[0].len(), 1);
    let reply = &sent[0][0];
    assert_eq!(reply.instance, Instance::Example);
    assert_eq!(reply.timestamp, 0);
    match &reply.msg {
        Msg::SubList(SubList { subs }) => assert_eq!(subs, &vec![target]),
        other => panic!("expected a subscription list, got {:?}", other),
    }
}

/// While no subscription list has been received, a request goes out every
/// ten ticks; after a list arrives, requests are suppressed.
#[test]
fn sub_requests_paced_and_suppressed() {
    let mut sched: RfeInstance<SchTimeDriver, ScriptApp, MemConnector> =
        RfeInstance::new(Instance::Example, SchTimeDriver::new());
    sched.add_connector(MemConnector::new());

    for _ in 0..10 {
        sched.run();
    }
    assert_eq!(sched.connector_mut(0).unwrap().take_sent().len(), 0);

    sched.run();
    let sent = sched.connector_mut(0).unwrap().take_sent();
    assert_eq!(sent.len(), 1);
    assert_eq!(sent[0], vec![MsgPacket::new(Instance::Example, Msg::SubRequest, 0)]);

    for _ in 0..10 {
        sched.run();
    }
    let sent = sched.connector_mut(0).unwrap().take_sent();
    assert_eq!(sent.len(), 1);

    sched
        .connector_mut(0)
        .unwrap()
        .push_incoming(vec![MsgPacket::new(
            Instance::Other,
            Msg::SubList(SubList { subs: vec![] }),
            0,
        )]);
    for _ in 0..50 {
        sched.run();
    }
    assert_eq!(sched.connector_mut(0).unwrap().take_sent().len(), 0);
}

/// A subscription change marks the peer's view stale: a fresh request goes
/// out even though a list had been received.
#[test]
fn subscription_change_triggers_fresh_request() {
    let mut sched: RfeInstance<SchTimeDriver, ScriptApp, MemConnector> =
        RfeInstance::new(Instance::Example, SchTimeDriver::new());
    let mut app = ScriptApp::new(vec![]);
    app.late_sub = Some((30, TargetMsg::new(Instance::All, MsgKind::HsHk)));
    sched.add_app("example", app).unwrap();
    sched.add_connector(MemConnector::new());

    sched
        .connector_mut(0)
        .unwrap()
        .push_incoming(vec![MsgPacket::new(
            Instance::Other,
            Msg::SubList(SubList { subs: vec![] }),
            0,
        )]);
    for _ in 0..25 {
        sched.run();
    }
    // the peer answered early; nothing further went out
    let early: usize = sched.connector_mut(0).unwrap().take_sent().len();
    for _ in 0..25 {
        sched.run();
    }
    // the late subscription at pass 30 made the view stale again
    let late = sched.connector_mut(0).unwrap().take_sent();
    assert!(late.len() >= 1, "a request must follow a subscription change");
    assert_eq!(late[0], vec![MsgPacket::new(Instance::Example, Msg::SubRequest, 0)]);
    assert!(early <= 1);
}

/// A packet sent during an app's setup waits in its outgoing queue and is
/// delivered with the first tick's batch.
#[test]
fn init_packets_reach_subscribers() {
    let mut sched: RfeInstance<SchTimeDriver, ScriptApp, MemConnector> =
        RfeInstance::new(Instance::Example, SchTimeDriver::new());
    let mut app = ScriptApp::new(vec![TargetMsg::new(Instance::All, MsgKind::ExampleHk)]);
    app.send_in_init = Some(example_hk_msg(9));
    sched.add_app("example", app).unwrap();

    sched.run();
    sched.run();
    let app = sched.get_app(0).unwrap();
    assert_eq!(app.received.len(), 1);
    assert_eq!(app.received[0].msg, example_hk_msg(9));
}

/// Control packets are consumed by the scheduler: even a subscribed app
/// never sees a time command in the tick-local ingress batch.
#[test]
fn control_packets_are_not_fanned_out() {
    let mut sched: RfeInstance<SchTimeDriver, ScriptApp, MemConnector> =
        RfeInstance::new(Instance::Example, SchTimeDriver::new());
    let all_time_cmds = TargetMsg::new(Instance::All, MsgKind::SetTimeCmd);
    sched.add_app("probe", ScriptApp::new(vec![all_time_cmds])).unwrap();
    sched.add_connector(MemConnector::new());

    sched
        .connector_mut(0)
        .unwrap()
        .push_incoming(vec![MsgPacket::new(Instance::Other, Msg::SetTimeCmd(123), 0)]);
    sched.run();
    sched.run();
    assert_eq!(sched.get_app(0).unwrap().received.len(), 0);
    // the command still took effect on the shared clock
    assert_eq!(sched.get_app(0).unwrap().times[1], 124);
}

/// A delivered time command becomes visible in the very next system-time
/// read: the scheduler-derived clock returns the tick counter plus the new
/// offset.
#[test]
fn set_time_visible_next_tick() {
    let mut sched: RfeInstance<SchTimeDriver, ScriptApp, MemConnector> =
        RfeInstance::new(Instance::Example, SchTimeDriver::new());
    sched.add_app("probe", ScriptApp::new(vec![])).unwrap();
    sched.add_connector(MemConnector::new());

    sched
        .connector_mut(0)
        .unwrap()
        .push_incoming(vec![MsgPacket::new(Instance::Other, Msg::SetTimeCmd(5000), 0)]);
    sched.run();
    sched.run();
    let probe = sched.get_app(0).unwrap();
    assert_eq!(probe.times[0], 0);
    assert_eq!(probe.times[1], 5001);
}
