//! Tests of the storage and downlink apps, the filtering rule, the
//! dispatch rates and the manual/auto toggle.
use rfe::codec::encode_packet;
use rfe::connector::MemConnector;
use rfe::ds::Ds;
use rfe::file::StubDsFile;
use rfe::handle::Rfe;
use rfe::msg::{DsCmd, DsTlmSet, HsHk, Instance, Msg, MsgKind, MsgPacket, TargetMsg, TlmSetItem,
    ToCmd, ToTlmSet};
use rfe::sched::{rate_due, App, Rate};
use rfe::time::{SchTimeDriver, TimeData};
use rfe::tlm::match_item;
use rfe::to::To;
use rfe::utils::{ManualAuto, PerfData};

fn fresh_rfe() -> Rfe<SchTimeDriver> {
    Rfe::new(Instance::Example, TimeData { sch_counter: 0, time_offset: 0 }, SchTimeDriver::new())
}

fn hs_hk_packet(from: Instance) -> MsgPacket {
    let hk = HsHk {
        perf: PerfData { enter_time: 0, elapsed: 0, rate: 0 },
        counter: 1,
        cpu_usage: vec![],
        mem_usage: 0,
        fs_usage: vec![],
        temps: vec![],
        cmd_counter: 0,
        cpu_usage_enabled: false,
        mem_usage_enabled: false,
        fs_usage_enabled: false,
    };
    MsgPacket::new(from, Msg::HsHk(hk), 17)
}

/// Wildcard matching: an `All` pattern takes any instance of the right
/// kind and nothing of another kind.
#[test]
fn wildcard_matches_any_instance_of_kind() {
    let mut item = TlmSetItem {
        target: TargetMsg::new(Instance::All, MsgKind::HsHk),
        decimation: 0,
        counter: 0,
    };
    assert!(match_item(&mut item, TargetMsg::new(Instance::Example2, MsgKind::HsHk)));
    assert!(match_item(&mut item, TargetMsg::new(Instance::Other, MsgKind::HsHk)));
    let before = item;
    assert!(!match_item(&mut item, TargetMsg::new(Instance::Example2, MsgKind::DsHk)));
    assert_eq!(item, before);
}

/// Decimation: with divisor two, the first of every three matches is
/// selected, starting with the very first.
#[test]
fn decimation_selects_every_third() {
    let mut item = TlmSetItem {
        target: TargetMsg::new(Instance::All, MsgKind::HsHk),
        decimation: 2,
        counter: 0,
    };
    let pkt = TargetMsg::new(Instance::Example, MsgKind::HsHk);
    let mut pattern = Vec::new();
    for _ in 0..6 {
        pattern.push(match_item(&mut item, pkt));
    }
    assert_eq!(pattern, vec![true, false, false, true, false, false]);
    assert_eq!(item.counter, 6);
}

/// Rate adherence: over an aligned window of one hundred ticks each rate
/// fires exactly its frequency.
#[test]
fn rates_fire_their_frequency_per_window() {
    for (rate, hz) in [
        (Rate::Hz1, 1),
        (Rate::Hz5, 5),
        (Rate::Hz10, 10),
        (Rate::Hz20, 20),
        (Rate::Hz50, 50),
        (Rate::Hz100, 100),
    ] {
        for base in [0u64, 100, 300] {
            let mut count: u32 = 0;
            for k in base..base + 100 {
                if rate_due(rate, k) {
                    count += 1;
                }
            }
            assert_eq!(count, hz, "rate {:?} over window at {}", rate, base);
        }
    }
}

/// The manual/auto toggle latches exactly on effective-value transitions,
/// and a read clears the latch.
#[test]
fn manual_auto_edges() {
    let mut m: ManualAuto<bool> = ManualAuto::new(false, false);
    m.auto_set(false);
    assert!(!m.has_changed(), "same auto value: no edge");
    m.auto_set(true);
    assert!(m.has_changed(), "auto transition: edge");
    assert!(!m.has_changed(), "the latch is one-shot");
    m.manual_set(true);
    assert!(!m.has_changed(), "manual override of the same effective value: no edge");
    m.manual_set(false);
    assert!(m.has_changed(), "new manual value while manual: edge");
    assert!(m.is_manual());
    m.resume_auto();
    assert!(m.has_changed(), "fallback to a differing auto value: edge");
    assert!(!m.is_manual());
    assert_eq!(*m.get(), true);
}

/// Storage scenario: one enabled set with decimation two sees six matching
/// packets; two are selected and the byte accounting equals two encoded
/// packet lengths.
#[test]
fn ds_stores_decimated_packets() {
    let set = DsTlmSet {
        items: vec![
            TlmSetItem {
                target: TargetMsg::new(Instance::All, MsgKind::HsHk),
                decimation: 2,
                counter: 0,
            },
        ],
        id: 7,
        enabled: true,
        path: String::from("log/x"),
    };
    let mut rfe = fresh_rfe();
    let mut ds: Ds<StubDsFile> = Ds::new(vec![set], true);
    App::<SchTimeDriver>::init(&mut ds, &mut rfe).unwrap();
    assert!(ds.is_enabled());
    assert!(rfe.subscribes(TargetMsg::new(Instance::All, MsgKind::HsHk)));

    let pkt = hs_hk_packet(Instance::Example2);
    let encoded_len = encode_packet(&pkt).len() as u32;
    for _ in 0..6 {
        rfe.post_message(pkt.clone());
    }
    App::<SchTimeDriver>::run(&mut ds, &mut rfe);

    let out = ds.output();
    assert_eq!(out.counter, 1);
    assert_eq!(out.bytes_written, 2 * encoded_len);
}

/// An unknown set identifier in a storage command leaves the state
/// unchanged.
#[test]
fn ds_rejects_unknown_set() {
    let mut rfe = fresh_rfe();
    let mut ds: Ds<StubDsFile> = Ds::new(vec![], true);
    App::<SchTimeDriver>::init(&mut ds, &mut rfe).unwrap();
    rfe.post_message(MsgPacket::new(Instance::Example, Msg::DsCmd(DsCmd::EnablTlmSet(9)), 0));
    App::<SchTimeDriver>::run(&mut ds, &mut rfe);
    assert_eq!(ds.output().bytes_written, 0);
}

/// Uplinked downlink batches are posted onto the bus handle, in batch
/// order then packet order.
#[test]
fn to_posts_uplinked_batches() {
    let mut rfe = fresh_rfe();
    let mut downlink = MemConnector::new();
    let p1 = MsgPacket::new(Instance::Other, Msg::SetTimeCmd(1), 0);
    let p2 = MsgPacket::new(Instance::Other, Msg::SetTimeCmd(2), 0);
    let p3 = MsgPacket::new(Instance::Other, Msg::SetTimeCmd(3), 0);
    downlink.push_incoming(vec![p1.clone(), p2.clone()]);
    downlink.push_incoming(vec![p3.clone()]);
    let mut to: To<MemConnector> = To::new(downlink, vec![]);
    App::<SchTimeDriver>::init(&mut to, &mut rfe).unwrap();
    App::<SchTimeDriver>::run(&mut to, &mut rfe);
    assert_eq!(rfe.recv(), Some(p1));
    assert_eq!(rfe.recv(), Some(p2));
    assert_eq!(rfe.recv(), Some(p3));
    assert_eq!(rfe.recv(), None);
}

/// Downlink scenario: twenty matching packets against a set with
/// decimation nine forward exactly two; disabling the set drops its
/// subscriptions.
#[test]
fn to_forwards_and_disables() {
    let set = ToTlmSet {
        items: vec![
            TlmSetItem {
                target: TargetMsg::new(Instance::All, MsgKind::HsHk),
                decimation: 9,
                counter: 0,
            },
        ],
        id: 1,
        enabled: true,
    };
    let mut rfe = fresh_rfe();
    let mut to: To<MemConnector> = To::new(MemConnector::new(), vec![set]);
    App::<SchTimeDriver>::init(&mut to, &mut rfe).unwrap();
    assert!(rfe.subscribes(TargetMsg::new(Instance::All, MsgKind::HsHk)));

    for _ in 0..20 {
        rfe.post_message(hs_hk_packet(Instance::Example2));
    }
    App::<SchTimeDriver>::run(&mut to, &mut rfe);

    rfe.post_message(MsgPacket::new(Instance::Example, Msg::ToCmd(ToCmd::DisableTlmSet(1)), 0));
    App::<SchTimeDriver>::run(&mut to, &mut rfe);
    assert!(
        !rfe.subscribes(TargetMsg::new(Instance::All, MsgKind::HsHk)),
        "a disabled set's targets leave the subscriptions"
    );

    let mut downlink = to.into_connector();
    let sent = downlink.take_sent();
    assert_eq!(sent.len(), 1, "one send per tick with selections");
    assert_eq!(sent[0].len(), 2, "matches zero and ten are selected");
    assert_eq!(sent[0][0], hs_hk_packet(Instance::Example2));
}
