//! Round-trip and framing tests of the wire codec.
use rfe::codec::{decode_batch, decode_batch_from, decode_packet_from, encode_batch, encode_packet};
use rfe::msg::{DsCmd, DsOutData, DsTlmSet, ExampleCmd, ExampleHk, HsCmd, HsHk, Instance, Msg,
    MsgKind, MsgPacket, ReinitAppCmd, SubList, TargetMsg, TlmSetItem, ToCmd, ToHk};
use rfe::utils::PerfData;

fn perf(enter_time: u64, elapsed: u32, rate: u32) -> PerfData {
    PerfData { enter_time, elapsed, rate }
}

fn roundtrip(p: MsgPacket) {
    let bytes = encode_packet(&p);
    let decoded = decode_packet_from(&bytes, 0).expect("a packet encoding must decode");
    assert_eq!(decoded.1, bytes.len());
    assert_eq!(decoded.0, p);
}

#[test]
fn golden_set_time_packet() {
    let p = MsgPacket::new(Instance::Example, Msg::SetTimeCmd(0x0102), 1);
    let bytes = encode_packet(&p);
    assert_eq!(
        bytes,
        vec![3u8, 3, 0x02, 0x01, 0, 0, 0, 0, 0, 0, 1, 0, 0, 0, 0, 0, 0, 0]
    );
}

#[test]
fn roundtrip_empty_and_subrequest() {
    roundtrip(MsgPacket::new(Instance::Unset, Msg::Empty, 0));
    roundtrip(MsgPacket::new(Instance::Other, Msg::SubRequest, u64::MAX));
}

#[test]
fn roundtrip_sub_list() {
    let subs = vec![
        TargetMsg::new(Instance::All, MsgKind::HsHk),
        TargetMsg::new(Instance::Example2, MsgKind::ToCmd),
    ];
    roundtrip(MsgPacket::new(Instance::Example, Msg::SubList(SubList { subs }), 42));
}

#[test]
fn roundtrip_reinit_app() {
    let cmd = ReinitAppCmd::new(String::from("housekeeping"));
    roundtrip(MsgPacket::new(Instance::Example, Msg::ReinitApp(cmd), 7));
}

#[test]
fn roundtrip_example_payloads() {
    roundtrip(MsgPacket::new(
        Instance::Example,
        Msg::ExampleHk(ExampleHk { perf: perf(10, 20, 30), counter: 99 }),
        5,
    ));
    roundtrip(MsgPacket::new(Instance::Example, Msg::ExampleCmd(ExampleCmd::Reset), 5));
}

#[test]
fn roundtrip_ds_payloads() {
    roundtrip(MsgPacket::new(
        Instance::Example,
        Msg::DsOutData(DsOutData { counter: 3, bytes_written: 77, bytes_written_this_cycle: 9 }),
        5,
    ));
    let set = DsTlmSet {
        items: vec![
            TlmSetItem {
                target: TargetMsg::new(Instance::All, MsgKind::HsHk),
                decimation: 2,
                counter: 1,
            },
        ],
        id: 7,
        enabled: true,
        path: String::from("log/x\u{e9}"),
    };
    roundtrip(MsgPacket::new(Instance::Example, Msg::DsCmd(DsCmd::AddTlmSet(set)), 5));
}

#[test]
fn roundtrip_hs_payloads() {
    let hk = HsHk {
        perf: perf(1, 2, 3),
        counter: 4,
        cpu_usage: vec![1, 2, 250],
        mem_usage: 55,
        fs_usage: vec![90],
        temps: vec![-5, 0, 127],
        cmd_counter: 7,
        cpu_usage_enabled: true,
        mem_usage_enabled: false,
        fs_usage_enabled: true,
    };
    roundtrip(MsgPacket::new(Instance::Example2, Msg::HsHk(hk), 5));
    roundtrip(MsgPacket::new(
        Instance::Example,
        Msg::HsCmd(HsCmd::WatchdogEnableManual(true)),
        5,
    ));
}

#[test]
fn roundtrip_to_payloads() {
    roundtrip(MsgPacket::new(
        Instance::Example,
        Msg::ToHk(ToHk { perf: perf(0, 0, 0), counter: 1 }),
        5,
    ));
    roundtrip(MsgPacket::new(Instance::Example, Msg::ToCmd(ToCmd::EnablTlmSet(9)), 5));
}

#[test]
fn roundtrip_batch() {
    let batch = vec![
        MsgPacket::new(Instance::Example, Msg::SubRequest, 0),
        MsgPacket::new(Instance::Other, Msg::SetTimeCmd(123456), 9),
        MsgPacket::new(Instance::All, Msg::ExampleCmd(ExampleCmd::Noop), 10),
    ];
    let bytes = encode_batch(&batch);
    let decoded = decode_batch(&bytes).expect("a batch encoding must decode");
    assert_eq!(decoded, batch);
}

#[test]
fn decode_rejects_garbage() {
    assert!(decode_batch(&vec![0xFFu8]).is_none());
    // a valid batch with one trailing byte is not a whole frame
    let mut bytes = encode_batch(&vec![MsgPacket::new(Instance::Example, Msg::Empty, 0)]);
    bytes.push(0);
    assert!(decode_batch(&bytes).is_none());
}

#[test]
fn decode_rejects_non_canonical_varint() {
    // 0x80 0x00 spells a zero batch count in two bytes; only the one-byte
    // form is a valid encoding
    assert!(decode_batch_from(&vec![0x80u8, 0x00], 0).is_none());
}

#[test]
fn decode_rejects_bad_bool() {
    let p = MsgPacket::new(Instance::Example, Msg::HsCmd(HsCmd::WatchdogEnableManual(true)), 0);
    let mut bytes = encode_packet(&p);
    // the payload's bool byte sits right after the instance and kind tags
    assert_eq!(bytes[2], 2);
    assert_eq!(bytes[3], 1);
    bytes[3] = 7;
    assert!(decode_packet_from(&bytes, 0).is_none());
}

#[test]
fn string_decoding_reads_utf8_not_raw_bytes() {
    // a two-byte scalar in the path survives the byte round trip
    let set = DsTlmSet { items: vec![], id: 1, enabled: false, path: String::from("\u{e9}") };
    let p = MsgPacket::new(Instance::Example, Msg::DsCmd(DsCmd::AddTlmSet(set)), 0);
    let bytes = encode_packet(&p);
    let (decoded, _) = decode_packet_from(&bytes, 0).expect("decodes");
    match decoded.msg {
        Msg::DsCmd(DsCmd::AddTlmSet(s)) => {
            assert_eq!(s.path, "\u{e9}");
            assert_eq!(s.path.len(), 2);
        },
        _ => panic!("wrong variant"),
    }
}
