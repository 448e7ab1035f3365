//! The wire codec: deterministic, self-delimiting binary encoding of
//! packets and packet batches.
//!
//! Fixed-width integers are little-endian; sequence lengths and union tags
//! are variable-length integers (seven payload bits per byte, low group
//! first, high bit marking continuation); strings are a byte-sequence of
//! their UTF-8 encoding. Every decoder consumes exactly the bytes that the
//! matching encoder produces and rejects everything else.
use crate::msg::{DsCmd, DsCmdView, DsHk, DsOutData, DsTlmSet, DsTlmSetView, ExampleCmd,
    ExampleHk, ExampleOutData, HsCmd, HsHk, HsHkView, HsOutData, Instance, Msg, MsgKind, MsgPacket,
    MsgPacketView, MsgView, ReinitAppCmd, SubList, TargetMsg, TlmSetItem, ToCmd, ToCmdView, ToHk,
    ToOutData, ToTlmSet, ToTlmSetView};
use crate::utils::PerfData;
use vstd::prelude::*;
use vstd::utf8::encode_utf8;

verus! {

/// `p` occurs in `s` at offset `pos`.
pub open spec fn bytes_at(s: Seq<u8>, pos: int, p: Seq<u8>) -> bool {
    &&& 0 <= pos
    &&& pos + p.len() <= s.len()
    &&& s.subrange(pos, pos + p.len()) == p
}

proof fn lemma_bytes_at_split(s: Seq<u8>, pos: int, a: Seq<u8>, b: Seq<u8>)
    requires
        bytes_at(s, pos, a + b),
    ensures
        bytes_at(s, pos, a),
        bytes_at(s, pos + a.len(), b),
{
    assert(s.subrange(pos, pos + a.len()) =~= a) by {
        assert forall|i: int| 0 <= i < a.len() implies s.subrange(pos, pos + a.len())[i] == a[i] by {
            assert((a + b)[i] == a[i]);
            assert(s.subrange(pos, pos + (a + b).len() as int)[i] == (a + b)[i]);
        }
    }
    assert(s.subrange(pos + a.len(), pos + a.len() + b.len()) =~= b) by {
        assert forall|i: int| 0 <= i < b.len() implies s.subrange(
            pos + a.len(),
            pos + a.len() + b.len(),
        )[i] == b[i] by {
            assert((a + b)[a.len() + i] == b[i]);
            assert(s.subrange(pos, pos + (a + b).len() as int)[a.len() + i] == (a + b)[a.len() + i]);
        }
    }
}

proof fn lemma_bytes_at_join(s: Seq<u8>, pos: int, a: Seq<u8>, b: Seq<u8>)
    requires
        bytes_at(s, pos, a),
        bytes_at(s, pos + a.len(), b),
    ensures
        bytes_at(s, pos, a + b),
{
    assert(s.subrange(pos, pos + (a + b).len() as int) =~= a + b);
}

/// The variable-length encoding of an unsigned integer.
pub open spec fn spec_varint(n: nat) -> Seq<u8>
    decreases n,
{
    if n < 128 {
        seq![n as u8]
    } else {
        seq![(128 + (n % 128)) as u8] + spec_varint(n / 128)
    }
}

/// The `width`-byte little-endian encoding of `n`'s low bytes.
pub open spec fn spec_le_bytes(n: nat, width: nat) -> Seq<u8>
    decreases width,
{
    if width == 0 {
        Seq::empty()
    } else {
        seq![(n % 256) as u8] + spec_le_bytes(n / 256, (width - 1) as nat)
    }
}

pub open spec fn pow256(width: nat) -> nat
    decreases width,
{
    if width == 0 {
        1
    } else {
        256 * pow256((width - 1) as nat)
    }
}

pub open spec fn spec_u16(n: u16) -> Seq<u8> {
    spec_le_bytes(n as nat, 2)
}

pub open spec fn spec_u32(n: u32) -> Seq<u8> {
    spec_le_bytes(n as nat, 4)
}

pub open spec fn spec_u64(n: u64) -> Seq<u8> {
    spec_le_bytes(n as nat, 8)
}

pub open spec fn spec_bool(b: bool) -> Seq<u8> {
    if b {
        seq![1u8]
    } else {
        seq![0u8]
    }
}

/// A length-prefixed byte sequence.
pub open spec fn spec_bytes(s: Seq<u8>) -> Seq<u8> {
    spec_varint(s.len()) + s
}

/// A length-prefixed sequence of signed bytes.
pub open spec fn spec_i8_bytes(s: Seq<i8>) -> Seq<u8> {
    spec_varint(s.len()) + s.map_values(|x: i8| x as u8)
}

/// A length-prefixed UTF-8 string.
pub open spec fn spec_string(s: Seq<char>) -> Seq<u8> {
    spec_bytes(encode_utf8(s))
}

pub open spec fn instance_tag(i: Instance) -> nat {
    match i {
        Instance::Unset => 0,
        Instance::All => 1,
        Instance::Other => 2,
        Instance::Example => 3,
        Instance::Example2 => 4,
    }
}

pub open spec fn spec_instance(i: Instance) -> Seq<u8> {
    spec_varint(instance_tag(i))
}

pub open spec fn kind_tag(k: MsgKind) -> nat {
    match k {
        MsgKind::Empty => 0,
        MsgKind::SubRequest => 1,
        MsgKind::SubList => 2,
        MsgKind::SetTimeCmd => 3,
        MsgKind::ReinitApp => 4,
        MsgKind::ExampleHk => 5,
        MsgKind::ExampleOutData => 6,
        MsgKind::ExampleCmd => 7,
        MsgKind::DsHk => 8,
        MsgKind::DsOutData => 9,
        MsgKind::DsCmd => 10,
        MsgKind::HsHk => 11,
        MsgKind::HsOutData => 12,
        MsgKind::HsCmd => 13,
        MsgKind::ToHk => 14,
        MsgKind::ToOutData => 15,
        MsgKind::ToCmd => 16,
    }
}

pub open spec fn spec_kind(k: MsgKind) -> Seq<u8> {
    spec_varint(kind_tag(k))
}

pub open spec fn spec_target(t: TargetMsg) -> Seq<u8> {
    spec_instance(t.instance) + spec_kind(t.msg)
}

pub open spec fn spec_perf(p: PerfData) -> Seq<u8> {
    spec_u64(p.enter_time) + spec_u32(p.elapsed) + spec_u32(p.rate)
}

pub open spec fn spec_item(it: TlmSetItem) -> Seq<u8> {
    spec_target(it.target) + spec_u16(it.decimation) + spec_u16(it.counter)
}

// ---------------------------------------------------------------------------
// Encoders. Each appends exactly the spec encoding of its argument.
// ---------------------------------------------------------------------------

fn enc_varint(n: u64, out: &mut Vec<u8>)
    ensures
        final(out)@ == old(out)@ + spec_varint(n as nat),
    decreases n,
{
    if n < 128 {
        out.push(n as u8);
        assert(final(out)@ =~= old(out)@ + spec_varint(n as nat));
    } else {
        let ghost mid = out@;
        out.push((128 + (n % 128)) as u8);
        enc_varint(n / 128, out);
        assert(final(out)@ =~= mid + spec_varint(n as nat));
    }
}

fn enc_le(n: u64, width: usize, out: &mut Vec<u8>)
    ensures
        final(out)@ == old(out)@ + spec_le_bytes(n as nat, width as nat),
    decreases width,
{
    if width == 0 {
        assert(final(out)@ =~= old(out)@ + spec_le_bytes(n as nat, 0));
    } else {
        let ghost mid = out@;
        out.push((n % 256) as u8);
        enc_le(n / 256, width - 1, out);
        assert(final(out)@ =~= mid + spec_le_bytes(n as nat, width as nat));
    }
}

fn enc_u16(n: u16, out: &mut Vec<u8>)
    ensures
        final(out)@ == old(out)@ + spec_u16(n),
{
    enc_le(n as u64, 2, out);
}

fn enc_u32(n: u32, out: &mut Vec<u8>)
    ensures
        final(out)@ == old(out)@ + spec_u32(n),
{
    enc_le(n as u64, 4, out);
}

fn enc_u64(n: u64, out: &mut Vec<u8>)
    ensures
        final(out)@ == old(out)@ + spec_u64(n),
{
    enc_le(n, 8, out);
}

fn enc_bool(b: bool, out: &mut Vec<u8>)
    ensures
        final(out)@ == old(out)@ + spec_bool(b),
{
    if b {
        out.push(1);
    } else {
        out.push(0);
    }
    assert(final(out)@ =~= old(out)@ + spec_bool(b));
}

fn enc_bytes(v: &Vec<u8>, out: &mut Vec<u8>)
    ensures
        final(out)@ == old(out)@ + spec_bytes(v@),
{
    let ghost orig = out@;
    enc_varint(v.len() as u64, out);
    let mut i: usize = 0;
    while i < v.len()
        invariant
            i <= v@.len(),
            out@ == orig + spec_varint(v@.len()) + v@.take(i as int),
        decreases v@.len() - i,
    {
        out.push(v[i]);
        assert(v@.take(i + 1 as int) =~= v@.take(i as int).push(v@[i as int]));
        i = i + 1;
    }
    assert(v@.take(v@.len() as int) =~= v@);
    assert(out@ =~= orig + spec_bytes(v@));
}

fn enc_i8_bytes(v: &Vec<i8>, out: &mut Vec<u8>)
    ensures
        final(out)@ == old(out)@ + spec_i8_bytes(v@),
{
    let ghost orig = out@;
    enc_varint(v.len() as u64, out);
    let ghost mapped = v@.map_values(|x: i8| x as u8);
    let mut i: usize = 0;
    while i < v.len()
        invariant
            i <= v@.len(),
            mapped == v@.map_values(|x: i8| x as u8),
            out@ == orig + spec_varint(v@.len()) + mapped.take(i as int),
        decreases v@.len() - i,
    {
        out.push(v[i] as u8);
        assert(mapped.take(i + 1 as int) =~= mapped.take(i as int).push(mapped[i as int]));
        i = i + 1;
    }
    assert(mapped.take(mapped.len() as int) =~= mapped);
    assert(out@ =~= orig + spec_i8_bytes(v@));
}

fn enc_string(s: &String, out: &mut Vec<u8>)
    ensures
        final(out)@ == old(out)@ + spec_string(s@),
{
    let ghost orig = out@;
    let bytes = s.as_str().as_bytes();
    enc_varint(bytes.len() as u64, out);
    let mut i: usize = 0;
    while i < bytes.len()
        invariant
            i <= bytes@.len(),
            bytes@ == encode_utf8(s@),
            out@ == orig + spec_varint(bytes@.len()) + bytes@.take(i as int),
        decreases bytes@.len() - i,
    {
        out.push(bytes[i]);
        assert(bytes@.take(i + 1 as int) =~= bytes@.take(i as int).push(bytes@[i as int]));
        i = i + 1;
    }
    assert(bytes@.take(bytes@.len() as int) =~= bytes@);
    assert(out@ =~= orig + spec_string(s@));
}

fn enc_instance(i: Instance, out: &mut Vec<u8>)
    ensures
        final(out)@ == old(out)@ + spec_instance(i),
{
    let tag: u64 = match i {
        Instance::Unset => 0,
        Instance::All => 1,
        Instance::Other => 2,
        Instance::Example => 3,
        Instance::Example2 => 4,
    };
    enc_varint(tag, out);
}

fn enc_kind(k: MsgKind, out: &mut Vec<u8>)
    ensures
        final(out)@ == old(out)@ + spec_kind(k),
{
    let tag: u64 = match k {
        MsgKind::Empty => 0,
        MsgKind::SubRequest => 1,
        MsgKind::SubList => 2,
        MsgKind::SetTimeCmd => 3,
        MsgKind::ReinitApp => 4,
        MsgKind::ExampleHk => 5,
        MsgKind::ExampleOutData => 6,
        MsgKind::ExampleCmd => 7,
        MsgKind::DsHk => 8,
        MsgKind::DsOutData => 9,
        MsgKind::DsCmd => 10,
        MsgKind::HsHk => 11,
        MsgKind::HsOutData => 12,
        MsgKind::HsCmd => 13,
        MsgKind::ToHk => 14,
        MsgKind::ToOutData => 15,
        MsgKind::ToCmd => 16,
    };
    enc_varint(tag, out);
}

fn enc_target(t: &TargetMsg, out: &mut Vec<u8>)
    ensures
        final(out)@ == old(out)@ + spec_target(*t),
{
    let ghost orig = out@;
    enc_instance(t.instance, out);
    enc_kind(t.msg, out);
    assert(out@ =~= orig + spec_target(*t));
}

fn enc_perf(p: &PerfData, out: &mut Vec<u8>)
    ensures
        final(out)@ == old(out)@ + spec_perf(*p),
{
    let ghost orig = out@;
    enc_u64(p.enter_time, out);
    enc_u32(p.elapsed, out);
    enc_u32(p.rate, out);
    assert(out@ =~= orig + spec_perf(*p));
}

fn enc_item(it: &TlmSetItem, out: &mut Vec<u8>)
    ensures
        final(out)@ == old(out)@ + spec_item(*it),
{
    let ghost orig = out@;
    enc_target(&it.target, out);
    enc_u16(it.decimation, out);
    enc_u16(it.counter, out);
    assert(out@ =~= orig + spec_item(*it));
}

// ---------------------------------------------------------------------------
// Decoders. Each returns the decoded value and the position one past the
// bytes it consumed; it succeeds exactly where the buffer carries a spec
// encoding at `pos`, and then consumes exactly that encoding.
// ---------------------------------------------------------------------------

proof fn lemma_pow256_values()
    ensures
        pow256(2) == 0x10000,
        pow256(4) == 0x100000000,
        pow256(7) == 0x100000000000000,
        pow256(8) == 0x10000000000000000,
{
    assert(pow256(0) == 1);
    assert(pow256(1) == 256);
    assert(pow256(2) == 0x10000);
    assert(pow256(3) == 0x1000000);
    assert(pow256(4) == 0x100000000);
    assert(pow256(5) == 0x10000000000);
    assert(pow256(6) == 0x1000000000000);
    assert(pow256(7) == 0x100000000000000);
    assert(pow256(8) == 0x10000000000000000);
}

proof fn lemma_pow256_le(a: nat, b: nat)
    requires
        a <= b,
    ensures
        pow256(a) <= pow256(b),
    decreases b,
{
    if a < b && 0 < b {
        lemma_pow256_le(a, (b - 1) as nat);
    }
}

proof fn lemma_le_len(n: nat, width: nat)
    ensures
        spec_le_bytes(n, width).len() == width,
    decreases width,
{
    if width > 0 {
        lemma_le_len(n / 256, (width - 1) as nat);
    }
}

fn dec_varint(buf: &Vec<u8>, pos: usize) -> (r: Option<(u64, usize)>)
    requires
        pos <= buf@.len(),
    ensures
        r matches Some((v, end)) ==> pos < end <= buf@.len() && end == pos + spec_varint(
            v as nat,
        ).len() && bytes_at(buf@, pos as int, spec_varint(v as nat)),
        forall|n: u64|
            bytes_at(buf@, pos as int, #[trigger] spec_varint(n as nat)) ==> r == Some(
                (n, (pos + spec_varint(n as nat).len()) as usize),
            ),
    decreases buf@.len() - pos,
{
    if pos >= buf.len() {
        assert forall|n: u64| !bytes_at(buf@, pos as int, spec_varint(n as nat)) by {
            assert(spec_varint(n as nat).len() >= 1);
        }
        return None;
    }
    let b = buf[pos];
    if b < 128 {
        assert(bytes_at(buf@, pos as int, spec_varint(b as nat))) by {
            assert(buf@.subrange(pos as int, pos + 1) =~= seq![b]);
        }
        assert forall|n: u64|
            bytes_at(buf@, pos as int, #[trigger] spec_varint(n as nat)) implies n == b as u64 by {
            if n >= 128 {
                assert(spec_varint(n as nat)[0] == (128 + (n as nat) % 128) as u8);
                assert(buf@.subrange(pos as int, pos + spec_varint(n as nat).len())[0] == buf@[pos as int]);
            } else {
                assert(spec_varint(n as nat)[0] == n as u8);
                assert(buf@.subrange(pos as int, pos + 1)[0] == buf@[pos as int]);
            }
        }
        Some((b as u64, pos + 1))
    } else {
        let low: u8 = b - 128;
        let ghost first: Seq<u8> = seq![b];
        proof {
            // any valid encoding here continues past the first byte
            assert forall|n: u64|
                bytes_at(buf@, pos as int, #[trigger] spec_varint(n as nat)) implies n >= 128
                && (n as nat) % 128 == low as nat && bytes_at(
                buf@,
                pos + 1,
                spec_varint((n as nat) / 128),
            ) by {
                if n < 128 {
                    assert(spec_varint(n as nat)[0] == n as u8);
                    assert(buf@.subrange(pos as int, pos + 1)[0] == buf@[pos as int]);
                } else {
                    assert(spec_varint(n as nat)[0] == (128 + (n as nat) % 128) as u8);
                    assert(buf@.subrange(pos as int, pos + spec_varint(n as nat).len())[0]
                        == buf@[pos as int]);
                    assert(spec_varint(n as nat) == first + spec_varint((n as nat) / 128)) by {
                        assert(seq![(128 + (n as nat) % 128) as u8] =~= seq![b]);
                    }
                    lemma_bytes_at_split(buf@, pos as int, first, spec_varint((n as nat) / 128));
                }
            }
        }
        match dec_varint(buf, pos + 1) {
            Option::None => {
                Option::None
            },
            Option::Some((rest, end)) => {
                if rest == 0 {
                    assert forall|n: u64|
                        !bytes_at(buf@, pos as int, #[trigger] spec_varint(n as nat)) by {
                        if bytes_at(buf@, pos as int, spec_varint(n as nat)) {
                            assert((n as nat) / 128 >= 1);
                        }
                    }
                    Option::None
                } else if rest > (u64::MAX - low as u64) / 128 {
                    proof {
                        assert forall|n: u64|
                            !bytes_at(buf@, pos as int, #[trigger] spec_varint(n as nat)) by {
                            if bytes_at(buf@, pos as int, spec_varint(n as nat)) {
                                assert(rest == (n as nat) / 128 && (n as nat) % 128 == low as nat);
                                assert(128 * ((n as nat) / 128) + (n as nat) % 128 == n as nat);
                                assert(rest as nat <= ((u64::MAX - low) as nat) / 128) by (nonlinear_arith)
                                    requires
                                        128 * (rest as nat) + (low as nat) <= u64::MAX as nat,
                                ;
                            }
                        }
                    }
                    Option::None
                } else {
                    proof {
                        assert((rest as nat) * 128 + (low as nat) <= u64::MAX as nat)
                            by (nonlinear_arith)
                            requires
                                rest as nat <= ((u64::MAX - low) as nat) / 128,
                                low < 128,
                        ;
                    }
                    let v: u64 = rest * 128 + low as u64;
                    proof {
                        assert((v as nat) % 128 == low as nat && (v as nat) / 128 == rest as nat)
                            by (nonlinear_arith)
                            requires
                                v as nat == (rest as nat) * 128 + (low as nat),
                                low < 128,
                        ;
                        assert(v >= 128);
                        assert(spec_varint(v as nat) == first + spec_varint(rest as nat)) by {
                            assert(seq![(128 + (v as nat) % 128) as u8] =~= seq![b]);
                        }
                        assert(bytes_at(buf@, pos as int, first)) by {
                            assert(buf@.subrange(pos as int, pos + 1) =~= seq![b]);
                        }
                        lemma_bytes_at_join(buf@, pos as int, first, spec_varint(rest as nat));
                        assert forall|n: u64|
                            bytes_at(buf@, pos as int, #[trigger] spec_varint(n as nat)) implies n
                            == v by {
                            assert(rest == (n as nat) / 128 && (n as nat) % 128 == low as nat);
                            assert(128 * ((n as nat) / 128) + (n as nat) % 128 == n as nat);
                        }
                    }
                    Option::Some((v, end))
                }
            },
        }
    }
}

fn dec_le(buf: &Vec<u8>, pos: usize, width: usize) -> (r: Option<(u64, usize)>)
    requires
        pos <= buf@.len(),
        width <= 8,
    ensures
        r matches Some((v, end)) ==> end == pos + width && end <= buf@.len() && (v as nat)
            < pow256(width as nat) && bytes_at(
            buf@,
            pos as int,
            spec_le_bytes(v as nat, width as nat),
        ),
        r is Some <==> pos + width <= buf@.len(),
        forall|n: u64|
            (n as nat) < pow256(width as nat) && bytes_at(
                buf@,
                pos as int,
                #[trigger] spec_le_bytes(n as nat, width as nat),
            ) ==> r == Some((n, (pos + width) as usize)),
    decreases width,
{
    if width == 0 {
        assert(bytes_at(buf@, pos as int, spec_le_bytes(0, 0))) by {
            assert(buf@.subrange(pos as int, pos as int) =~= Seq::<u8>::empty());
        }
        return Some((0, pos));
    }
    if pos >= buf.len() {
        return None;
    }
    let b = buf[pos];
    let ghost first: Seq<u8> = seq![b];
    proof {
        assert forall|n: u64|
            bytes_at(buf@, pos as int, #[trigger] spec_le_bytes(n as nat, width as nat)) implies (
        n as nat) % 256 == b as nat && bytes_at(
            buf@,
            pos + 1,
            spec_le_bytes((n as nat) / 256, (width - 1) as nat),
        ) by {
            assert(spec_le_bytes(n as nat, width as nat)[0] == ((n as nat) % 256) as u8);
            assert(buf@.subrange(pos as int, pos + spec_le_bytes(n as nat, width as nat).len())[0]
                == buf@[pos as int]);
            assert(seq![((n as nat) % 256) as u8] =~= first);
            lemma_bytes_at_split(
                buf@,
                pos as int,
                first,
                spec_le_bytes((n as nat) / 256, (width - 1) as nat),
            );
        }
    }
    match dec_le(buf, pos + 1, width - 1) {
        Option::None => {
            assert(pos + width > buf@.len());
            Option::None
        },
        Option::Some((rest, end)) => {
            proof {
                lemma_pow256_le((width - 1) as nat, 7);
                lemma_pow256_values();
                assert((rest as nat) * 256 + (b as nat) < pow256(width as nat)) by (nonlinear_arith)
                    requires
                        (rest as nat) < pow256((width - 1) as nat),
                        b < 256,
                        pow256(width as nat) == 256 * pow256((width - 1) as nat),
                ;
            }
            let v: u64 = b as u64 + 256 * rest;
            proof {
                assert((v as nat) % 256 == b as nat && (v as nat) / 256 == rest as nat)
                    by (nonlinear_arith)
                    requires
                        v as nat == (rest as nat) * 256 + (b as nat),
                        b < 256,
                ;
                assert(spec_le_bytes(v as nat, width as nat) == first + spec_le_bytes(
                    rest as nat,
                    (width - 1) as nat,
                )) by {
                    assert(seq![((v as nat) % 256) as u8] =~= seq![b]);
                }
                assert(bytes_at(buf@, pos as int, first)) by {
                    assert(buf@.subrange(pos as int, pos + 1) =~= seq![b]);
                }
                lemma_bytes_at_join(
                    buf@,
                    pos as int,
                    first,
                    spec_le_bytes(rest as nat, (width - 1) as nat),
                );
                assert forall|n: u64|
                    (n as nat) < pow256(width as nat) && bytes_at(
                        buf@,
                        pos as int,
                        #[trigger] spec_le_bytes(n as nat, width as nat),
                    ) implies n == v by {
                    assert((n as nat) / 256 < pow256((width - 1) as nat)) by (nonlinear_arith)
                        requires
                            (n as nat) < pow256(width as nat),
                            pow256(width as nat) == 256 * pow256((width - 1) as nat),
                    ;
                    assert(rest == (n as nat) / 256 && (n as nat) % 256 == b as nat);
                    assert(256 * ((n as nat) / 256) + (n as nat) % 256 == n as nat);
                }
            }
            Option::Some((v, end))
        },
    }
}

fn dec_u16(buf: &Vec<u8>, pos: usize) -> (r: Option<(u16, usize)>)
    requires
        pos <= buf@.len(),
    ensures
        r matches Some((v, end)) ==> end == pos + 2 && end <= buf@.len() && bytes_at(
            buf@,
            pos as int,
            spec_u16(v),
        ),
        forall|n: u16|
            bytes_at(buf@, pos as int, #[trigger] spec_u16(n)) ==> r == Some(
                (n, (pos + 2) as usize),
            ),
{
    proof {
        lemma_pow256_values();
    }
    match dec_le(buf, pos, 2) {
        Option::None => Option::None,
        Option::Some((v, end)) => Option::Some((v as u16, end)),
    }
}

fn dec_u32(buf: &Vec<u8>, pos: usize) -> (r: Option<(u32, usize)>)
    requires
        pos <= buf@.len(),
    ensures
        r matches Some((v, end)) ==> end == pos + 4 && end <= buf@.len() && bytes_at(
            buf@,
            pos as int,
            spec_u32(v),
        ),
        forall|n: u32|
            bytes_at(buf@, pos as int, #[trigger] spec_u32(n)) ==> r == Some(
                (n, (pos + 4) as usize),
            ),
{
    proof {
        lemma_pow256_values();
    }
    match dec_le(buf, pos, 4) {
        Option::None => Option::None,
        Option::Some((v, end)) => Option::Some((v as u32, end)),
    }
}

fn dec_u64(buf: &Vec<u8>, pos: usize) -> (r: Option<(u64, usize)>)
    requires
        pos <= buf@.len(),
    ensures
        r matches Some((v, end)) ==> end == pos + 8 && end <= buf@.len() && bytes_at(
            buf@,
            pos as int,
            spec_u64(v),
        ),
        forall|n: u64|
            bytes_at(buf@, pos as int, #[trigger] spec_u64(n)) ==> r == Some(
                (n, (pos + 8) as usize),
            ),
{
    proof {
        lemma_pow256_values();
    }
    match dec_le(buf, pos, 8) {
        Option::None => Option::None,
        Option::Some((v, end)) => Option::Some((v, end)),
    }
}

fn dec_bool(buf: &Vec<u8>, pos: usize) -> (r: Option<(bool, usize)>)
    requires
        pos <= buf@.len(),
    ensures
        r matches Some((v, end)) ==> end == pos + 1 && end <= buf@.len() && bytes_at(
            buf@,
            pos as int,
            spec_bool(v),
        ),
        forall|v: bool|
            bytes_at(buf@, pos as int, #[trigger] spec_bool(v)) ==> r == Some(
                (v, (pos + 1) as usize),
            ),
{
    if pos >= buf.len() {
        return None;
    }
    let b = buf[pos];
    proof {
        assert forall|v: bool| bytes_at(buf@, pos as int, #[trigger] spec_bool(v)) implies b == (
        if v {
            1u8
        } else {
            0u8
        }) by {
            assert(buf@.subrange(pos as int, pos + 1)[0] == buf@[pos as int]);
        }
        assert(buf@.subrange(pos as int, pos + 1) =~= seq![b]);
    }
    if b == 0 {
        Some((false, pos + 1))
    } else if b == 1 {
        Some((true, pos + 1))
    } else {
        None
    }
}

fn dec_bytes(buf: &Vec<u8>, pos: usize) -> (r: Option<(Vec<u8>, usize)>)
    requires
        pos <= buf@.len(),
    ensures
        r matches Some((v, end)) ==> pos <= end <= buf@.len() && end == pos + spec_bytes(
            v@,
        ).len() && bytes_at(buf@, pos as int, spec_bytes(v@)),
        forall|s: Seq<u8>|
            bytes_at(buf@, pos as int, #[trigger] spec_bytes(s)) ==> (r matches Some((v, end))
                && v@ == s && end == pos + spec_bytes(s).len()),
{
    proof {
        assert forall|s: Seq<u8>|
            bytes_at(buf@, pos as int, #[trigger] spec_bytes(s)) implies bytes_at(
            buf@,
            pos as int,
            spec_varint(s.len()),
        ) && bytes_at(buf@, pos + spec_varint(s.len()).len(), s) && s.len() <= u64::MAX by {
            assert(buf@.len() == buf.len());
            lemma_bytes_at_split(buf@, pos as int, spec_varint(s.len()), s);
        }
    }
    let len_dec = dec_varint(buf, pos);
    match len_dec {
        Option::None => Option::None,
        Option::Some((len64, p1)) => {
            if len64 > (buf.len() - p1) as u64 {
                proof {
                    assert forall|s: Seq<u8>|
                        !bytes_at(buf@, pos as int, #[trigger] spec_bytes(s)) by {
                        if bytes_at(buf@, pos as int, spec_bytes(s)) {
                            assert(s.len() == len64 as nat);
                        }
                    }
                }
                return Option::None;
            }
            let len = len64 as usize;
            let mut v: Vec<u8> = Vec::new();
            let mut i: usize = 0;
            while i < len
                invariant
                    i <= len,
                    p1 + len <= buf.len(),
                    v@ == buf@.subrange(p1 as int, p1 + i),
                decreases len - i,
            {
                v.push(buf[p1 + i]);
                assert(buf@.subrange(p1 as int, p1 + i + 1) =~= buf@.subrange(
                    p1 as int,
                    p1 + i,
                ).push(buf@[p1 + i]));
                i = i + 1;
            }
            proof {
                assert(bytes_at(buf@, p1 as int, v@));
                lemma_bytes_at_join(buf@, pos as int, spec_varint(len64 as nat), v@);
                assert(spec_varint(v@.len()) == spec_varint(len64 as nat));
                assert forall|s: Seq<u8>|
                    bytes_at(buf@, pos as int, #[trigger] spec_bytes(s)) implies v@ == s by {
                    assert(s.len() == len64 as nat);
                    assert(s =~= buf@.subrange(p1 as int, p1 + len));
                }
            }
            Option::Some((v, p1 + len))
        },
    }
}

fn dec_i8_bytes(buf: &Vec<u8>, pos: usize) -> (r: Option<(Vec<i8>, usize)>)
    requires
        pos <= buf@.len(),
    ensures
        r matches Some((v, end)) ==> pos <= end <= buf@.len() && end == pos + spec_i8_bytes(
            v@,
        ).len() && bytes_at(buf@, pos as int, spec_i8_bytes(v@)),
        forall|s: Seq<i8>|
            bytes_at(buf@, pos as int, #[trigger] spec_i8_bytes(s)) ==> (r matches Some((v, end))
                && v@ == s && end == pos + spec_i8_bytes(s).len()),
{
    proof {
        assert forall|s: Seq<i8>|
            bytes_at(buf@, pos as int, #[trigger] spec_i8_bytes(s)) implies bytes_at(
            buf@,
            pos as int,
            spec_bytes(s.map_values(|x: i8| x as u8)),
        ) by {
            assert(spec_i8_bytes(s) == spec_bytes(s.map_values(|x: i8| x as u8)));
        }
    }
    match dec_bytes(buf, pos) {
        Option::None => Option::None,
        Option::Some((bytes, end)) => {
            let mut v: Vec<i8> = Vec::new();
            let mut i: usize = 0;
            while i < bytes.len()
                invariant
                    i <= bytes@.len(),
                    v@.len() == i,
                    v@.map_values(|x: i8| x as u8) =~= bytes@.take(i as int),
                decreases bytes@.len() - i,
            {
                let b = bytes[i];
                v.push(b as i8);
                assert((b as i8) as u8 == b) by (bit_vector);
                assert(v@.map_values(|x: i8| x as u8) =~= bytes@.take(i + 1));
                i = i + 1;
            }
            proof {
                assert(v@.map_values(|x: i8| x as u8) =~= bytes@);
                assert(spec_i8_bytes(v@) == spec_bytes(bytes@));
                assert forall|s: Seq<i8>|
                    bytes_at(buf@, pos as int, #[trigger] spec_i8_bytes(s)) implies v@ == s by {
                    assert(s.map_values(|x: i8| x as u8) == bytes@);
                    assert forall|j: int| 0 <= j < s.len() implies s[j] == v@[j] by {
                        assert(s.map_values(|x: i8| x as u8)[j] == s[j] as u8);
                        assert(v@.map_values(|x: i8| x as u8)[j] == v@[j] as u8);
                        let a = s[j];
                        let c = v@[j];
                        assert(a as u8 == c as u8 ==> a == c) by (bit_vector);
                    }
                    assert(v@ =~= s);
                }
            }
            Option::Some((v, end))
        },
    }
}

/// Relies on String::from_utf8: it succeeds exactly on valid UTF-8 input
/// and returns the string whose encoding is that input.
#[verifier::external_body]
fn bytes_to_string(v: Vec<u8>) -> (r: Option<String>)
    ensures
        r matches Some(s) ==> v@ == encode_utf8(s@),
        r is Some <==> vstd::utf8::valid_utf8(v@),
{
    String::from_utf8(v).ok()
}

fn dec_string(buf: &Vec<u8>, pos: usize) -> (r: Option<(String, usize)>)
    requires
        pos <= buf@.len(),
    ensures
        r matches Some((v, end)) ==> pos <= end <= buf@.len() && end == pos + spec_string(
            v@,
        ).len() && bytes_at(buf@, pos as int, spec_string(v@)),
        forall|s: Seq<char>|
            bytes_at(buf@, pos as int, #[trigger] spec_string(s)) ==> (r matches Some((v, end))
                && v@ == s && end == pos + spec_string(s).len()),
{
    broadcast use vstd::utf8::encode_utf8_decode_utf8;
    broadcast use vstd::utf8::encode_utf8_valid_utf8;

    proof {
        assert forall|s: Seq<char>|
            bytes_at(buf@, pos as int, #[trigger] spec_string(s)) implies bytes_at(
            buf@,
            pos as int,
            spec_bytes(encode_utf8(s)),
        ) by {}
    }
    match dec_bytes(buf, pos) {
        Option::None => Option::None,
        Option::Some((bytes, end)) => {
            let ghost bv = bytes@;
            match bytes_to_string(bytes) {
                Option::None => {
                    proof {
                        assert forall|s: Seq<char>|
                            !bytes_at(buf@, pos as int, #[trigger] spec_string(s)) by {
                            if bytes_at(buf@, pos as int, spec_string(s)) {
                                assert(bv == encode_utf8(s));
                                assert(vstd::utf8::valid_utf8(bv));
                            }
                        }
                    }
                    Option::None
                },
                Option::Some(st) => {
                    proof {
                        assert(bv == encode_utf8(st@));
                        assert forall|s: Seq<char>|
                            bytes_at(buf@, pos as int, #[trigger] spec_string(s)) implies st@
                            == s by {
                            assert(encode_utf8(s) == bv);
                            assert(vstd::utf8::decode_utf8(encode_utf8(s)) == s);
                            assert(vstd::utf8::decode_utf8(encode_utf8(st@)) == st@);
                        }
                    }
                    Option::Some((st, end))
                },
            }
        },
    }
}

fn dec_instance(buf: &Vec<u8>, pos: usize) -> (r: Option<(Instance, usize)>)
    requires
        pos <= buf@.len(),
    ensures
        r matches Some((v, end)) ==> pos <= end <= buf@.len() && end == pos + spec_instance(
            v,
        ).len() && bytes_at(buf@, pos as int, spec_instance(v)),
        forall|v: Instance|
            bytes_at(buf@, pos as int, #[trigger] spec_instance(v)) ==> r == Some(
                (v, (pos + spec_instance(v).len()) as usize),
            ),
{
    proof {
        assert forall|v: Instance|
            bytes_at(buf@, pos as int, #[trigger] spec_instance(v)) implies bytes_at(
            buf@,
            pos as int,
            spec_varint((instance_tag(v) as u64) as nat),
        ) by {}
    }
    match dec_varint(buf, pos) {
        Option::None => Option::None,
        Option::Some((tag, end)) => {
            let v = match tag {
                0u64 => Instance::Unset,
                1u64 => Instance::All,
                2u64 => Instance::Other,
                3u64 => Instance::Example,
                4u64 => Instance::Example2,
                _ => { return Option::None },
            };
            Option::Some((v, end))
        },
    }
}

fn dec_kind(buf: &Vec<u8>, pos: usize) -> (r: Option<(MsgKind, usize)>)
    requires
        pos <= buf@.len(),
    ensures
        r matches Some((v, end)) ==> pos <= end <= buf@.len() && end == pos + spec_kind(v).len()
            && bytes_at(buf@, pos as int, spec_kind(v)),
        forall|v: MsgKind|
            bytes_at(buf@, pos as int, #[trigger] spec_kind(v)) ==> r == Some(
                (v, (pos + spec_kind(v).len()) as usize),
            ),
{
    proof {
        assert forall|v: MsgKind|
            bytes_at(buf@, pos as int, #[trigger] spec_kind(v)) implies bytes_at(
            buf@,
            pos as int,
            spec_varint((kind_tag(v) as u64) as nat),
        ) by {}
    }
    match dec_varint(buf, pos) {
        Option::None => Option::None,
        Option::Some((tag, end)) => {
            let v = match tag {
                0u64 => MsgKind::Empty,
                1u64 => MsgKind::SubRequest,
                2u64 => MsgKind::SubList,
                3u64 => MsgKind::SetTimeCmd,
                4u64 => MsgKind::ReinitApp,
                5u64 => MsgKind::ExampleHk,
                6u64 => MsgKind::ExampleOutData,
                7u64 => MsgKind::ExampleCmd,
                8u64 => MsgKind::DsHk,
                9u64 => MsgKind::DsOutData,
                10u64 => MsgKind::DsCmd,
                11u64 => MsgKind::HsHk,
                12u64 => MsgKind::HsOutData,
                13u64 => MsgKind::HsCmd,
                14u64 => MsgKind::ToHk,
                15u64 => MsgKind::ToOutData,
                16u64 => MsgKind::ToCmd,
                _ => { return Option::None },
            };
            Option::Some((v, end))
        },
    }
}

fn dec_target(buf: &Vec<u8>, pos: usize) -> (r: Option<(TargetMsg, usize)>)
    requires
        pos <= buf@.len(),
    ensures
        r matches Some((v, end)) ==> pos <= end <= buf@.len() && end == pos + spec_target(v).len()
            && bytes_at(buf@, pos as int, spec_target(v)),
        forall|v: TargetMsg|
            bytes_at(buf@, pos as int, #[trigger] spec_target(v)) ==> r == Some(
                (v, (pos + spec_target(v).len()) as usize),
            ),
{
    proof {
        assert forall|v: TargetMsg|
            bytes_at(buf@, pos as int, #[trigger] spec_target(v)) implies bytes_at(
            buf@,
            pos as int,
            spec_instance(v.instance),
        ) && bytes_at(
            buf@,
            pos + spec_instance(v.instance).len(),
            spec_kind(v.msg),
        ) by {
            lemma_bytes_at_split(buf@, pos as int, spec_instance(v.instance), spec_kind(v.msg));
        }
    }
    match dec_instance(buf, pos) {
        Option::None => Option::None,
        Option::Some((inst, p1)) => {
            match dec_kind(buf, p1) {
                Option::None => Option::None,
                Option::Some((k, end)) => {
                    let v = TargetMsg { instance: inst, msg: k };
                    proof {
                        lemma_bytes_at_join(buf@, pos as int, spec_instance(inst), spec_kind(k));
                    }
                    Option::Some((v, end))
                },
            }
        },
    }
}

fn dec_perf(buf: &Vec<u8>, pos: usize) -> (r: Option<(PerfData, usize)>)
    requires
        pos <= buf@.len(),
    ensures
        r matches Some((v, end)) ==> pos <= end <= buf@.len() && end == pos + spec_perf(v).len()
            && bytes_at(buf@, pos as int, spec_perf(v)),
        forall|v: PerfData|
            bytes_at(buf@, pos as int, #[trigger] spec_perf(v)) ==> r == Some(
                (v, (pos + spec_perf(v).len()) as usize),
            ),
{
    proof {
        assert forall|v: PerfData|
            bytes_at(buf@, pos as int, #[trigger] spec_perf(v)) implies bytes_at(
            buf@,
            pos as int,
            spec_u64(v.enter_time),
        ) && bytes_at(buf@, pos + 8, spec_u32(v.elapsed)) && bytes_at(
            buf@,
            pos + 12,
            spec_u32(v.rate),
        ) by {
            lemma_le_len(v.enter_time as nat, 8);
            lemma_le_len(v.elapsed as nat, 4);
            lemma_le_len(v.rate as nat, 4);
            assert(spec_perf(v) =~= spec_u64(v.enter_time) + (spec_u32(v.elapsed) + spec_u32(
                v.rate,
            )));
            lemma_bytes_at_split(
                buf@,
                pos as int,
                spec_u64(v.enter_time),
                spec_u32(v.elapsed) + spec_u32(v.rate),
            );
            lemma_bytes_at_split(buf@, pos + 8, spec_u32(v.elapsed), spec_u32(v.rate));
        }
    }
    match dec_u64(buf, pos) {
        Option::None => Option::None,
        Option::Some((enter_time, p1)) => {
            match dec_u32(buf, p1) {
                Option::None => Option::None,
                Option::Some((elapsed, p2)) => {
                    match dec_u32(buf, p2) {
                        Option::None => Option::None,
                        Option::Some((rate, end)) => {
                            let v = PerfData { enter_time, elapsed, rate };
                            proof {
                                lemma_le_len(enter_time as nat, 8);
                                lemma_le_len(elapsed as nat, 4);
                                lemma_le_len(rate as nat, 4);
                                lemma_bytes_at_join(buf@, pos + 8, spec_u32(elapsed), spec_u32(rate));
                                lemma_bytes_at_join(
                                    buf@,
                                    pos as int,
                                    spec_u64(enter_time),
                                    spec_u32(elapsed) + spec_u32(rate),
                                );
                                assert(spec_perf(PerfData { enter_time, elapsed, rate }) =~= spec_u64(
                                    enter_time,
                                ) + (spec_u32(elapsed) + spec_u32(rate)));
                            }
                            Option::Some((v, end))
                        },
                    }
                },
            }
        },
    }
}

fn dec_item(buf: &Vec<u8>, pos: usize) -> (r: Option<(TlmSetItem, usize)>)
    requires
        pos <= buf@.len(),
    ensures
        r matches Some((v, end)) ==> pos <= end <= buf@.len() && end == pos + spec_item(v).len()
            && bytes_at(buf@, pos as int, spec_item(v)),
        forall|v: TlmSetItem|
            bytes_at(buf@, pos as int, #[trigger] spec_item(v)) ==> r == Some(
                (v, (pos + spec_item(v).len()) as usize),
            ),
{
    proof {
        assert forall|v: TlmSetItem|
            bytes_at(buf@, pos as int, #[trigger] spec_item(v)) implies bytes_at(
            buf@,
            pos as int,
            spec_target(v.target),
        ) && bytes_at(buf@, pos + spec_target(v.target).len(), spec_u16(v.decimation)) && bytes_at(
            buf@,
            pos + spec_target(v.target).len() + 2,
            spec_u16(v.counter),
        ) by {
            lemma_le_len(v.decimation as nat, 2);
            lemma_le_len(v.counter as nat, 2);
            assert(spec_item(v) =~= spec_target(v.target) + (spec_u16(v.decimation) + spec_u16(
                v.counter,
            )));
            lemma_bytes_at_split(
                buf@,
                pos as int,
                spec_target(v.target),
                spec_u16(v.decimation) + spec_u16(v.counter),
            );
            lemma_bytes_at_split(
                buf@,
                pos + spec_target(v.target).len(),
                spec_u16(v.decimation),
                spec_u16(v.counter),
            );
        }
    }
    match dec_target(buf, pos) {
        Option::None => Option::None,
        Option::Some((target, p1)) => {
            match dec_u16(buf, p1) {
                Option::None => Option::None,
                Option::Some((decimation, p2)) => {
                    match dec_u16(buf, p2) {
                        Option::None => Option::None,
                        Option::Some((counter, end)) => {
                            let v = TlmSetItem { target, decimation, counter };
                            proof {
                                lemma_le_len(decimation as nat, 2);
                                lemma_le_len(counter as nat, 2);
                                lemma_bytes_at_join(
                                    buf@,
                                    p1 as int,
                                    spec_u16(decimation),
                                    spec_u16(counter),
                                );
                                lemma_bytes_at_join(
                                    buf@,
                                    pos as int,
                                    spec_target(target),
                                    spec_u16(decimation) + spec_u16(counter),
                                );
                                assert(spec_item(TlmSetItem { target, decimation, counter })
                                    =~= spec_target(target) + (spec_u16(decimation) + spec_u16(
                                    counter,
                                )));
                            }
                            Option::Some((v, end))
                        },
                    }
                },
            }
        },
    }
}

// ---------------------------------------------------------------------------
// Sequences, payloads, messages, packets and batches.
// ---------------------------------------------------------------------------

pub open spec fn spec_u8(n: u8) -> Seq<u8> {
    seq![n]
}

pub open spec fn spec_item_seq(s: Seq<TlmSetItem>) -> Seq<u8>
    decreases s.len(),
{
    if s.len() == 0 {
        Seq::empty()
    } else {
        spec_item(s[0]) + spec_item_seq(s.drop_first())
    }
}

/// A length-prefixed sequence of telemetry-set items.
pub open spec fn spec_items(s: Seq<TlmSetItem>) -> Seq<u8> {
    spec_varint(s.len()) + spec_item_seq(s)
}

pub open spec fn spec_target_seq(s: Seq<TargetMsg>) -> Seq<u8>
    decreases s.len(),
{
    if s.len() == 0 {
        Seq::empty()
    } else {
        spec_target(s[0]) + spec_target_seq(s.drop_first())
    }
}

/// A length-prefixed sequence of routing targets.
pub open spec fn spec_targets(s: Seq<TargetMsg>) -> Seq<u8> {
    spec_varint(s.len()) + spec_target_seq(s)
}

pub open spec fn spec_example_hk(v: ExampleHk) -> Seq<u8> {
    spec_perf(v.perf) + spec_u32(v.counter)
}

pub open spec fn spec_counter_only(counter: u32) -> Seq<u8> {
    spec_u32(counter)
}

pub open spec fn spec_ds_out(v: DsOutData) -> Seq<u8> {
    spec_u32(v.counter) + spec_u32(v.bytes_written) + spec_u32(v.bytes_written_this_cycle)
}

pub open spec fn spec_hs_hk(v: HsHkView) -> Seq<u8> {
    spec_perf(v.perf) + spec_u32(v.counter) + spec_bytes(v.cpu_usage) + spec_u8(v.mem_usage)
        + spec_bytes(v.fs_usage) + spec_i8_bytes(v.temps) + spec_u8(v.cmd_counter) + spec_bool(
        v.cpu_usage_enabled,
    ) + spec_bool(v.mem_usage_enabled) + spec_bool(v.fs_usage_enabled)
}

pub open spec fn example_cmd_tag(c: ExampleCmd) -> nat {
    match c {
        ExampleCmd::Noop => 0,
        ExampleCmd::Reset => 1,
    }
}

pub open spec fn spec_example_cmd(c: ExampleCmd) -> Seq<u8> {
    spec_varint(example_cmd_tag(c))
}

pub open spec fn hs_cmd_tag(c: HsCmd) -> nat {
    match c {
        HsCmd::Noop => 0,
        HsCmd::Reset => 1,
        HsCmd::WatchdogEnableManual(_) => 2,
        HsCmd::WatchdogEnableAuto(_) => 3,
        HsCmd::WatchdogResumeAuto => 4,
    }
}

pub open spec fn spec_hs_cmd(c: HsCmd) -> Seq<u8> {
    match c {
        HsCmd::WatchdogEnableManual(b) => spec_varint(2) + spec_bool(b),
        HsCmd::WatchdogEnableAuto(b) => spec_varint(3) + spec_bool(b),
        _ => spec_varint(hs_cmd_tag(c)),
    }
}

pub open spec fn spec_to_tlm_set(v: ToTlmSetView) -> Seq<u8> {
    spec_items(v.items) + spec_u16(v.id) + spec_bool(v.enabled)
}

pub open spec fn spec_ds_tlm_set(v: DsTlmSetView) -> Seq<u8> {
    spec_items(v.items) + spec_u16(v.id) + spec_bool(v.enabled) + spec_string(v.path)
}

pub open spec fn spec_to_cmd(c: ToCmdView) -> Seq<u8> {
    match c {
        ToCmdView::Noop => spec_varint(0),
        ToCmdView::Reset => spec_varint(1),
        ToCmdView::AddTlmSet(v) => spec_varint(2) + spec_to_tlm_set(v),
        ToCmdView::RemoveTlmSet(id) => spec_varint(3) + spec_u16(id),
        ToCmdView::DisableTlmSet(id) => spec_varint(4) + spec_u16(id),
        ToCmdView::EnablTlmSet(id) => spec_varint(5) + spec_u16(id),
    }
}

pub open spec fn spec_ds_cmd(c: DsCmdView) -> Seq<u8> {
    match c {
        DsCmdView::Noop => spec_varint(0),
        DsCmdView::Reset => spec_varint(1),
        DsCmdView::CloseAll => spec_varint(2),
        DsCmdView::Close(id) => spec_varint(3) + spec_u16(id),
        DsCmdView::AddTlmSet(v) => spec_varint(4) + spec_ds_tlm_set(v),
        DsCmdView::RemoveTlmSet(id) => spec_varint(5) + spec_u16(id),
        DsCmdView::DisableTlmSet(id) => spec_varint(6) + spec_u16(id),
        DsCmdView::EnablTlmSet(id) => spec_varint(7) + spec_u16(id),
    }
}

/// The payload bytes of a message, without the leading kind tag.
pub open spec fn spec_msg_payload(m: MsgView) -> Seq<u8> {
    match m {
        MsgView::Empty => Seq::empty(),
        MsgView::SubRequest => Seq::empty(),
        MsgView::SubList(v) => spec_targets(v.subs),
        MsgView::SetTimeCmd(t) => spec_u64(t),
        MsgView::ReinitApp(v) => spec_string(v.app_name),
        MsgView::ExampleHk(v) => spec_example_hk(v),
        MsgView::ExampleOutData(v) => spec_counter_only(v.counter),
        MsgView::ExampleCmd(v) => spec_example_cmd(v),
        MsgView::DsHk(v) => spec_perf(v.perf) + spec_u32(v.counter),
        MsgView::DsOutData(v) => spec_ds_out(v),
        MsgView::DsCmd(v) => spec_ds_cmd(v),
        MsgView::HsHk(v) => spec_hs_hk(v),
        MsgView::HsOutData(v) => spec_counter_only(v.counter),
        MsgView::HsCmd(v) => spec_hs_cmd(v),
        MsgView::ToHk(v) => spec_perf(v.perf) + spec_u32(v.counter),
        MsgView::ToOutData(v) => spec_counter_only(v.counter),
        MsgView::ToCmd(v) => spec_to_cmd(v),
    }
}

/// The encoding of a message: its kind tag, then its payload.
pub open spec fn spec_msg(m: MsgView) -> Seq<u8> {
    spec_kind(m.kind()) + spec_msg_payload(m)
}

/// The encoding of a packet: sender instance, message, send timestamp.
pub open spec fn spec_packet(p: MsgPacketView) -> Seq<u8> {
    spec_instance(p.instance) + spec_msg(p.msg) + spec_u64(p.timestamp)
}

pub open spec fn spec_packet_seq(s: Seq<MsgPacketView>) -> Seq<u8>
    decreases s.len(),
{
    if s.len() == 0 {
        Seq::empty()
    } else {
        spec_packet(s[0]) + spec_packet_seq(s.drop_first())
    }
}

/// The wire encoding of a batch of packets.
pub open spec fn spec_batch(s: Seq<MsgPacketView>) -> Seq<u8> {
    spec_varint(s.len()) + spec_packet_seq(s)
}

proof fn lemma_item_seq_snoc(s: Seq<TlmSetItem>, x: TlmSetItem)
    ensures
        spec_item_seq(s.push(x)) == spec_item_seq(s) + spec_item(x),
    decreases s.len(),
{
    if s.len() == 0 {
        assert(s.push(x)[0] == x);
        assert(s.push(x).drop_first() =~= Seq::<TlmSetItem>::empty());
        assert(spec_item_seq(s.push(x)) == spec_item(x) + spec_item_seq(Seq::<TlmSetItem>::empty()));
        assert(spec_item_seq(s.push(x)) =~= spec_item_seq(s) + spec_item(x));
    } else {
        assert(s.push(x).drop_first() =~= s.drop_first().push(x));
        lemma_item_seq_snoc(s.drop_first(), x);
        assert(s.push(x)[0] == s[0]);
        assert(spec_item_seq(s.push(x)) == spec_item(s[0]) + (spec_item_seq(s.drop_first()) + spec_item(x)));
        assert(spec_item_seq(s.push(x)) =~= spec_item_seq(s) + spec_item(x));
    }
}

proof fn lemma_target_seq_snoc(s: Seq<TargetMsg>, x: TargetMsg)
    ensures
        spec_target_seq(s.push(x)) == spec_target_seq(s) + spec_target(x),
    decreases s.len(),
{
    if s.len() == 0 {
        assert(s.push(x)[0] == x);
        assert(s.push(x).drop_first() =~= Seq::<TargetMsg>::empty());
        assert(spec_target_seq(s.push(x)) == spec_target(x) + spec_target_seq(Seq::<TargetMsg>::empty()));
        assert(spec_target_seq(s.push(x)) =~= spec_target_seq(s) + spec_target(x));
    } else {
        assert(s.push(x).drop_first() =~= s.drop_first().push(x));
        lemma_target_seq_snoc(s.drop_first(), x);
        assert(s.push(x)[0] == s[0]);
        assert(spec_target_seq(s.push(x)) == spec_target(s[0]) + (spec_target_seq(s.drop_first()) + spec_target(x)));
        assert(spec_target_seq(s.push(x)) =~= spec_target_seq(s) + spec_target(x));
    }
}

proof fn lemma_packet_seq_snoc(s: Seq<MsgPacketView>, x: MsgPacketView)
    ensures
        spec_packet_seq(s.push(x)) == spec_packet_seq(s) + spec_packet(x),
    decreases s.len(),
{
    if s.len() == 0 {
        assert(s.push(x)[0] == x);
        assert(s.push(x).drop_first() =~= Seq::<MsgPacketView>::empty());
        assert(spec_packet_seq(s.push(x)) == spec_packet(x) + spec_packet_seq(Seq::<MsgPacketView>::empty()));
        assert(spec_packet_seq(s.push(x)) =~= spec_packet_seq(s) + spec_packet(x));
    } else {
        assert(s.push(x).drop_first() =~= s.drop_first().push(x));
        lemma_packet_seq_snoc(s.drop_first(), x);
        assert(s.push(x)[0] == s[0]);
        assert(spec_packet_seq(s.push(x)) == spec_packet(s[0]) + (spec_packet_seq(s.drop_first()) + spec_packet(x)));
        assert(spec_packet_seq(s.push(x)) =~= spec_packet_seq(s) + spec_packet(x));
    }
}

proof fn lemma_item_seq_len(s: Seq<TlmSetItem>)
    ensures
        spec_item_seq(s).len() >= s.len(),
    decreases s.len(),
{
    if s.len() > 0 {
        lemma_item_seq_len(s.drop_first());
    }
}

proof fn lemma_target_seq_len(s: Seq<TargetMsg>)
    ensures
        spec_target_seq(s).len() >= s.len(),
    decreases s.len(),
{
    if s.len() > 0 {
        lemma_target_seq_len(s.drop_first());
    }
}

proof fn lemma_packet_seq_len(s: Seq<MsgPacketView>)
    ensures
        spec_packet_seq(s).len() >= s.len(),
    decreases s.len(),
{
    if s.len() > 0 {
        lemma_packet_seq_len(s.drop_first());
    }
}

fn enc_items(v: &Vec<TlmSetItem>, out: &mut Vec<u8>)
    ensures
        final(out)@ == old(out)@ + spec_items(v.deep_view()),
{
    let ghost orig = out@;
    proof {
        assert(v.deep_view() =~= v@);
    }
    enc_varint(v.len() as u64, out);
    let mut i: usize = 0;
    while i < v.len()
        invariant
            i <= v@.len(),
            out@ == orig + spec_varint(v@.len()) + spec_item_seq(v@.take(i as int)),
        decreases v@.len() - i,
    {
        enc_item(&v[i], out);
        proof {
            assert(v@.take(i + 1) =~= v@.take(i as int).push(v@[i as int]));
            lemma_item_seq_snoc(v@.take(i as int), v@[i as int]);
            assert(out@ =~= orig + spec_varint(v@.len()) + spec_item_seq(v@.take(i + 1)));
        }
        i = i + 1;
    }
    proof {
        assert(v@.take(v@.len() as int) =~= v@);
        assert(out@ =~= orig + spec_items(v@));
    }
}

fn enc_targets(v: &Vec<TargetMsg>, out: &mut Vec<u8>)
    ensures
        final(out)@ == old(out)@ + spec_targets(v.deep_view()),
{
    let ghost orig = out@;
    proof {
        assert(v.deep_view() =~= v@);
    }
    enc_varint(v.len() as u64, out);
    let mut i: usize = 0;
    while i < v.len()
        invariant
            i <= v@.len(),
            out@ == orig + spec_varint(v@.len()) + spec_target_seq(v@.take(i as int)),
        decreases v@.len() - i,
    {
        enc_target(&v[i], out);
        proof {
            assert(v@.take(i + 1) =~= v@.take(i as int).push(v@[i as int]));
            lemma_target_seq_snoc(v@.take(i as int), v@[i as int]);
            assert(out@ =~= orig + spec_varint(v@.len()) + spec_target_seq(v@.take(i + 1)));
        }
        i = i + 1;
    }
    proof {
        assert(v@.take(v@.len() as int) =~= v@);
        assert(out@ =~= orig + spec_targets(v@));
    }
}

fn enc_hs_hk(v: &HsHk, out: &mut Vec<u8>)
    ensures
        final(out)@ == old(out)@ + spec_hs_hk(v.deep_view()),
{
    let ghost orig = out@;
    enc_perf(&v.perf, out);
    enc_u32(v.counter, out);
    enc_bytes(&v.cpu_usage, out);
    out.push(v.mem_usage);
    enc_bytes(&v.fs_usage, out);
    enc_i8_bytes(&v.temps, out);
    out.push(v.cmd_counter);
    enc_bool(v.cpu_usage_enabled, out);
    enc_bool(v.mem_usage_enabled, out);
    enc_bool(v.fs_usage_enabled, out);
    proof {
        assert(v.cpu_usage.deep_view() =~= v.cpu_usage@);
        assert(v.fs_usage.deep_view() =~= v.fs_usage@);
        assert(v.temps.deep_view() =~= v.temps@);
        assert(out@ =~= orig + spec_hs_hk(v.deep_view()));
    }
}

fn enc_to_tlm_set(v: &ToTlmSet, out: &mut Vec<u8>)
    ensures
        final(out)@ == old(out)@ + spec_to_tlm_set(v.deep_view()),
{
    let ghost orig = out@;
    enc_items(&v.items, out);
    enc_u16(v.id, out);
    enc_bool(v.enabled, out);
    assert(out@ =~= orig + spec_to_tlm_set(v.deep_view()));
}

fn enc_ds_tlm_set(v: &DsTlmSet, out: &mut Vec<u8>)
    ensures
        final(out)@ == old(out)@ + spec_ds_tlm_set(v.deep_view()),
{
    let ghost orig = out@;
    enc_items(&v.items, out);
    enc_u16(v.id, out);
    enc_bool(v.enabled, out);
    enc_string(&v.path, out);
    assert(out@ =~= orig + spec_ds_tlm_set(v.deep_view()));
}

fn enc_example_cmd(v: &ExampleCmd, out: &mut Vec<u8>)
    ensures
        final(out)@ == old(out)@ + spec_example_cmd(*v),
{
    match v {
        ExampleCmd::Noop => enc_varint(0, out),
        ExampleCmd::Reset => enc_varint(1, out),
    }
}

fn enc_hs_cmd(v: &HsCmd, out: &mut Vec<u8>)
    ensures
        final(out)@ == old(out)@ + spec_hs_cmd(*v),
{
    let ghost orig = out@;
    match v {
        HsCmd::Noop => enc_varint(0, out),
        HsCmd::Reset => enc_varint(1, out),
        HsCmd::WatchdogEnableManual(b) => {
            enc_varint(2, out);
            enc_bool(*b, out);
        },
        HsCmd::WatchdogEnableAuto(b) => {
            enc_varint(3, out);
            enc_bool(*b, out);
        },
        HsCmd::WatchdogResumeAuto => enc_varint(4, out),
    }
    assert(out@ =~= orig + spec_hs_cmd(*v));
}

fn enc_to_cmd(v: &ToCmd, out: &mut Vec<u8>)
    ensures
        final(out)@ == old(out)@ + spec_to_cmd(v.deep_view()),
{
    let ghost orig = out@;
    match v {
        ToCmd::Noop => enc_varint(0, out),
        ToCmd::Reset => enc_varint(1, out),
        ToCmd::AddTlmSet(s) => {
            enc_varint(2, out);
            enc_to_tlm_set(s, out);
        },
        ToCmd::RemoveTlmSet(id) => {
            enc_varint(3, out);
            enc_u16(*id, out);
        },
        ToCmd::DisableTlmSet(id) => {
            enc_varint(4, out);
            enc_u16(*id, out);
        },
        ToCmd::EnablTlmSet(id) => {
            enc_varint(5, out);
            enc_u16(*id, out);
        },
    }
    assert(out@ =~= orig + spec_to_cmd(v.deep_view()));
}

fn enc_ds_cmd(v: &DsCmd, out: &mut Vec<u8>)
    ensures
        final(out)@ == old(out)@ + spec_ds_cmd(v.deep_view()),
{
    let ghost orig = out@;
    match v {
        DsCmd::Noop => enc_varint(0, out),
        DsCmd::Reset => enc_varint(1, out),
        DsCmd::CloseAll => enc_varint(2, out),
        DsCmd::Close(id) => {
            enc_varint(3, out);
            enc_u16(*id, out);
        },
        DsCmd::AddTlmSet(s) => {
            enc_varint(4, out);
            enc_ds_tlm_set(s, out);
        },
        DsCmd::RemoveTlmSet(id) => {
            enc_varint(5, out);
            enc_u16(*id, out);
        },
        DsCmd::DisableTlmSet(id) => {
            enc_varint(6, out);
            enc_u16(*id, out);
        },
        DsCmd::EnablTlmSet(id) => {
            enc_varint(7, out);
            enc_u16(*id, out);
        },
    }
    assert(out@ =~= orig + spec_ds_cmd(v.deep_view()));
}

fn enc_msg(m: &Msg, out: &mut Vec<u8>)
    ensures
        final(out)@ == old(out)@ + spec_msg(m.deep_view()),
{
    let ghost orig = out@;
    enc_kind(m.kind(), out);
    match m {
        Msg::Empty => (),
        Msg::SubRequest => (),
        Msg::SubList(p) => {
            enc_targets(&p.subs, out);
        },
        Msg::SetTimeCmd(t) => enc_u64(*t, out),
        Msg::ReinitApp(p) => enc_string(p.app_name(), out),
        Msg::ExampleHk(p) => {
            enc_perf(&p.perf, out);
            enc_u32(p.counter, out);
        },
        Msg::ExampleOutData(p) => enc_u32(p.counter, out),
        Msg::ExampleCmd(p) => enc_example_cmd(p, out),
        Msg::DsHk(p) => {
            enc_perf(&p.perf, out);
            enc_u32(p.counter, out);
        },
        Msg::DsOutData(p) => {
            enc_u32(p.counter, out);
            enc_u32(p.bytes_written, out);
            enc_u32(p.bytes_written_this_cycle, out);
        },
        Msg::DsCmd(p) => enc_ds_cmd(p, out),
        Msg::HsHk(p) => enc_hs_hk(p, out),
        Msg::HsOutData(p) => enc_u32(p.counter, out),
        Msg::HsCmd(p) => enc_hs_cmd(p, out),
        Msg::ToHk(p) => {
            enc_perf(&p.perf, out);
            enc_u32(p.counter, out);
        },
        Msg::ToOutData(p) => enc_u32(p.counter, out),
        Msg::ToCmd(p) => enc_to_cmd(p, out),
    }
    assert(out@ =~= orig + spec_msg(m.deep_view()));
}

/// Encode one packet into `out`, appending exactly its wire encoding.
pub fn encode_packet_into(p: &MsgPacket, out: &mut Vec<u8>)
    ensures
        final(out)@ == old(out)@ + spec_packet(p.deep_view()),
{
    let ghost orig = out@;
    enc_instance(p.instance, out);
    enc_msg(&p.msg, out);
    enc_u64(p.timestamp, out);
    assert(out@ =~= orig + spec_packet(p.deep_view()));
}

/// The wire encoding of one packet.
pub fn encode_packet(p: &MsgPacket) -> (out: Vec<u8>)
    ensures
        out@ == spec_packet(p.deep_view()),
{
    let mut out: Vec<u8> = Vec::new();
    encode_packet_into(p, &mut out);
    assert(out@ =~= spec_packet(p.deep_view()));
    out
}

/// The wire encoding of a batch of packets.
pub fn encode_batch(v: &Vec<MsgPacket>) -> (out: Vec<u8>)
    ensures
        out@ == spec_batch(v.deep_view()),
{
    let mut out: Vec<u8> = Vec::new();
    enc_varint(v.len() as u64, &mut out);
    let mut i: usize = 0;
    while i < v.len()
        invariant
            i <= v@.len(),
            out@ == spec_varint(v@.len()) + spec_packet_seq(v.deep_view().take(i as int)),
            v.deep_view().len() == v@.len(),
        decreases v@.len() - i,
    {
        encode_packet_into(&v[i], &mut out);
        proof {
            assert(v.deep_view().take(i + 1) =~= v.deep_view().take(i as int).push(
                v.deep_view()[i as int],
            ));
            assert(v@[i as int].deep_view() == v.deep_view()[i as int]);
            lemma_packet_seq_snoc(v.deep_view().take(i as int), v.deep_view()[i as int]);
            assert(out@ =~= spec_varint(v@.len()) + spec_packet_seq(v.deep_view().take(i + 1)));
        }
        i = i + 1;
    }
    proof {
        assert(v.deep_view().take(v@.len() as int) =~= v.deep_view());
        assert(out@ =~= spec_batch(v.deep_view()));
    }
    out
}


fn dec_items(buf: &Vec<u8>, pos: usize) -> (r: Option<(Vec<TlmSetItem>, usize)>)
    requires
        pos <= buf@.len(),
    ensures
        r matches Some((v, end)) ==> pos <= end <= buf@.len() && end == pos + spec_items(v@).len()
            && bytes_at(buf@, pos as int, spec_items(v@)),
        forall|s: Seq<TlmSetItem>|
            bytes_at(buf@, pos as int, #[trigger] spec_items(s)) ==> (r matches Some((v, end)) && v@
                == s && end == pos + spec_items(s).len()),
{
    proof {
        assert forall|s: Seq<TlmSetItem>|
            bytes_at(buf@, pos as int, #[trigger] spec_items(s)) implies s.len() <= u64::MAX && bytes_at(
            buf@,
            pos as int,
            spec_varint(s.len()),
        ) && bytes_at(buf@, pos + spec_varint(s.len()).len(), spec_item_seq(s)) by {
            assert(buf@.len() == buf.len());
            lemma_item_seq_len(s);
            lemma_bytes_at_split(buf@, pos as int, spec_varint(s.len()), spec_item_seq(s));
        }
    }
    match dec_varint(buf, pos) {
        Option::None => Option::None,
        Option::Some((len64, p1)) => {
            let mut v: Vec<TlmSetItem> = Vec::new();
            let mut cur: usize = p1;
            let mut j: u64 = 0;
            proof {
                assert(buf@.subrange(p1 as int, p1 as int) =~= Seq::<u8>::empty());
                assert forall|s: Seq<TlmSetItem>|
                    (s.len() == len64 as nat && bytes_at(
                        buf@,
                        p1 as int,
                        #[trigger] spec_item_seq(s),
                    )) implies v@ == s.take(0) && bytes_at(buf@, p1 as int, spec_item_seq(s.skip(0))) by {
                    assert(s.take(0) =~= Seq::<TlmSetItem>::empty());
                    assert(s.skip(0) =~= s);
                }
                assert forall|s: Seq<TlmSetItem>|
                    bytes_at(buf@, pos as int, #[trigger] spec_items(s)) implies (s.len() == len64
                    as nat && bytes_at(buf@, p1 as int, spec_item_seq(s))) by {
                    assert(s.len() <= u64::MAX);
                    let n64 = s.len() as u64;
                    assert(n64 as nat == s.len());
                    assert(spec_varint(n64 as nat) == spec_varint(s.len()));
                    assert(bytes_at(buf@, pos as int, spec_varint(n64 as nat)));
                }
            }
            while j < len64
                invariant
                    j <= len64,
                    v@.len() == j as nat,
                    p1 <= cur <= buf@.len(),
                    pos <= buf@.len(),
                    bytes_at(buf@, p1 as int, spec_item_seq(v@)),
                    cur == p1 + spec_item_seq(v@).len(),
                    forall|s: Seq<TlmSetItem>|
                        (s.len() == len64 as nat && bytes_at(
                            buf@,
                            p1 as int,
                            #[trigger] spec_item_seq(s),
                        )) ==> (j as nat <= s.len() && v@ == s.take(j as int) && bytes_at(
                            buf@,
                            cur as int,
                            spec_item_seq(s.skip(j as int)),
                        )),
                    forall|s: Seq<TlmSetItem>|
                        bytes_at(buf@, pos as int, #[trigger] spec_items(s)) ==> (s.len() == len64
                            as nat && bytes_at(buf@, p1 as int, spec_item_seq(s))),
                decreases len64 - j,
            {
                match dec_item(buf, cur) {
                    Option::None => {
                        proof {
                            assert forall|s: Seq<TlmSetItem>|
                                !(s.len() == len64 as nat && bytes_at(
                                    buf@,
                                    p1 as int,
                                    #[trigger] spec_item_seq(s),
                                )) by {
                                if s.len() == len64 as nat && bytes_at(
                                    buf@,
                                    p1 as int,
                                    spec_item_seq(s),
                                ) {
                                    let tail = s.skip(j as int);
                                    assert(tail.len() > 0);
                                    assert(spec_item_seq(tail) == spec_item(tail[0]) + spec_item_seq(
                                        tail.drop_first(),
                                    ));
                                    lemma_bytes_at_split(
                                        buf@,
                                        cur as int,
                                        spec_item(tail[0]),
                                        spec_item_seq(tail.drop_first()),
                                    );
                                }
                            }
                            assert forall|s: Seq<TlmSetItem>|
                                !bytes_at(buf@, pos as int, #[trigger] spec_items(s)) by {
                                if bytes_at(buf@, pos as int, spec_items(s)) {
                                    assert(s.len() == len64 as nat);
                                    assert(bytes_at(buf@, p1 as int, spec_item_seq(s)));
                                }
                            }
                        }
                        return Option::None;
                    },
                    Option::Some((x, nx)) => {
                        proof {
                            lemma_item_seq_snoc(v@, x);
                            lemma_bytes_at_join(buf@, p1 as int, spec_item_seq(v@), spec_item(x));
                            assert forall|s: Seq<TlmSetItem>|
                                (s.len() == len64 as nat && bytes_at(
                                    buf@,
                                    p1 as int,
                                    #[trigger] spec_item_seq(s),
                                )) implies ((j + 1) as nat <= s.len() && v@.push(x) == s.take(
                                j + 1,
                            ) && bytes_at(buf@, nx as int, spec_item_seq(s.skip(j + 1)))) by {
                                let tail = s.skip(j as int);
                                assert(tail.len() > 0);
                                assert(spec_item_seq(tail) == spec_item(tail[0]) + spec_item_seq(
                                    tail.drop_first(),
                                ));
                                lemma_bytes_at_split(
                                    buf@,
                                    cur as int,
                                    spec_item(tail[0]),
                                    spec_item_seq(tail.drop_first()),
                                );
                                assert(tail[0] == s[j as int]);
                                assert(x == s[j as int]);
                                assert(v@.push(x) =~= s.take(j + 1));
                                assert(tail.drop_first() =~= s.skip(j + 1));
                            }
                        }
                        v.push(x);
                        cur = nx;
                        j = j + 1;
                    },
                }
            }
            proof {
                assert forall|s: Seq<TlmSetItem>|
                    bytes_at(buf@, pos as int, #[trigger] spec_items(s)) implies (v@ == s && cur == pos
                    + spec_items(s).len()) by {
                    assert(s.len() <= u64::MAX);
                    let n64 = s.len() as u64;
                    assert(n64 as nat == s.len());
                    assert(spec_varint(n64 as nat) == spec_varint(s.len()));
                    assert(bytes_at(buf@, pos as int, spec_varint(n64 as nat)));
                    assert(s.len() == len64 as nat);
                    assert(bytes_at(buf@, p1 as int, spec_item_seq(s)));
                    assert(v@ == s.take(j as int));
                    assert(s.take(j as int) =~= s);
                }
                assert(v@.len() == len64 as nat);
                lemma_bytes_at_join(buf@, pos as int, spec_varint(len64 as nat), spec_item_seq(v@));
            }
            Option::Some((v, cur))
        },
    }
}

fn dec_targets(buf: &Vec<u8>, pos: usize) -> (r: Option<(Vec<TargetMsg>, usize)>)
    requires
        pos <= buf@.len(),
    ensures
        r matches Some((v, end)) ==> pos <= end <= buf@.len() && end == pos + spec_targets(v@).len()
            && bytes_at(buf@, pos as int, spec_targets(v@)),
        forall|s: Seq<TargetMsg>|
            bytes_at(buf@, pos as int, #[trigger] spec_targets(s)) ==> (r matches Some((v, end)) && v@
                == s && end == pos + spec_targets(s).len()),
{
    proof {
        assert forall|s: Seq<TargetMsg>|
            bytes_at(buf@, pos as int, #[trigger] spec_targets(s)) implies s.len() <= u64::MAX && bytes_at(
            buf@,
            pos as int,
            spec_varint(s.len()),
        ) && bytes_at(buf@, pos + spec_varint(s.len()).len(), spec_target_seq(s)) by {
            assert(buf@.len() == buf.len());
            lemma_target_seq_len(s);
            lemma_bytes_at_split(buf@, pos as int, spec_varint(s.len()), spec_target_seq(s));
        }
    }
    match dec_varint(buf, pos) {
        Option::None => Option::None,
        Option::Some((len64, p1)) => {
            let mut v: Vec<TargetMsg> = Vec::new();
            let mut cur: usize = p1;
            let mut j: u64 = 0;
            proof {
                assert(buf@.subrange(p1 as int, p1 as int) =~= Seq::<u8>::empty());
                assert forall|s: Seq<TargetMsg>|
                    (s.len() == len64 as nat && bytes_at(
                        buf@,
                        p1 as int,
                        #[trigger] spec_target_seq(s),
                    )) implies v@ == s.take(0) && bytes_at(buf@, p1 as int, spec_target_seq(s.skip(0))) by {
                    assert(s.take(0) =~= Seq::<TargetMsg>::empty());
                    assert(s.skip(0) =~= s);
                }
                assert forall|s: Seq<TargetMsg>|
                    bytes_at(buf@, pos as int, #[trigger] spec_targets(s)) implies (s.len() == len64
                    as nat && bytes_at(buf@, p1 as int, spec_target_seq(s))) by {
                    assert(s.len() <= u64::MAX);
                    let n64 = s.len() as u64;
                    assert(n64 as nat == s.len());
                    assert(spec_varint(n64 as nat) == spec_varint(s.len()));
                    assert(bytes_at(buf@, pos as int, spec_varint(n64 as nat)));
                }
            }
            while j < len64
                invariant
                    j <= len64,
                    v@.len() == j as nat,
                    p1 <= cur <= buf@.len(),
                    pos <= buf@.len(),
                    bytes_at(buf@, p1 as int, spec_target_seq(v@)),
                    cur == p1 + spec_target_seq(v@).len(),
                    forall|s: Seq<TargetMsg>|
                        (s.len() == len64 as nat && bytes_at(
                            buf@,
                            p1 as int,
                            #[trigger] spec_target_seq(s),
                        )) ==> (j as nat <= s.len() && v@ == s.take(j as int) && bytes_at(
                            buf@,
                            cur as int,
                            spec_target_seq(s.skip(j as int)),
                        )),
                    forall|s: Seq<TargetMsg>|
                        bytes_at(buf@, pos as int, #[trigger] spec_targets(s)) ==> (s.len() == len64
                            as nat && bytes_at(buf@, p1 as int, spec_target_seq(s))),
                decreases len64 - j,
            {
                match dec_target(buf, cur) {
                    Option::None => {
                        proof {
                            assert forall|s: Seq<TargetMsg>|
                                !(s.len() == len64 as nat && bytes_at(
                                    buf@,
                                    p1 as int,
                                    #[trigger] spec_target_seq(s),
                                )) by {
                                if s.len() == len64 as nat && bytes_at(
                                    buf@,
                                    p1 as int,
                                    spec_target_seq(s),
                                ) {
                                    let tail = s.skip(j as int);
                                    assert(tail.len() > 0);
                                    assert(spec_target_seq(tail) == spec_target(tail[0]) + spec_target_seq(
                                        tail.drop_first(),
                                    ));
                                    lemma_bytes_at_split(
                                        buf@,
                                        cur as int,
                                        spec_target(tail[0]),
                                        spec_target_seq(tail.drop_first()),
                                    );
                                }
                            }
                            assert forall|s: Seq<TargetMsg>|
                                !bytes_at(buf@, pos as int, #[trigger] spec_targets(s)) by {
                                if bytes_at(buf@, pos as int, spec_targets(s)) {
                                    assert(s.len() == len64 as nat);
                                    assert(bytes_at(buf@, p1 as int, spec_target_seq(s)));
                                }
                            }
                        }
                        return Option::None;
                    },
                    Option::Some((x, nx)) => {
                        proof {
                            lemma_target_seq_snoc(v@, x);
                            lemma_bytes_at_join(buf@, p1 as int, spec_target_seq(v@), spec_target(x));
                            assert forall|s: Seq<TargetMsg>|
                                (s.len() == len64 as nat && bytes_at(
                                    buf@,
                                    p1 as int,
                                    #[trigger] spec_target_seq(s),
                                )) implies ((j + 1) as nat <= s.len() && v@.push(x) == s.take(
                                j + 1,
                            ) && bytes_at(buf@, nx as int, spec_target_seq(s.skip(j + 1)))) by {
                                let tail = s.skip(j as int);
                                assert(tail.len() > 0);
                                assert(spec_target_seq(tail) == spec_target(tail[0]) + spec_target_seq(
                                    tail.drop_first(),
                                ));
                                lemma_bytes_at_split(
                                    buf@,
                                    cur as int,
                                    spec_target(tail[0]),
                                    spec_target_seq(tail.drop_first()),
                                );
                                assert(tail[0] == s[j as int]);
                                assert(x == s[j as int]);
                                assert(v@.push(x) =~= s.take(j + 1));
                                assert(tail.drop_first() =~= s.skip(j + 1));
                            }
                        }
                        v.push(x);
                        cur = nx;
                        j = j + 1;
                    },
                }
            }
            proof {
                assert forall|s: Seq<TargetMsg>|
                    bytes_at(buf@, pos as int, #[trigger] spec_targets(s)) implies (v@ == s && cur == pos
                    + spec_targets(s).len()) by {
                    assert(s.len() <= u64::MAX);
                    let n64 = s.len() as u64;
                    assert(n64 as nat == s.len());
                    assert(spec_varint(n64 as nat) == spec_varint(s.len()));
                    assert(bytes_at(buf@, pos as int, spec_varint(n64 as nat)));
                    assert(s.len() == len64 as nat);
                    assert(bytes_at(buf@, p1 as int, spec_target_seq(s)));
                    assert(v@ == s.take(j as int));
                    assert(s.take(j as int) =~= s);
                }
                assert(v@.len() == len64 as nat);
                lemma_bytes_at_join(buf@, pos as int, spec_varint(len64 as nat), spec_target_seq(v@));
            }
            Option::Some((v, cur))
        },
    }
}

fn dec_u8(buf: &Vec<u8>, pos: usize) -> (r: Option<(u8, usize)>)
    requires
        pos <= buf@.len(),
    ensures
        r matches Some((v, end)) ==> end == pos + 1 && end <= buf@.len() && bytes_at(
            buf@,
            pos as int,
            spec_u8(v),
        ),
        forall|n: u8|
            bytes_at(buf@, pos as int, #[trigger] spec_u8(n)) ==> r == Some((n, (pos + 1) as usize)),
{
    if pos >= buf.len() {
        return None;
    }
    let b = buf[pos];
    proof {
        assert(buf@.subrange(pos as int, pos + 1) =~= seq![b]);
        assert forall|n: u8| bytes_at(buf@, pos as int, #[trigger] spec_u8(n)) implies n == b by {
            assert(buf@.subrange(pos as int, pos + 1)[0] == buf@[pos as int]);
        }
    }
    Some((b, pos + 1))
}

fn dec_perf_u32(buf: &Vec<u8>, pos: usize) -> (r: Option<((PerfData, u32), usize)>)
    requires
        pos <= buf@.len(),
    ensures
        r matches Some((v, end)) ==> end == pos + 20 && end <= buf@.len() && bytes_at(
            buf@,
            pos as int,
            spec_perf(v.0) + spec_u32(v.1),
        ) && (spec_perf(v.0) + spec_u32(v.1)).len() == 20,
        forall|p: PerfData, c: u32|
            bytes_at(buf@, pos as int, #[trigger] (spec_perf(p) + spec_u32(c))) ==> r == Some(
                ((p, c), (pos + 20) as usize),
            ),
{
    proof {
        assert forall|p: PerfData, c: u32|
            bytes_at(buf@, pos as int, #[trigger] (spec_perf(p) + spec_u32(c))) implies bytes_at(
            buf@,
            pos as int,
            spec_perf(p),
        ) && bytes_at(buf@, pos + 16, spec_u32(c)) by {
            lemma_le_len(p.enter_time as nat, 8);
            lemma_le_len(p.elapsed as nat, 4);
            lemma_le_len(p.rate as nat, 4);
            lemma_le_len(c as nat, 4);
            lemma_bytes_at_split(buf@, pos as int, spec_perf(p), spec_u32(c));
        }
    }
    let pr = dec_perf(buf, pos);
    match pr {
        Option::None => {
            proof {
                assert forall|p: PerfData, c: u32|
                    !bytes_at(buf@, pos as int, #[trigger] (spec_perf(p) + spec_u32(c))) by {
                    if bytes_at(buf@, pos as int, spec_perf(p) + spec_u32(c)) {
                        assert(bytes_at(buf@, pos as int, spec_perf(p)));
                    }
                }
            }
            Option::None
        },
        Option::Some((p, p1)) => {
            let cr = dec_u32(buf, p1);
            match cr {
                Option::None => {
                    proof {
                        assert forall|p2: PerfData, c: u32|
                            !bytes_at(buf@, pos as int, #[trigger] (spec_perf(p2) + spec_u32(c))) by {
                            if bytes_at(buf@, pos as int, spec_perf(p2) + spec_u32(c)) {
                                assert(bytes_at(buf@, pos as int, spec_perf(p2)));
                                assert(p2 == p);
                                lemma_le_len(p2.enter_time as nat, 8);
                                lemma_le_len(p2.elapsed as nat, 4);
                                lemma_le_len(p2.rate as nat, 4);
                                assert(p1 == pos + 16);
                                assert(bytes_at(buf@, p1 as int, spec_u32(c)));
                            }
                        }
                    }
                    Option::None
                },
                Option::Some((c, end)) => {
                    proof {
                        lemma_le_len(p.enter_time as nat, 8);
                        lemma_le_len(p.elapsed as nat, 4);
                        lemma_le_len(p.rate as nat, 4);
                        lemma_le_len(c as nat, 4);
                        assert(p1 == pos + 16);
                        lemma_bytes_at_join(buf@, pos as int, spec_perf(p), spec_u32(c));
                        assert forall|p2: PerfData, c2: u32|
                            bytes_at(
                                buf@,
                                pos as int,
                                #[trigger] (spec_perf(p2) + spec_u32(c2)),
                            ) implies p2 == p && c2 == c by {
                            assert(bytes_at(buf@, pos as int, spec_perf(p2)));
                            assert(p2 == p);
                            lemma_le_len(p2.enter_time as nat, 8);
                            lemma_le_len(p2.elapsed as nat, 4);
                            lemma_le_len(p2.rate as nat, 4);
                            assert(bytes_at(buf@, p1 as int, spec_u32(c2)));
                        }
                    }
                    Option::Some(((p, c), end))
                },
            }
        },
    }
}

fn dec_example_cmd(buf: &Vec<u8>, pos: usize) -> (r: Option<(ExampleCmd, usize)>)
    requires
        pos <= buf@.len(),
    ensures
        r matches Some((v, end)) ==> pos <= end <= buf@.len() && end == pos + spec_example_cmd(
            v,
        ).len() && bytes_at(buf@, pos as int, spec_example_cmd(v)),
        forall|c: ExampleCmd|
            bytes_at(buf@, pos as int, #[trigger] spec_example_cmd(c)) ==> r == Some(
                (c, (pos + spec_example_cmd(c).len()) as usize),
            ),
{
    let tr = dec_varint(buf, pos);
    proof {
        assert forall|c: ExampleCmd|
            bytes_at(buf@, pos as int, #[trigger] spec_example_cmd(c)) implies tr == Some(
            ((example_cmd_tag(c) as u64), (pos + spec_example_cmd(c).len()) as usize),
        ) by {
            match c {
                ExampleCmd::Noop => {
                    assert(spec_varint((0u64) as nat) == spec_example_cmd(c));
                },
                ExampleCmd::Reset => {
                    assert(spec_varint((1u64) as nat) == spec_example_cmd(c));
                },
            }
        }
    }
    match tr {
        Option::None => Option::None,
        Option::Some((tag, p1)) => {
            if tag == 0 {
                Option::Some((ExampleCmd::Noop, p1))
            } else if tag == 1 {
                Option::Some((ExampleCmd::Reset, p1))
            } else {
                Option::None
            }
        },
    }
}

fn dec_hs_cmd(buf: &Vec<u8>, pos: usize) -> (r: Option<(HsCmd, usize)>)
    requires
        pos <= buf@.len(),
    ensures
        r matches Some((v, end)) ==> pos <= end <= buf@.len() && end == pos + spec_hs_cmd(v).len()
            && bytes_at(buf@, pos as int, spec_hs_cmd(v)),
        forall|c: HsCmd|
            bytes_at(buf@, pos as int, #[trigger] spec_hs_cmd(c)) ==> r == Some(
                (c, (pos + spec_hs_cmd(c).len()) as usize),
            ),
{
    let tr = dec_varint(buf, pos);
    proof {
        assert forall|c: HsCmd|
            bytes_at(buf@, pos as int, #[trigger] spec_hs_cmd(c)) implies (tr matches Some(
                (tag, p1),
            ) && tag == hs_cmd_tag(c) && p1 == pos + 1 && (c matches HsCmd::WatchdogEnableManual(b)
                ==> bytes_at(buf@, p1 as int, spec_bool(b))) && (c
                matches HsCmd::WatchdogEnableAuto(b) ==> bytes_at(buf@, p1 as int, spec_bool(b)))) by {
            match c {
                HsCmd::Noop => {
                    assert(spec_varint((0u64) as nat) == spec_hs_cmd(c));
                },
                HsCmd::Reset => {
                    assert(spec_varint((1u64) as nat) == spec_hs_cmd(c));
                },
                HsCmd::WatchdogEnableManual(b) => {
                    lemma_bytes_at_split(buf@, pos as int, spec_varint(2), spec_bool(b));
                    assert(spec_varint((2u64) as nat) == spec_varint(2));
                },
                HsCmd::WatchdogEnableAuto(b) => {
                    lemma_bytes_at_split(buf@, pos as int, spec_varint(3), spec_bool(b));
                    assert(spec_varint((3u64) as nat) == spec_varint(3));
                },
                HsCmd::WatchdogResumeAuto => {
                    assert(spec_varint((4u64) as nat) == spec_hs_cmd(c));
                },
            }
        }
    }
    match tr {
        Option::None => Option::None,
        Option::Some((tag, p1)) => {
            if tag == 0 {
                Option::Some((HsCmd::Noop, p1))
            } else if tag == 1 {
                Option::Some((HsCmd::Reset, p1))
            } else if tag == 2 {
                match dec_bool(buf, p1) {
                    Option::None => Option::None,
                    Option::Some((b, end)) => {
                        proof {
                            lemma_bytes_at_join(buf@, pos as int, spec_varint(2), spec_bool(b));
                        }
                        Option::Some((HsCmd::WatchdogEnableManual(b), end))
                    },
                }
            } else if tag == 3 {
                match dec_bool(buf, p1) {
                    Option::None => Option::None,
                    Option::Some((b, end)) => {
                        proof {
                            lemma_bytes_at_join(buf@, pos as int, spec_varint(3), spec_bool(b));
                        }
                        Option::Some((HsCmd::WatchdogEnableAuto(b), end))
                    },
                }
            } else if tag == 4 {
                Option::Some((HsCmd::WatchdogResumeAuto, p1))
            } else {
                Option::None
            }
        },
    }
}

fn dec_to_tlm_set(buf: &Vec<u8>, pos: usize) -> (r: Option<(ToTlmSet, usize)>)
    requires
        pos <= buf@.len(),
    ensures
        r matches Some((v, end)) ==> pos <= end <= buf@.len() && end == pos + spec_to_tlm_set(
            v.deep_view(),
        ).len() && bytes_at(buf@, pos as int, spec_to_tlm_set(v.deep_view())),
        forall|dv: ToTlmSetView|
            bytes_at(buf@, pos as int, #[trigger] spec_to_tlm_set(dv)) ==> (r matches Some((v, end))
                && v.deep_view() == dv && end == pos + spec_to_tlm_set(dv).len()),
{
    proof {
        assert forall|dv: ToTlmSetView|
            bytes_at(buf@, pos as int, #[trigger] spec_to_tlm_set(dv)) implies bytes_at(
            buf@,
            pos as int,
            spec_items(dv.items),
        ) && bytes_at(buf@, pos + spec_items(dv.items).len(), spec_u16(dv.id)) && bytes_at(
            buf@,
            pos + spec_items(dv.items).len() + 2,
            spec_bool(dv.enabled),
        ) by {
            lemma_le_len(dv.id as nat, 2);
            lemma_bytes_at_split(
                buf@,
                pos as int,
                spec_items(dv.items) + spec_u16(dv.id),
                spec_bool(dv.enabled),
            );
            lemma_bytes_at_split(buf@, pos as int, spec_items(dv.items), spec_u16(dv.id));
        }
    }
    match dec_items(buf, pos) {
        Option::None => Option::None,
        Option::Some((items, p1)) => {
            match dec_u16(buf, p1) {
                Option::None => Option::None,
                Option::Some((id, p2)) => {
                    match dec_bool(buf, p2) {
                        Option::None => Option::None,
                        Option::Some((enabled, end)) => {
                            let v = ToTlmSet { items, id, enabled };
                            proof {
                                lemma_le_len(id as nat, 2);
                                lemma_bytes_at_join(
                                    buf@,
                                    pos as int,
                                    spec_items(v.items@),
                                    spec_u16(id),
                                );
                                lemma_bytes_at_join(
                                    buf@,
                                    pos as int,
                                    spec_items(v.items@) + spec_u16(id),
                                    spec_bool(enabled),
                                );
                                assert(v.items.deep_view() =~= v.items@);
                                assert(v.deep_view() =~= (ToTlmSetView {
                                    items: v.items@,
                                    id,
                                    enabled,
                                }));
                                assert forall|dv: ToTlmSetView|
                                    bytes_at(
                                        buf@,
                                        pos as int,
                                        #[trigger] spec_to_tlm_set(dv),
                                    ) implies v.deep_view() == dv by {
                                    assert(dv.items == items@);
                                    assert(v.deep_view() =~= dv);
                                }
                            }
                            Option::Some((v, end))
                        },
                    }
                },
            }
        },
    }
}

fn dec_ds_tlm_set(buf: &Vec<u8>, pos: usize) -> (r: Option<(DsTlmSet, usize)>)
    requires
        pos <= buf@.len(),
    ensures
        r matches Some((v, end)) ==> pos <= end <= buf@.len() && end == pos + spec_ds_tlm_set(
            v.deep_view(),
        ).len() && bytes_at(buf@, pos as int, spec_ds_tlm_set(v.deep_view())),
        forall|dv: DsTlmSetView|
            bytes_at(buf@, pos as int, #[trigger] spec_ds_tlm_set(dv)) ==> (r matches Some((v, end))
                && v.deep_view() == dv && end == pos + spec_ds_tlm_set(dv).len()),
{
    proof {
        assert forall|dv: DsTlmSetView|
            bytes_at(buf@, pos as int, #[trigger] spec_ds_tlm_set(dv)) implies bytes_at(
            buf@,
            pos as int,
            spec_items(dv.items),
        ) && bytes_at(buf@, pos + spec_items(dv.items).len(), spec_u16(dv.id)) && bytes_at(
            buf@,
            pos + spec_items(dv.items).len() + 2,
            spec_bool(dv.enabled),
        ) && bytes_at(
            buf@,
            pos + spec_items(dv.items).len() + 3,
            spec_string(dv.path),
        ) by {
            lemma_le_len(dv.id as nat, 2);
            lemma_bytes_at_split(
                buf@,
                pos as int,
                spec_items(dv.items) + spec_u16(dv.id) + spec_bool(dv.enabled),
                spec_string(dv.path),
            );
            lemma_bytes_at_split(
                buf@,
                pos as int,
                spec_items(dv.items) + spec_u16(dv.id),
                spec_bool(dv.enabled),
            );
            lemma_bytes_at_split(buf@, pos as int, spec_items(dv.items), spec_u16(dv.id));
        }
    }
    match dec_items(buf, pos) {
        Option::None => Option::None,
        Option::Some((items, p1)) => {
            match dec_u16(buf, p1) {
                Option::None => Option::None,
                Option::Some((id, p2)) => {
                    match dec_bool(buf, p2) {
                        Option::None => Option::None,
                        Option::Some((enabled, p3)) => {
                            match dec_string(buf, p3) {
                                Option::None => Option::None,
                                Option::Some((path, end)) => {
                                    let v = DsTlmSet { items, id, enabled, path };
                                    proof {
                                        lemma_le_len(id as nat, 2);
                                        lemma_bytes_at_join(
                                            buf@,
                                            pos as int,
                                            spec_items(v.items@),
                                            spec_u16(id),
                                        );
                                        lemma_bytes_at_join(
                                            buf@,
                                            pos as int,
                                            spec_items(v.items@) + spec_u16(id),
                                            spec_bool(enabled),
                                        );
                                        lemma_bytes_at_join(
                                            buf@,
                                            pos as int,
                                            spec_items(v.items@) + spec_u16(id) + spec_bool(
                                                enabled,
                                            ),
                                            spec_string(v.path@),
                                        );
                                        assert(v.items.deep_view() =~= v.items@);
                                        assert(v.deep_view() =~= (DsTlmSetView {
                                            items: v.items@,
                                            id,
                                            enabled,
                                            path: v.path@,
                                        }));
                                        assert forall|dv: DsTlmSetView|
                                            bytes_at(
                                                buf@,
                                                pos as int,
                                                #[trigger] spec_ds_tlm_set(dv),
                                            ) implies v.deep_view() == dv by {
                                            assert(dv.items == items@);
                                            assert(dv.path == path@);
                                            assert(v.deep_view() =~= dv);
                                        }
                                    }
                                    Option::Some((v, end))
                                },
                            }
                        },
                    }
                },
            }
        },
    }
}

fn dec_to_cmd(buf: &Vec<u8>, pos: usize) -> (r: Option<(ToCmd, usize)>)
    requires
        pos <= buf@.len(),
    ensures
        r matches Some((v, end)) ==> pos <= end <= buf@.len() && end == pos + spec_to_cmd(
            v.deep_view(),
        ).len() && bytes_at(buf@, pos as int, spec_to_cmd(v.deep_view())),
        forall|c: ToCmdView|
            bytes_at(buf@, pos as int, #[trigger] spec_to_cmd(c)) ==> (r matches Some((v, end))
                && v.deep_view() == c && end == pos + spec_to_cmd(c).len()),
{
    let tr = dec_varint(buf, pos);
    proof {
        assert forall|c: ToCmdView|
            bytes_at(buf@, pos as int, #[trigger] spec_to_cmd(c)) implies (tr matches Some(
                (tag, p1),
            ) && p1 == pos + 1 && tag < 6 && (match c {
                ToCmdView::Noop => tag == 0,
                ToCmdView::Reset => tag == 1,
                ToCmdView::AddTlmSet(v) => tag == 2 && bytes_at(buf@, p1 as int, spec_to_tlm_set(v)),
                ToCmdView::RemoveTlmSet(id) => tag == 3 && bytes_at(buf@, p1 as int, spec_u16(id)),
                ToCmdView::DisableTlmSet(id) => tag == 4 && bytes_at(buf@, p1 as int, spec_u16(id)),
                ToCmdView::EnablTlmSet(id) => tag == 5 && bytes_at(buf@, p1 as int, spec_u16(id)),
            })) by {
            match c {
                ToCmdView::Noop => {
                    assert(spec_varint((0u64) as nat) == spec_to_cmd(c));
                },
                ToCmdView::Reset => {
                    assert(spec_varint((1u64) as nat) == spec_to_cmd(c));
                },
                ToCmdView::AddTlmSet(v) => {
                    lemma_bytes_at_split(buf@, pos as int, spec_varint(2), spec_to_tlm_set(v));
                    assert(spec_varint((2u64) as nat) == spec_varint(2));
                },
                ToCmdView::RemoveTlmSet(id) => {
                    lemma_le_len(id as nat, 2);
                    lemma_bytes_at_split(buf@, pos as int, spec_varint(3), spec_u16(id));
                    assert(spec_varint((3u64) as nat) == spec_varint(3));
                },
                ToCmdView::DisableTlmSet(id) => {
                    lemma_le_len(id as nat, 2);
                    lemma_bytes_at_split(buf@, pos as int, spec_varint(4), spec_u16(id));
                    assert(spec_varint((4u64) as nat) == spec_varint(4));
                },
                ToCmdView::EnablTlmSet(id) => {
                    lemma_le_len(id as nat, 2);
                    lemma_bytes_at_split(buf@, pos as int, spec_varint(5), spec_u16(id));
                    assert(spec_varint((5u64) as nat) == spec_varint(5));
                },
            }
        }
    }
    match tr {
        Option::None => Option::None,
        Option::Some((tag, p1)) => {
            if tag == 0 {
                Option::Some((ToCmd::Noop, p1))
            } else if tag == 1 {
                Option::Some((ToCmd::Reset, p1))
            } else if tag == 2 {
                match dec_to_tlm_set(buf, p1) {
                    Option::None => Option::None,
                    Option::Some((set, end)) => {
                        let v = ToCmd::AddTlmSet(set);
                        proof {
                            lemma_bytes_at_join(
                                buf@,
                                pos as int,
                                spec_varint(2),
                                spec_to_tlm_set(set.deep_view()),
                            );
                        }
                        Option::Some((v, end))
                    },
                }
            } else if tag == 3 {
                match dec_u16(buf, p1) {
                    Option::None => Option::None,
                    Option::Some((id, end)) => {
                        proof {
                            lemma_le_len(id as nat, 2);
                            lemma_bytes_at_join(buf@, pos as int, spec_varint(3), spec_u16(id));
                        }
                        Option::Some((ToCmd::RemoveTlmSet(id), end))
                    },
                }
            } else if tag == 4 {
                match dec_u16(buf, p1) {
                    Option::None => Option::None,
                    Option::Some((id, end)) => {
                        proof {
                            lemma_le_len(id as nat, 2);
                            lemma_bytes_at_join(buf@, pos as int, spec_varint(4), spec_u16(id));
                        }
                        Option::Some((ToCmd::DisableTlmSet(id), end))
                    },
                }
            } else if tag == 5 {
                match dec_u16(buf, p1) {
                    Option::None => Option::None,
                    Option::Some((id, end)) => {
                        proof {
                            lemma_le_len(id as nat, 2);
                            lemma_bytes_at_join(buf@, pos as int, spec_varint(5), spec_u16(id));
                        }
                        Option::Some((ToCmd::EnablTlmSet(id), end))
                    },
                }
            } else {
                Option::None
            }
        },
    }
}

fn dec_ds_cmd(buf: &Vec<u8>, pos: usize) -> (r: Option<(DsCmd, usize)>)
    requires
        pos <= buf@.len(),
    ensures
        r matches Some((v, end)) ==> pos <= end <= buf@.len() && end == pos + spec_ds_cmd(
            v.deep_view(),
        ).len() && bytes_at(buf@, pos as int, spec_ds_cmd(v.deep_view())),
        forall|c: DsCmdView|
            bytes_at(buf@, pos as int, #[trigger] spec_ds_cmd(c)) ==> (r matches Some((v, end))
                && v.deep_view() == c && end == pos + spec_ds_cmd(c).len()),
{
    let tr = dec_varint(buf, pos);
    proof {
        assert forall|c: DsCmdView|
            bytes_at(buf@, pos as int, #[trigger] spec_ds_cmd(c)) implies (tr matches Some(
                (tag, p1),
            ) && p1 == pos + 1 && tag < 8 && (match c {
                DsCmdView::Noop => tag == 0,
                DsCmdView::Reset => tag == 1,
                DsCmdView::CloseAll => tag == 2,
                DsCmdView::Close(id) => tag == 3 && bytes_at(buf@, p1 as int, spec_u16(id)),
                DsCmdView::AddTlmSet(v) => tag == 4 && bytes_at(buf@, p1 as int, spec_ds_tlm_set(v)),
                DsCmdView::RemoveTlmSet(id) => tag == 5 && bytes_at(buf@, p1 as int, spec_u16(id)),
                DsCmdView::DisableTlmSet(id) => tag == 6 && bytes_at(buf@, p1 as int, spec_u16(id)),
                DsCmdView::EnablTlmSet(id) => tag == 7 && bytes_at(buf@, p1 as int, spec_u16(id)),
            })) by {
            match c {
                DsCmdView::Noop => {
                    assert(spec_varint((0u64) as nat) == spec_ds_cmd(c));
                },
                DsCmdView::Reset => {
                    assert(spec_varint((1u64) as nat) == spec_ds_cmd(c));
                },
                DsCmdView::CloseAll => {
                    assert(spec_varint((2u64) as nat) == spec_ds_cmd(c));
                },
                DsCmdView::Close(id) => {
                    lemma_le_len(id as nat, 2);
                    lemma_bytes_at_split(buf@, pos as int, spec_varint(3), spec_u16(id));
                    assert(spec_varint((3u64) as nat) == spec_varint(3));
                },
                DsCmdView::AddTlmSet(v) => {
                    lemma_bytes_at_split(buf@, pos as int, spec_varint(4), spec_ds_tlm_set(v));
                    assert(spec_varint((4u64) as nat) == spec_varint(4));
                },
                DsCmdView::RemoveTlmSet(id) => {
                    lemma_le_len(id as nat, 2);
                    lemma_bytes_at_split(buf@, pos as int, spec_varint(5), spec_u16(id));
                    assert(spec_varint((5u64) as nat) == spec_varint(5));
                },
                DsCmdView::DisableTlmSet(id) => {
                    lemma_le_len(id as nat, 2);
                    lemma_bytes_at_split(buf@, pos as int, spec_varint(6), spec_u16(id));
                    assert(spec_varint((6u64) as nat) == spec_varint(6));
                },
                DsCmdView::EnablTlmSet(id) => {
                    lemma_le_len(id as nat, 2);
                    lemma_bytes_at_split(buf@, pos as int, spec_varint(7), spec_u16(id));
                    assert(spec_varint((7u64) as nat) == spec_varint(7));
                },
            }
        }
    }
    match tr {
        Option::None => Option::None,
        Option::Some((tag, p1)) => {
            if tag == 0 {
                Option::Some((DsCmd::Noop, p1))
            } else if tag == 1 {
                Option::Some((DsCmd::Reset, p1))
            } else if tag == 2 {
                Option::Some((DsCmd::CloseAll, p1))
            } else if tag == 3 {
                match dec_u16(buf, p1) {
                    Option::None => Option::None,
                    Option::Some((id, end)) => {
                        proof {
                            lemma_le_len(id as nat, 2);
                            lemma_bytes_at_join(buf@, pos as int, spec_varint(3), spec_u16(id));
                        }
                        Option::Some((DsCmd::Close(id), end))
                    },
                }
            } else if tag == 4 {
                match dec_ds_tlm_set(buf, p1) {
                    Option::None => Option::None,
                    Option::Some((set, end)) => {
                        let v = DsCmd::AddTlmSet(set);
                        proof {
                            lemma_bytes_at_join(
                                buf@,
                                pos as int,
                                spec_varint(4),
                                spec_ds_tlm_set(set.deep_view()),
                            );
                        }
                        Option::Some((v, end))
                    },
                }
            } else if tag == 5 {
                match dec_u16(buf, p1) {
                    Option::None => Option::None,
                    Option::Some((id, end)) => {
                        proof {
                            lemma_le_len(id as nat, 2);
                            lemma_bytes_at_join(buf@, pos as int, spec_varint(5), spec_u16(id));
                        }
                        Option::Some((DsCmd::RemoveTlmSet(id), end))
                    },
                }
            } else if tag == 6 {
                match dec_u16(buf, p1) {
                    Option::None => Option::None,
                    Option::Some((id, end)) => {
                        proof {
                            lemma_le_len(id as nat, 2);
                            lemma_bytes_at_join(buf@, pos as int, spec_varint(6), spec_u16(id));
                        }
                        Option::Some((DsCmd::DisableTlmSet(id), end))
                    },
                }
            } else if tag == 7 {
                match dec_u16(buf, p1) {
                    Option::None => Option::None,
                    Option::Some((id, end)) => {
                        proof {
                            lemma_le_len(id as nat, 2);
                            lemma_bytes_at_join(buf@, pos as int, spec_varint(7), spec_u16(id));
                        }
                        Option::Some((DsCmd::EnablTlmSet(id), end))
                    },
                }
            } else {
                Option::None
            }
        },
    }
}

fn dec_u32x3(buf: &Vec<u8>, pos: usize) -> (r: Option<((u32, u32, u32), usize)>)
    requires
        pos <= buf@.len(),
    ensures
        r matches Some((v, end)) ==> end == pos + 12 && end <= buf@.len() && bytes_at(
            buf@,
            pos as int,
            spec_u32(v.0) + spec_u32(v.1) + spec_u32(v.2),
        ) && (spec_u32(v.0) + spec_u32(v.1) + spec_u32(v.2)).len() == 12,
        forall|a: u32, b: u32, c: u32|
            bytes_at(buf@, pos as int, #[trigger] (spec_u32(a) + spec_u32(b) + spec_u32(c))) ==> r
                == Some(((a, b, c), (pos + 12) as usize)),
{
    proof {
        assert forall|a: u32, b: u32, c: u32|
            bytes_at(
                buf@,
                pos as int,
                #[trigger] (spec_u32(a) + spec_u32(b) + spec_u32(c)),
            ) implies bytes_at(buf@, pos as int, spec_u32(a)) && bytes_at(
            buf@,
            pos + 4,
            spec_u32(b),
        ) && bytes_at(buf@, pos + 8, spec_u32(c)) by {
            lemma_le_len(a as nat, 4);
            lemma_le_len(b as nat, 4);
            lemma_le_len(c as nat, 4);
            lemma_bytes_at_split(buf@, pos as int, spec_u32(a) + spec_u32(b), spec_u32(c));
            lemma_bytes_at_split(buf@, pos as int, spec_u32(a), spec_u32(b));
        }
    }
    let ar = dec_u32(buf, pos);
    match ar {
        Option::None => Option::None,
        Option::Some((a, p1)) => {
            let br = dec_u32(buf, p1);
            match br {
                Option::None => Option::None,
                Option::Some((b, p2)) => {
                    let cr = dec_u32(buf, p2);
                    match cr {
                        Option::None => Option::None,
                        Option::Some((c, end)) => {
                            proof {
                                lemma_le_len(a as nat, 4);
                                lemma_le_len(b as nat, 4);
                                lemma_le_len(c as nat, 4);
                                lemma_bytes_at_join(buf@, pos as int, spec_u32(a), spec_u32(b));
                                lemma_bytes_at_join(
                                    buf@,
                                    pos as int,
                                    spec_u32(a) + spec_u32(b),
                                    spec_u32(c),
                                );
                            }
                            Option::Some(((a, b, c), end))
                        },
                    }
                },
            }
        },
    }
}

#[verifier::rlimit(60)]
fn dec_hs_hk(buf: &Vec<u8>, pos: usize) -> (r: Option<(HsHk, usize)>)
    requires
        pos <= buf@.len(),
    ensures
        r matches Some((v, end)) ==> pos <= end <= buf@.len() && end == pos + spec_hs_hk(
            v.deep_view(),
        ).len() && bytes_at(buf@, pos as int, spec_hs_hk(v.deep_view())),
        forall|dv: HsHkView|
            bytes_at(buf@, pos as int, #[trigger] spec_hs_hk(dv)) ==> (r matches Some((v, end))
                && v.deep_view() == dv && end == pos + spec_hs_hk(dv).len()),
{
    proof {
        assert forall|dv: HsHkView|
            bytes_at(buf@, pos as int, #[trigger] spec_hs_hk(dv)) implies {
            let a = spec_perf(dv.perf) + spec_u32(dv.counter);
            let c = spec_bytes(dv.cpu_usage);
            let e = spec_bytes(dv.fs_usage);
            let f = spec_i8_bytes(dv.temps);
            &&& bytes_at(buf@, pos as int, a)
            &&& bytes_at(buf@, pos + 20, c)
            &&& bytes_at(buf@, pos + 20 + c.len(), spec_u8(dv.mem_usage))
            &&& bytes_at(buf@, pos + 21 + c.len(), e)
            &&& bytes_at(buf@, pos + 21 + c.len() + e.len(), f)
            &&& bytes_at(buf@, pos + 21 + c.len() + e.len() + f.len(), spec_u8(dv.cmd_counter))
            &&& bytes_at(
                buf@,
                pos + 22 + c.len() + e.len() + f.len(),
                spec_bool(dv.cpu_usage_enabled),
            )
            &&& bytes_at(
                buf@,
                pos + 23 + c.len() + e.len() + f.len(),
                spec_bool(dv.mem_usage_enabled),
            )
            &&& bytes_at(
                buf@,
                pos + 24 + c.len() + e.len() + f.len(),
                spec_bool(dv.fs_usage_enabled),
            )
        } by {
            let a = spec_perf(dv.perf) + spec_u32(dv.counter);
            let c = spec_bytes(dv.cpu_usage);
            let e = spec_bytes(dv.fs_usage);
            let f = spec_i8_bytes(dv.temps);
            lemma_le_len(dv.perf.enter_time as nat, 8);
            lemma_le_len(dv.perf.elapsed as nat, 4);
            lemma_le_len(dv.perf.rate as nat, 4);
            lemma_le_len(dv.counter as nat, 4);
            let l8 = a + c + spec_u8(dv.mem_usage) + e + f + spec_u8(dv.cmd_counter) + spec_bool(
                dv.cpu_usage_enabled,
            ) + spec_bool(dv.mem_usage_enabled);
            let l7 = a + c + spec_u8(dv.mem_usage) + e + f + spec_u8(dv.cmd_counter) + spec_bool(
                dv.cpu_usage_enabled,
            );
            let l6 = a + c + spec_u8(dv.mem_usage) + e + f + spec_u8(dv.cmd_counter);
            let l5 = a + c + spec_u8(dv.mem_usage) + e + f;
            let l4 = a + c + spec_u8(dv.mem_usage) + e;
            let l3 = a + c + spec_u8(dv.mem_usage);
            let l2 = a + c;
            assert(spec_hs_hk(dv) == l8 + spec_bool(dv.fs_usage_enabled)) by {
                assert(spec_hs_hk(dv) =~= l8 + spec_bool(dv.fs_usage_enabled));
            }
            lemma_bytes_at_split(buf@, pos as int, l8, spec_bool(dv.fs_usage_enabled));
            lemma_bytes_at_split(buf@, pos as int, l7, spec_bool(dv.mem_usage_enabled));
            lemma_bytes_at_split(buf@, pos as int, l6, spec_bool(dv.cpu_usage_enabled));
            lemma_bytes_at_split(buf@, pos as int, l5, spec_u8(dv.cmd_counter));
            lemma_bytes_at_split(buf@, pos as int, l4, f);
            lemma_bytes_at_split(buf@, pos as int, l3, e);
            lemma_bytes_at_split(buf@, pos as int, l2, spec_u8(dv.mem_usage));
            lemma_bytes_at_split(buf@, pos as int, a, c);
        }
    }
    let pr = dec_perf_u32(buf, pos);
    let ((perf, counter), p1) = match pr {
        Option::None => { return Option::None },
        Option::Some(x) => x,
    };
    let (cpu_usage, p2) = match dec_bytes(buf, p1) {
        Option::None => { return Option::None },
        Option::Some(x) => x,
    };
    let (mem_usage, p3) = match dec_u8(buf, p2) {
        Option::None => { return Option::None },
        Option::Some(x) => x,
    };
    let (fs_usage, p4) = match dec_bytes(buf, p3) {
        Option::None => { return Option::None },
        Option::Some(x) => x,
    };
    let (temps, p5) = match dec_i8_bytes(buf, p4) {
        Option::None => { return Option::None },
        Option::Some(x) => x,
    };
    let (cmd_counter, p6) = match dec_u8(buf, p5) {
        Option::None => { return Option::None },
        Option::Some(x) => x,
    };
    let (cpu_usage_enabled, p7) = match dec_bool(buf, p6) {
        Option::None => { return Option::None },
        Option::Some(x) => x,
    };
    let (mem_usage_enabled, p8) = match dec_bool(buf, p7) {
        Option::None => { return Option::None },
        Option::Some(x) => x,
    };
    let (fs_usage_enabled, end) = match dec_bool(buf, p8) {
        Option::None => { return Option::None },
        Option::Some(x) => x,
    };
    let v = HsHk {
        perf,
        counter,
        cpu_usage,
        mem_usage,
        fs_usage,
        temps,
        cmd_counter,
        cpu_usage_enabled,
        mem_usage_enabled,
        fs_usage_enabled,
    };
    proof {
        let a = spec_perf(perf) + spec_u32(counter);
        let c = spec_bytes(v.cpu_usage@);
        let e = spec_bytes(v.fs_usage@);
        let f = spec_i8_bytes(v.temps@);
        lemma_bytes_at_join(buf@, pos as int, a, c);
        lemma_bytes_at_join(buf@, pos as int, a + c, spec_u8(mem_usage));
        lemma_bytes_at_join(buf@, pos as int, a + c + spec_u8(mem_usage), e);
        lemma_bytes_at_join(buf@, pos as int, a + c + spec_u8(mem_usage) + e, f);
        lemma_bytes_at_join(
            buf@,
            pos as int,
            a + c + spec_u8(mem_usage) + e + f,
            spec_u8(cmd_counter),
        );
        lemma_bytes_at_join(
            buf@,
            pos as int,
            a + c + spec_u8(mem_usage) + e + f + spec_u8(cmd_counter),
            spec_bool(cpu_usage_enabled),
        );
        lemma_bytes_at_join(
            buf@,
            pos as int,
            a + c + spec_u8(mem_usage) + e + f + spec_u8(cmd_counter) + spec_bool(
                cpu_usage_enabled,
            ),
            spec_bool(mem_usage_enabled),
        );
        lemma_bytes_at_join(
            buf@,
            pos as int,
            a + c + spec_u8(mem_usage) + e + f + spec_u8(cmd_counter) + spec_bool(
                cpu_usage_enabled,
            ) + spec_bool(mem_usage_enabled),
            spec_bool(fs_usage_enabled),
        );
        assert(v.cpu_usage.deep_view() =~= v.cpu_usage@);
        assert(v.fs_usage.deep_view() =~= v.fs_usage@);
        assert(v.temps.deep_view() =~= v.temps@);
        assert(spec_hs_hk(v.deep_view()) =~= a + c + spec_u8(mem_usage) + e + f + spec_u8(
            cmd_counter,
        ) + spec_bool(cpu_usage_enabled) + spec_bool(mem_usage_enabled) + spec_bool(
            fs_usage_enabled,
        ));
        assert forall|dv: HsHkView|
            bytes_at(buf@, pos as int, #[trigger] spec_hs_hk(dv)) implies v.deep_view() == dv by {
            assert(dv.perf == perf && dv.counter == counter);
            assert(dv.cpu_usage == cpu_usage@);
            assert(dv.mem_usage == mem_usage);
            assert(dv.fs_usage == fs_usage@);
            assert(dv.temps == temps@);
            assert(v.deep_view() =~= dv);
        }
    }
    Option::Some((v, end))
}

#[verifier::rlimit(100)]
#[verifier::spinoff_prover]
fn dec_msg_app_example_ds(buf: &Vec<u8>, pos: usize, k: MsgKind, p1: usize) -> (r: Option<(Msg, usize)>)
    requires
        pos <= p1 <= buf@.len(),
        bytes_at(buf@, pos as int, spec_kind(k)),
        p1 == pos + spec_kind(k).len(),
        k == MsgKind::ExampleHk || k == MsgKind::ExampleOutData || k == MsgKind::ExampleCmd || k == MsgKind::DsHk || k == MsgKind::DsOutData || k == MsgKind::DsCmd,
    ensures
        r matches Some((v, end)) ==> pos <= end <= buf@.len() && end == pos + spec_msg(
            v.deep_view(),
        ).len() && bytes_at(buf@, pos as int, spec_msg(v.deep_view())),
        forall|m: MsgView|
            bytes_at(buf@, pos as int, #[trigger] spec_msg(m)) ==> (r matches Some((v, end))
                && v.deep_view() == m && end == pos + spec_msg(m).len()),
{
    proof {
        assert forall|m: MsgView|
            bytes_at(buf@, pos as int, #[trigger] spec_msg(m)) implies (m.kind() == k && bytes_at(
            buf@,
            p1 as int,
            spec_msg_payload(m),
        )) by {
            lemma_bytes_at_split(buf@, pos as int, spec_kind(m.kind()), spec_msg_payload(m));
            assert(kind_tag(m.kind()) < 128 && kind_tag(k) < 128);
            assert(spec_kind(m.kind())[0] == kind_tag(m.kind()) as u8);
            assert(spec_kind(k)[0] == kind_tag(k) as u8);
            assert(buf@.subrange(pos as int, pos + 1)[0] == buf@[pos as int]);
            assert(kind_tag(m.kind()) == kind_tag(k));
            assert(m.kind() == k);
        }
    }
    match k {
        MsgKind::ExampleHk => {
            match dec_perf_u32(buf, p1) {
                Option::None => Option::None,
                Option::Some(((perf, counter), end)) => {
                    let v = Msg::ExampleHk(ExampleHk { perf, counter });
                    proof {
                        lemma_bytes_at_join(
                            buf@,
                            pos as int,
                            spec_kind(MsgKind::ExampleHk),
                            spec_perf(perf) + spec_u32(counter),
                        );
                        assert forall|m: MsgView|
                            bytes_at(buf@, pos as int, #[trigger] spec_msg(m)) implies v.deep_view()
                            == m by {
                            match m {
                                MsgView::ExampleHk(h) => {
                                    assert(spec_msg_payload(m) == spec_perf(h.perf) + spec_u32(
                                        h.counter,
                                    ));
                                },
                                _ => {
                                    assert(m.kind() != MsgKind::ExampleHk);
                                },
                            }
                        }
                    }
                    Option::Some((v, end))
                },
            }
        },
        MsgKind::ExampleOutData => {
            match dec_u32(buf, p1) {
                Option::None => Option::None,
                Option::Some((counter, end)) => {
                    let v = Msg::ExampleOutData(ExampleOutData { counter });
                    proof {
                        lemma_le_len(counter as nat, 4);
                        lemma_bytes_at_join(
                            buf@,
                            pos as int,
                            spec_kind(MsgKind::ExampleOutData),
                            spec_u32(counter),
                        );
                    }
                    Option::Some((v, end))
                },
            }
        },
        MsgKind::ExampleCmd => {
            match dec_example_cmd(buf, p1) {
                Option::None => Option::None,
                Option::Some((c, end)) => {
                    proof {
                        lemma_bytes_at_join(
                            buf@,
                            pos as int,
                            spec_kind(MsgKind::ExampleCmd),
                            spec_example_cmd(c),
                        );
                    }
                    Option::Some((Msg::ExampleCmd(c), end))
                },
            }
        },
        MsgKind::DsHk => {
            match dec_perf_u32(buf, p1) {
                Option::None => Option::None,
                Option::Some(((perf, counter), end)) => {
                    let v = Msg::DsHk(DsHk { perf, counter });
                    proof {
                        lemma_bytes_at_join(
                            buf@,
                            pos as int,
                            spec_kind(MsgKind::DsHk),
                            spec_perf(perf) + spec_u32(counter),
                        );
                        assert forall|m: MsgView|
                            bytes_at(buf@, pos as int, #[trigger] spec_msg(m)) implies v.deep_view()
                            == m by {
                            match m {
                                MsgView::DsHk(h) => {
                                    assert(spec_msg_payload(m) == spec_perf(h.perf) + spec_u32(
                                        h.counter,
                                    ));
                                },
                                _ => {
                                    assert(m.kind() != MsgKind::DsHk);
                                },
                            }
                        }
                    }
                    Option::Some((v, end))
                },
            }
        },
        MsgKind::DsOutData => {
            match dec_u32x3(buf, p1) {
                Option::None => Option::None,
                Option::Some(((counter, bytes_written, bytes_written_this_cycle), end)) => {
                    let v = Msg::DsOutData(
                        DsOutData { counter, bytes_written, bytes_written_this_cycle },
                    );
                    proof {
                        lemma_bytes_at_join(
                            buf@,
                            pos as int,
                            spec_kind(MsgKind::DsOutData),
                            spec_u32(counter) + spec_u32(bytes_written) + spec_u32(
                                bytes_written_this_cycle,
                            ),
                        );
                        assert forall|m: MsgView|
                            bytes_at(buf@, pos as int, #[trigger] spec_msg(m)) implies v.deep_view()
                            == m by {
                            match m {
                                MsgView::DsOutData(h) => {
                                    assert(spec_msg_payload(m) == spec_u32(h.counter) + spec_u32(
                                        h.bytes_written,
                                    ) + spec_u32(h.bytes_written_this_cycle));
                                },
                                _ => {
                                    assert(m.kind() != MsgKind::DsOutData);
                                },
                            }
                        }
                    }
                    Option::Some((v, end))
                },
            }
        },
        MsgKind::DsCmd => {
            match dec_ds_cmd(buf, p1) {
                Option::None => Option::None,
                Option::Some((c, end)) => {
                    let v = Msg::DsCmd(c);
                    proof {
                        lemma_bytes_at_join(
                            buf@,
                            pos as int,
                            spec_kind(MsgKind::DsCmd),
                            spec_ds_cmd(c.deep_view()),
                        );
                        assert forall|m: MsgView|
                            bytes_at(buf@, pos as int, #[trigger] spec_msg(m)) implies v.deep_view()
                            == m by {
                            match m {
                                MsgView::DsCmd(cv) => {
                                    assert(c.deep_view() == cv);
                                },
                                _ => {
                                    assert(m.kind() != MsgKind::DsCmd);
                                },
                            }
                        }
                    }
                    Option::Some((v, end))
                },
            }
        },
        _ => {
            proof {
                assert(false);
            }
            Option::None
        },
    }
}

#[verifier::rlimit(100)]
#[verifier::spinoff_prover]
fn dec_msg_app_hs_to(buf: &Vec<u8>, pos: usize, k: MsgKind, p1: usize) -> (r: Option<(Msg, usize)>)
    requires
        pos <= p1 <= buf@.len(),
        bytes_at(buf@, pos as int, spec_kind(k)),
        p1 == pos + spec_kind(k).len(),
        k == MsgKind::HsHk || k == MsgKind::HsOutData || k == MsgKind::HsCmd || k == MsgKind::ToHk || k == MsgKind::ToOutData || k == MsgKind::ToCmd,
    ensures
        r matches Some((v, end)) ==> pos <= end <= buf@.len() && end == pos + spec_msg(
            v.deep_view(),
        ).len() && bytes_at(buf@, pos as int, spec_msg(v.deep_view())),
        forall|m: MsgView|
            bytes_at(buf@, pos as int, #[trigger] spec_msg(m)) ==> (r matches Some((v, end))
                && v.deep_view() == m && end == pos + spec_msg(m).len()),
{
    proof {
        assert forall|m: MsgView|
            bytes_at(buf@, pos as int, #[trigger] spec_msg(m)) implies (m.kind() == k && bytes_at(
            buf@,
            p1 as int,
            spec_msg_payload(m),
        )) by {
            lemma_bytes_at_split(buf@, pos as int, spec_kind(m.kind()), spec_msg_payload(m));
            assert(kind_tag(m.kind()) < 128 && kind_tag(k) < 128);
            assert(spec_kind(m.kind())[0] == kind_tag(m.kind()) as u8);
            assert(spec_kind(k)[0] == kind_tag(k) as u8);
            assert(buf@.subrange(pos as int, pos + 1)[0] == buf@[pos as int]);
            assert(kind_tag(m.kind()) == kind_tag(k));
            assert(m.kind() == k);
        }
    }
    match k {
        MsgKind::HsHk => {
            match dec_hs_hk(buf, p1) {
                Option::None => Option::None,
                Option::Some((h, end)) => {
                    let v = Msg::HsHk(h);
                    proof {
                        lemma_bytes_at_join(
                            buf@,
                            pos as int,
                            spec_kind(MsgKind::HsHk),
                            spec_hs_hk(h.deep_view()),
                        );
                        assert forall|m: MsgView|
                            bytes_at(buf@, pos as int, #[trigger] spec_msg(m)) implies v.deep_view()
                            == m by {
                            match m {
                                MsgView::HsHk(hv) => {
                                    assert(h.deep_view() == hv);
                                },
                                _ => {
                                    assert(m.kind() != MsgKind::HsHk);
                                },
                            }
                        }
                    }
                    Option::Some((v, end))
                },
            }
        },
        MsgKind::HsOutData => {
            match dec_u32(buf, p1) {
                Option::None => Option::None,
                Option::Some((counter, end)) => {
                    let v = Msg::HsOutData(HsOutData { counter });
                    proof {
                        lemma_le_len(counter as nat, 4);
                        lemma_bytes_at_join(
                            buf@,
                            pos as int,
                            spec_kind(MsgKind::HsOutData),
                            spec_u32(counter),
                        );
                    }
                    Option::Some((v, end))
                },
            }
        },
        MsgKind::HsCmd => {
            match dec_hs_cmd(buf, p1) {
                Option::None => Option::None,
                Option::Some((c, end)) => {
                    proof {
                        lemma_bytes_at_join(
                            buf@,
                            pos as int,
                            spec_kind(MsgKind::HsCmd),
                            spec_hs_cmd(c),
                        );
                    }
                    Option::Some((Msg::HsCmd(c), end))
                },
            }
        },
        MsgKind::ToHk => {
            match dec_perf_u32(buf, p1) {
                Option::None => Option::None,
                Option::Some(((perf, counter), end)) => {
                    let v = Msg::ToHk(ToHk { perf, counter });
                    proof {
                        lemma_bytes_at_join(
                            buf@,
                            pos as int,
                            spec_kind(MsgKind::ToHk),
                            spec_perf(perf) + spec_u32(counter),
                        );
                        assert forall|m: MsgView|
                            bytes_at(buf@, pos as int, #[trigger] spec_msg(m)) implies v.deep_view()
                            == m by {
                            match m {
                                MsgView::ToHk(h) => {
                                    assert(spec_msg_payload(m) == spec_perf(h.perf) + spec_u32(
                                        h.counter,
                                    ));
                                },
                                _ => {
                                    assert(m.kind() != MsgKind::ToHk);
                                },
                            }
                        }
                    }
                    Option::Some((v, end))
                },
            }
        },
        MsgKind::ToOutData => {
            match dec_u32(buf, p1) {
                Option::None => Option::None,
                Option::Some((counter, end)) => {
                    let v = Msg::ToOutData(ToOutData { counter });
                    proof {
                        lemma_le_len(counter as nat, 4);
                        lemma_bytes_at_join(
                            buf@,
                            pos as int,
                            spec_kind(MsgKind::ToOutData),
                            spec_u32(counter),
                        );
                    }
                    Option::Some((v, end))
                },
            }
        },
        MsgKind::ToCmd => {
            match dec_to_cmd(buf, p1) {
                Option::None => Option::None,
                Option::Some((c, end)) => {
                    let v = Msg::ToCmd(c);
                    proof {
                        lemma_bytes_at_join(
                            buf@,
                            pos as int,
                            spec_kind(MsgKind::ToCmd),
                            spec_to_cmd(c.deep_view()),
                        );
                        assert forall|m: MsgView|
                            bytes_at(buf@, pos as int, #[trigger] spec_msg(m)) implies v.deep_view()
                            == m by {
                            match m {
                                MsgView::ToCmd(cv) => {
                                    assert(c.deep_view() == cv);
                                },
                                _ => {
                                    assert(m.kind() != MsgKind::ToCmd);
                                },
                            }
                        }
                    }
                    Option::Some((v, end))
                },
            }
        },
        _ => {
            proof {
                assert(false);
            }
            Option::None
        },
    }
}

#[verifier::rlimit(100)]
#[verifier::spinoff_prover]
fn dec_msg(buf: &Vec<u8>, pos: usize) -> (r: Option<(Msg, usize)>)
    requires
        pos <= buf@.len(),
    ensures
        r matches Some((v, end)) ==> pos <= end <= buf@.len() && end == pos + spec_msg(
            v.deep_view(),
        ).len() && bytes_at(buf@, pos as int, spec_msg(v.deep_view())),
        forall|m: MsgView|
            bytes_at(buf@, pos as int, #[trigger] spec_msg(m)) ==> (r matches Some((v, end))
                && v.deep_view() == m && end == pos + spec_msg(m).len()),
{
    let kr = dec_kind(buf, pos);
    proof {
        assert forall|m: MsgView|
            bytes_at(buf@, pos as int, #[trigger] spec_msg(m)) implies (kr matches Some((k, p1))
                && k == m.kind() && p1 == pos + spec_kind(m.kind()).len() && bytes_at(
                buf@,
                p1 as int,
                spec_msg_payload(m),
            )) by {
            lemma_bytes_at_split(buf@, pos as int, spec_kind(m.kind()), spec_msg_payload(m));
        }
    }
    let (k, p1) = match kr {
        Option::None => { return Option::None },
        Option::Some(x) => x,
    };
    match k {
        MsgKind::Empty => {
            proof {
                assert(spec_kind(MsgKind::Empty) + Seq::<u8>::empty() =~= spec_kind(
                    MsgKind::Empty,
                ));
            }
            Option::Some((Msg::Empty, p1))
        },
        MsgKind::SubRequest => {
            proof {
                assert(spec_kind(MsgKind::SubRequest) + Seq::<u8>::empty() =~= spec_kind(
                    MsgKind::SubRequest,
                ));
            }
            Option::Some((Msg::SubRequest, p1))
        },
        MsgKind::SubList => {
            match dec_targets(buf, p1) {
                Option::None => Option::None,
                Option::Some((subs, end)) => {
                    let v = Msg::SubList(SubList { subs });
                    proof {
                        let ghost sl = (SubList { subs }).deep_view();
                        assert(subs.deep_view() =~= subs@);
                        lemma_bytes_at_join(
                            buf@,
                            pos as int,
                            spec_kind(MsgKind::SubList),
                            spec_targets(subs@),
                        );
                        assert forall|m: MsgView|
                            bytes_at(buf@, pos as int, #[trigger] spec_msg(m)) implies v.deep_view()
                            == m by {
                            match m {
                                MsgView::SubList(sv) => {
                                    assert(sv.subs == subs@);
                                    assert(v.deep_view() =~= m);
                                },
                                _ => {
                                    assert(m.kind() != MsgKind::SubList);
                                },
                            }
                        }
                    }
                    Option::Some((v, end))
                },
            }
        },
        MsgKind::SetTimeCmd => {
            match dec_u64(buf, p1) {
                Option::None => Option::None,
                Option::Some((t, end)) => {
                    proof {
                        lemma_bytes_at_join(
                            buf@,
                            pos as int,
                            spec_kind(MsgKind::SetTimeCmd),
                            spec_u64(t),
                        );
                        lemma_le_len(t as nat, 8);
                    }
                    Option::Some((Msg::SetTimeCmd(t), end))
                },
            }
        },
        MsgKind::ReinitApp => {
            match dec_string(buf, p1) {
                Option::None => Option::None,
                Option::Some((app_name, end)) => {
                    let v = Msg::ReinitApp(ReinitAppCmd { app_name });
                    proof {
                        lemma_bytes_at_join(
                            buf@,
                            pos as int,
                            spec_kind(MsgKind::ReinitApp),
                            spec_msg_payload(v.deep_view()),
                        );
                        assert forall|m: MsgView|
                            bytes_at(buf@, pos as int, #[trigger] spec_msg(m)) implies v.deep_view()
                            == m by {
                            match m {
                                MsgView::ReinitApp(rv) => {
                                    assert(v.deep_view() =~= m);
                                },
                                _ => {
                                    assert(m.kind() != MsgKind::ReinitApp);
                                },
                            }
                        }
                    }
                    Option::Some((v, end))
                },
            }
        },
        MsgKind::ExampleHk
        | MsgKind::ExampleOutData
        | MsgKind::ExampleCmd
        | MsgKind::DsHk
        | MsgKind::DsOutData
        | MsgKind::DsCmd => dec_msg_app_example_ds(buf, pos, k, p1),
        MsgKind::HsHk
        | MsgKind::HsOutData
        | MsgKind::HsCmd
        | MsgKind::ToHk
        | MsgKind::ToOutData
        | MsgKind::ToCmd => dec_msg_app_hs_to(buf, pos, k, p1),
    }
}

/// Decode one packet starting at `pos`; succeeds exactly where the buffer
/// carries a packet encoding, and consumes exactly that encoding.
pub fn decode_packet_from(buf: &Vec<u8>, pos: usize) -> (r: Option<(MsgPacket, usize)>)
    requires
        pos <= buf@.len(),
    ensures
        r matches Some((v, end)) ==> pos <= end <= buf@.len() && end == pos + spec_packet(
            v.deep_view(),
        ).len() && bytes_at(buf@, pos as int, spec_packet(v.deep_view())),
        forall|p: MsgPacketView|
            bytes_at(buf@, pos as int, #[trigger] spec_packet(p)) ==> (r matches Some((v, end))
                && v.deep_view() == p && end == pos + spec_packet(p).len()),
{
    proof {
        assert forall|p: MsgPacketView|
            bytes_at(buf@, pos as int, #[trigger] spec_packet(p)) implies bytes_at(
            buf@,
            pos as int,
            spec_instance(p.instance),
        ) && bytes_at(buf@, pos + spec_instance(p.instance).len(), spec_msg(p.msg)) && bytes_at(
            buf@,
            pos + spec_instance(p.instance).len() + spec_msg(p.msg).len(),
            spec_u64(p.timestamp),
        ) by {
            lemma_le_len(p.timestamp as nat, 8);
            lemma_bytes_at_split(
                buf@,
                pos as int,
                spec_instance(p.instance) + spec_msg(p.msg),
                spec_u64(p.timestamp),
            );
            lemma_bytes_at_split(buf@, pos as int, spec_instance(p.instance), spec_msg(p.msg));
        }
    }
    let (instance, p1) = match dec_instance(buf, pos) {
        Option::None => { return Option::None },
        Option::Some(x) => x,
    };
    let (msg, p2) = match dec_msg(buf, p1) {
        Option::None => { return Option::None },
        Option::Some(x) => x,
    };
    let (timestamp, end) = match dec_u64(buf, p2) {
        Option::None => { return Option::None },
        Option::Some(x) => x,
    };
    let v = MsgPacket { instance, msg, timestamp };
    proof {
        lemma_le_len(timestamp as nat, 8);
        lemma_bytes_at_join(
            buf@,
            pos as int,
            spec_instance(instance),
            spec_msg(v.msg.deep_view()),
        );
        lemma_bytes_at_join(
            buf@,
            pos as int,
            spec_instance(instance) + spec_msg(v.msg.deep_view()),
            spec_u64(timestamp),
        );
        assert forall|p: MsgPacketView|
            bytes_at(buf@, pos as int, #[trigger] spec_packet(p)) implies v.deep_view() == p by {
            assert(p.instance == instance);
            assert(p.msg == v.msg.deep_view());
            assert(v.deep_view() =~= p);
        }
    }
    Option::Some((v, end))
}

/// Decode a batch of packets starting at `pos`; succeeds exactly where the
/// buffer carries a batch encoding, and consumes exactly that encoding.
pub fn decode_batch_from(buf: &Vec<u8>, pos: usize) -> (r: Option<(Vec<MsgPacket>, usize)>)
    requires
        pos <= buf@.len(),
    ensures
        r matches Some((v, end)) ==> pos <= end <= buf@.len() && end == pos + spec_batch(
            v.deep_view(),
        ).len() && bytes_at(buf@, pos as int, spec_batch(v.deep_view())),
        forall|s: Seq<MsgPacketView>|
            bytes_at(buf@, pos as int, #[trigger] spec_batch(s)) ==> (r matches Some((v, end))
                && v.deep_view() == s && end == pos + spec_batch(s).len()),
{
    proof {
        assert forall|s: Seq<MsgPacketView>|
            bytes_at(buf@, pos as int, #[trigger] spec_batch(s)) implies s.len() <= u64::MAX
            && bytes_at(buf@, pos as int, spec_varint(s.len())) && bytes_at(
            buf@,
            pos + spec_varint(s.len()).len(),
            spec_packet_seq(s),
        ) by {
            assert(buf@.len() == buf.len());
            lemma_packet_seq_len(s);
            lemma_bytes_at_split(buf@, pos as int, spec_varint(s.len()), spec_packet_seq(s));
        }
    }
    let (len64, p1) = match dec_varint(buf, pos) {
        Option::None => { return Option::None },
        Option::Some(x) => x,
    };
    let mut v: Vec<MsgPacket> = Vec::new();
    let mut cur: usize = p1;
    let mut j: u64 = 0;
    proof {
        assert(buf@.subrange(p1 as int, p1 as int) =~= Seq::<u8>::empty());
        assert(v.deep_view() =~= Seq::<MsgPacketView>::empty());
        assert forall|s: Seq<MsgPacketView>|
            (s.len() == len64 as nat && bytes_at(
                buf@,
                p1 as int,
                #[trigger] spec_packet_seq(s),
            )) implies v.deep_view() == s.take(0) && bytes_at(
            buf@,
            p1 as int,
            spec_packet_seq(s.skip(0)),
        ) by {
            assert(s.take(0) =~= Seq::<MsgPacketView>::empty());
            assert(s.skip(0) =~= s);
        }
        assert forall|s: Seq<MsgPacketView>|
            bytes_at(buf@, pos as int, #[trigger] spec_batch(s)) implies (s.len() == len64 as nat
            && bytes_at(buf@, p1 as int, spec_packet_seq(s))) by {
            assert(s.len() <= u64::MAX);
            let n64 = s.len() as u64;
            assert(n64 as nat == s.len());
            assert(spec_varint(n64 as nat) == spec_varint(s.len()));
            assert(bytes_at(buf@, pos as int, spec_varint(n64 as nat)));
        }
    }
    while j < len64
        invariant
            j <= len64,
            v.deep_view().len() == j as nat,
            p1 <= cur <= buf@.len(),
            pos <= buf@.len(),
            bytes_at(buf@, p1 as int, spec_packet_seq(v.deep_view())),
            cur == p1 + spec_packet_seq(v.deep_view()).len(),
            forall|s: Seq<MsgPacketView>|
                (s.len() == len64 as nat && bytes_at(
                    buf@,
                    p1 as int,
                    #[trigger] spec_packet_seq(s),
                )) ==> (j as nat <= s.len() && v.deep_view() == s.take(j as int) && bytes_at(
                    buf@,
                    cur as int,
                    spec_packet_seq(s.skip(j as int)),
                )),
            forall|s: Seq<MsgPacketView>|
                bytes_at(buf@, pos as int, #[trigger] spec_batch(s)) ==> (s.len() == len64 as nat
                    && bytes_at(buf@, p1 as int, spec_packet_seq(s))),
        decreases len64 - j,
    {
        match decode_packet_from(buf, cur) {
            Option::None => {
                proof {
                    assert forall|s: Seq<MsgPacketView>|
                        !(s.len() == len64 as nat && bytes_at(
                            buf@,
                            p1 as int,
                            #[trigger] spec_packet_seq(s),
                        )) by {
                        if s.len() == len64 as nat && bytes_at(buf@, p1 as int, spec_packet_seq(s)) {
                            let tail = s.skip(j as int);
                            assert(tail.len() > 0);
                            assert(spec_packet_seq(tail) == spec_packet(tail[0]) + spec_packet_seq(
                                tail.drop_first(),
                            ));
                            lemma_bytes_at_split(
                                buf@,
                                cur as int,
                                spec_packet(tail[0]),
                                spec_packet_seq(tail.drop_first()),
                            );
                        }
                    }
                    assert forall|s: Seq<MsgPacketView>|
                        !bytes_at(buf@, pos as int, #[trigger] spec_batch(s)) by {
                        if bytes_at(buf@, pos as int, spec_batch(s)) {
                            assert(s.len() == len64 as nat);
                            assert(bytes_at(buf@, p1 as int, spec_packet_seq(s)));
                        }
                    }
                }
                return Option::None;
            },
            Option::Some((x, nx)) => {
                let ghost predv = v.deep_view();
                proof {
                    lemma_packet_seq_snoc(v.deep_view(), x.deep_view());
                    lemma_bytes_at_join(
                        buf@,
                        p1 as int,
                        spec_packet_seq(v.deep_view()),
                        spec_packet(x.deep_view()),
                    );
                    assert forall|s: Seq<MsgPacketView>|
                        (s.len() == len64 as nat && bytes_at(
                            buf@,
                            p1 as int,
                            #[trigger] spec_packet_seq(s),
                        )) implies ((j + 1) as nat <= s.len() && v.deep_view().push(x.deep_view())
                        == s.take(j + 1) && bytes_at(
                        buf@,
                        nx as int,
                        spec_packet_seq(s.skip(j + 1)),
                    )) by {
                        let tail = s.skip(j as int);
                        assert(tail.len() > 0);
                        assert(spec_packet_seq(tail) == spec_packet(tail[0]) + spec_packet_seq(
                            tail.drop_first(),
                        ));
                        lemma_bytes_at_split(
                            buf@,
                            cur as int,
                            spec_packet(tail[0]),
                            spec_packet_seq(tail.drop_first()),
                        );
                        assert(tail[0] == s[j as int]);
                        assert(x.deep_view() == s[j as int]);
                        assert(v.deep_view().push(x.deep_view()) =~= s.take(j + 1));
                        assert(tail.drop_first() =~= s.skip(j + 1));
                    }
                }
                v.push(x);
                proof {
                    assert(v.deep_view() =~= predv.push(x.deep_view()));
                }
                cur = nx;
                j = j + 1;
            },
        }
    }
    proof {
        assert forall|s: Seq<MsgPacketView>|
            bytes_at(buf@, pos as int, #[trigger] spec_batch(s)) implies (v.deep_view() == s && cur
            == pos + spec_batch(s).len()) by {
            assert(s.len() == len64 as nat);
            assert(bytes_at(buf@, p1 as int, spec_packet_seq(s)));
            assert(v.deep_view() == s.take(j as int));
            assert(s.take(j as int) =~= s);
        }
        assert(v.deep_view().len() == len64 as nat);
        lemma_bytes_at_join(buf@, pos as int, spec_varint(len64 as nat), spec_packet_seq(
            v.deep_view(),
        ));
    }
    Option::Some((v, cur))
}

/// Decode a whole frame as one batch: the entire buffer must be consumed.
pub fn decode_batch(buf: &Vec<u8>) -> (r: Option<Vec<MsgPacket>>)
    ensures
        r matches Some(v) ==> buf@ == spec_batch(v.deep_view()),
        forall|s: Seq<MsgPacketView>|
            buf@ == #[trigger] spec_batch(s) ==> (r matches Some(v) && v.deep_view() == s),
{
    proof {
        assert forall|s: Seq<MsgPacketView>|
            buf@ == #[trigger] spec_batch(s) implies bytes_at(buf@, 0, spec_batch(s)) by {
            assert(buf@.subrange(0, buf@.len() as int) =~= buf@);
        }
    }
    match decode_batch_from(buf, 0) {
        Option::None => Option::None,
        Option::Some((v, end)) => {
            if end == buf.len() {
                proof {
                    assert(buf@.subrange(0, buf@.len() as int) =~= buf@);
                }
                Option::Some(v)
            } else {
                Option::None
            }
        },
    }
}

} // verus!
