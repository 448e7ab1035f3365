//! The telemetry-set filtering rule shared by the storage and downlink
//! apps: target matching with the `All` wildcard, and select-every-nth
//! decimation.
use crate::msg::{Instance, MsgKind, TargetMsg, TlmSetItem};
use vstd::prelude::*;

verus! {

/// Whether a packet with routing key `pkt` matches an item's target
/// pattern: either exactly, or on kind alone when the pattern's instance is
/// the `All` wildcard.
pub open spec fn target_matches(item_target: TargetMsg, pkt: TargetMsg) -> bool {
    ||| pkt == item_target
    ||| (pkt.msg == item_target.msg && item_target.instance == Instance::All)
}

/// Whether an item's counter selects the current match.
pub open spec fn decimation_selects(counter: u16, decimation: u16) -> bool {
    (counter as int) % (decimation as int + 1) == 0
}

/// Run one packet against one telemetry-set item: on a target match, the
/// packet is selected iff the counter sits on a decimation boundary, and
/// the counter advances (wrapping) whether or not it was selected. A packet
/// that does not match leaves the item untouched.
pub fn match_item(item: &mut TlmSetItem, pkt: TargetMsg) -> (selected: bool)
    ensures
        !target_matches(old(item).target, pkt) ==> !selected && *final(item) == *old(item),
        target_matches(old(item).target, pkt) ==> {
            &&& selected == decimation_selects(old(item).counter, old(item).decimation)
            &&& *final(item) == (TlmSetItem {
                counter: ((old(item).counter + 1) % 0x10000) as u16,
                ..*old(item)
            })
        },
{
    let matches_target = pkt == item.target || (pkt.msg == item.target.msg && item.target.instance
        == Instance::All);
    if !matches_target {
        return false;
    }
    let selected = (item.counter as u32) % (item.decimation as u32 + 1) == 0;
    item.counter = item.counter.wrapping_add(1);
    selected
}

/// Wildcard matching: a packet from any instance matches an `All` pattern
/// exactly when the kinds agree; a non-wildcard pattern also demands the
/// producing instance.
pub proof fn lemma_wildcard_match(x: Instance, kind: MsgKind, item_target: TargetMsg)
    ensures
        item_target.instance == Instance::All ==> (target_matches(
            item_target,
            TargetMsg { instance: x, msg: kind },
        ) <==> kind == item_target.msg),
        item_target.instance != Instance::All ==> (target_matches(
            item_target,
            TargetMsg { instance: x, msg: kind },
        ) <==> (x == item_target.instance && kind == item_target.msg)),
{
}

/// Whether one packet with routing key `t` is selected by this item as it
/// stands: a target match on a decimation boundary.
pub open spec fn item_selects(it: TlmSetItem, t: TargetMsg) -> bool {
    target_matches(it.target, t) && decimation_selects(it.counter, it.decimation)
}

/// How many of these items select a packet with routing key `t`.
pub open spec fn items_select_count(items: Seq<TlmSetItem>, t: TargetMsg) -> nat
    decreases items.len(),
{
    if items.len() == 0 {
        0
    } else {
        (if item_selects(items[0], t) {
            1nat
        } else {
            0nat
        }) + items_select_count(items.drop_first(), t)
    }
}

pub proof fn lemma_items_select_count_snoc(items: Seq<TlmSetItem>, x: TlmSetItem, t: TargetMsg)
    ensures
        items_select_count(items.push(x), t) == items_select_count(items, t) + (if item_selects(
            x,
            t,
        ) {
            1nat
        } else {
            0nat
        }),
    decreases items.len(),
{
    if items.len() == 0 {
        assert(items.push(x)[0] == x);
        assert(items.push(x).drop_first() =~= Seq::<TlmSetItem>::empty());
        assert(items_select_count(items.push(x), t) == (if item_selects(x, t) {
            1nat
        } else {
            0nat
        }) + items_select_count(Seq::<TlmSetItem>::empty(), t));
    } else {
        assert(items.push(x)[0] == items[0]);
        assert(items.push(x).drop_first() =~= items.drop_first().push(x));
        assert(items_select_count(items.push(x), t) == (if item_selects(items[0], t) {
            1nat
        } else {
            0nat
        }) + items_select_count(items.drop_first().push(x), t));
        lemma_items_select_count_snoc(items.drop_first(), x, t);
    }
}

/// The number of multiples of `p` among `0 .. n`.
pub open spec fn count_multiples(n: nat, p: nat) -> nat
    decreases n,
{
    if n == 0 {
        0
    } else {
        count_multiples((n - 1) as nat, p) + if (n - 1) % (p as int) == 0 {
            1nat
        } else {
            0nat
        }
    }
}

/// Counting multiples in an initial segment: exactly every `p`-th index is
/// one, starting with index zero.
pub proof fn lemma_count_multiples(n: nat, p: nat)
    requires
        p > 0,
    ensures
        count_multiples(n, p) == (n + p - 1) / (p as int),
    decreases n,
{
    if n == 0 {
        assert((p - 1) as int / (p as int) == 0) by (nonlinear_arith)
            requires
                p > 0,
        ;
    } else {
        lemma_count_multiples((n - 1) as nat, p);
        let q = (n - 1) as int / (p as int);
        let r = (n - 1) as int % (p as int);
        vstd::arithmetic::div_mod::lemma_fundamental_div_mod((n - 1) as int, p as int);
        assert((n - 1) as int == q * p + r && 0 <= r < p) by (nonlinear_arith)
            requires
                p > 0,
                (n - 1) as int == (p as int) * q + r,
                0 <= r < p,
        ;
        if r == 0 {
            assert((n - 1 + p - 1) as int / (p as int) == q) by (nonlinear_arith)
                requires
                    p > 0,
                    (n - 1) as int == q * p,
                    q >= 0,
            ;
            assert((n + p - 1) as int / (p as int) == q + 1) by (nonlinear_arith)
                requires
                    p > 0,
                    (n - 1) as int == q * p,
                    q >= 0,
            ;
        } else {
            assert((n - 1 + p - 1) as int / (p as int) == q + 1) by (nonlinear_arith)
                requires
                    p > 0,
                    (n - 1) as int == q * p + r,
                    0 < r < p,
                    q >= 0,
            ;
            assert((n + p - 1) as int / (p as int) == q + 1) by (nonlinear_arith)
                requires
                    p > 0,
                    (n - 1) as int == q * p + r,
                    0 < r < p,
                    q >= 0,
            ;
        }
    }
}

/// The number of selected packets among the first `n` matches of an item
/// whose counter started at zero: matches are selected at counter values
/// `0, d+1, 2(d+1), ...`.
pub open spec fn selected_count(n: nat, decimation: u16) -> nat {
    count_multiples(n, (decimation + 1) as nat)
}

/// Decimation law: out of the first `n` matches of an item with decimation
/// `d` and a fresh counter, exactly `ceil(n / (d+1))` packets are selected,
/// and the first match is always selected. Within the first `0x10000`
/// matches the counter has not wrapped, so the `i`-th match sees counter
/// value `i`.
pub proof fn lemma_decimation_law(n: nat, d: u16)
    ensures
        selected_count(n, d) == (n + d) / (d as int + 1),
        n > 0 ==> decimation_selects(0, d),
        forall|i: nat|
            i < 0x10000 ==> (#[trigger] decimation_selects(i as u16, d) <==> i % ((d as nat) + 1)
                == 0),
{
    lemma_count_multiples(n, (d + 1) as nat);
}

} // verus!
