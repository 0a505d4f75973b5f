//! What barter trades promise across their operations: a trade hands out
//! exactly the scaled quantities, coins paid out of a stall are covered in
//! full by its storage and treasury, and stock never runs negative.
use vstd::prelude::*;

use crate::barter::{scaled_stacks, spec_extract_coins, first_currency_index, is_market_currency, BarterError, MARKET_MODE_CURRENCY_ID};
use crate::barter_accept::{
    converted_stacks, items_of_type, kinds_match, spec_cargo_settlement, spec_item_settlement, spec_item_removal,
    spec_pay_coins, spec_player_stacks, spec_reduce, spec_stall_steps, traveler_kinds_match, spec_treasury_added, spec_treasury_removed, BarterStepView, ItemKind, KnowledgeEntry, OrderKinds, ShopSite,
    StallInventory, StallState, TradeOrderState, TravelerTradeOrder,
};
use crate::items::{ItemStack, ItemType};
use crate::stall_events::{item_key, key_units};

verus! {

/// Total quantity over a sequence of stacks.
pub open spec fn total_units(stacks: Seq<ItemStack>) -> int
    decreases stacks.len(),
{
    if stacks.len() == 0 {
        0
    } else {
        total_units(stacks.drop_last()) + stacks.last().quantity
    }
}

pub proof fn lemma_total_units_append(a: Seq<ItemStack>, b: Seq<ItemStack>)
    ensures
        total_units(a + b) == total_units(a) + total_units(b),
    decreases b.len(),
{
    if b.len() == 0 {
        assert(a + b =~= a);
    } else {
        assert((a + b).drop_last() =~= a + b.drop_last());
        lemma_total_units_append(a, b.drop_last());
    }
}

proof fn lemma_total_units_singles(n: nat, s: ItemStack)
    requires
        s.quantity == 1,
    ensures
        total_units(Seq::new(n, |i: int| s)) == n,
    decreases n,
{
    if n > 0 {
        assert(Seq::new(n, |i: int| s).drop_last() =~= Seq::new((n - 1) as nat, |i: int| s));
        lemma_total_units_singles((n - 1) as nat, s);
    }
}

proof fn lemma_scaled_stacks_kinds(stacks: Seq<ItemStack>, kinds: Seq<Option<i32>>, amount: int)
    requires
        stacks.len() < kinds.len(),
    ensures
        scaled_stacks(stacks, kinds, amount) == scaled_stacks(stacks, kinds.drop_last(), amount),
    decreases stacks.len(),
{
    if stacks.len() > 0 {
        lemma_scaled_stacks_kinds(stacks.drop_last(), kinds, amount);
    }
}

proof fn lemma_converted_stacks_kinds(items: Seq<ItemStack>, kinds: Seq<ItemKind>, amount: int)
    requires
        items.len() < kinds.len(),
    ensures
        converted_stacks(items, kinds, amount) == converted_stacks(items, kinds.drop_last(), amount),
    decreases items.len(),
{
    if items.len() > 0 {
        lemma_converted_stacks_kinds(items.drop_last(), kinds, amount);
    }
}

/// Scaling the stacks of a trade order by the number of trades scales the
/// total quantity by the same number, whether stacks are handed out whole
/// or one item at a time.
pub proof fn law_scaling_multiplies_units(stacks: Seq<ItemStack>, kinds: Seq<Option<i32>>, amount: int)
    requires
        kinds.len() == stacks.len(),
        amount >= 0,
        forall|i: int| 0 <= i < stacks.len() ==> (#[trigger] stacks[i]).quantity >= 0,
        forall|i: int| 0 <= i < stacks.len() ==> (#[trigger] stacks[i]).quantity * amount <= i32::MAX,
    ensures
        total_units(scaled_stacks(stacks, kinds, amount)) == amount * total_units(stacks),
    decreases stacks.len(),
{
    if stacks.len() > 0 {
        let s = stacks.last();
        let rest = stacks.drop_last();
        law_scaling_multiplies_units(rest, kinds.drop_last(), amount);
        lemma_scaled_stacks_kinds(rest, kinds, amount);
        assert(s == stacks[stacks.len() - 1]);
        assert(s.quantity * amount >= 0) by (nonlinear_arith)
            requires
                s.quantity >= 0,
                amount >= 0,
        ;
        let piece = crate::barter::scaled_stack(s, crate::barter::is_unit_stack(s, kinds[stacks.len() - 1]), amount);
        lemma_total_units_append(scaled_stacks(rest, kinds, amount), piece);
        let single = ItemStack { quantity: 1, ..s };
        if crate::barter::is_unit_stack(s, kinds[stacks.len() - 1]) {
            lemma_total_units_singles((s.quantity * amount) as nat, single);
            assert(piece =~= Seq::new((s.quantity * amount) as nat, |i: int| single));
        } else {
            assert(piece.drop_last() =~= Seq::<ItemStack>::empty());
            assert(total_units(piece.drop_last()) == 0);
            assert(total_units(piece) == s.quantity * amount);
        }
        assert(amount * total_units(rest) + s.quantity * amount == amount * (total_units(rest) + s.quantity))
            by (nonlinear_arith);
    }
}

proof fn lemma_key_units_append(a: Seq<ItemStack>, b: Seq<ItemStack>, k: (i32, ItemType))
    ensures
        key_units(a + b, k) == key_units(a, k) + key_units(b, k),
    decreases b.len(),
{
    if b.len() == 0 {
        assert(a + b =~= a);
    } else {
        assert((a + b).drop_last() =~= a + b.drop_last());
        lemma_key_units_append(a, b.drop_last(), k);
    }
}

proof fn lemma_key_units_singles(n: nat, s: ItemStack, k: (i32, ItemType))
    requires
        s.quantity == 1,
    ensures
        key_units(Seq::new(n, |i: int| s), k) == if item_key(s) == k {
            n as int
        } else {
            0
        },
    decreases n,
{
    if n > 0 {
        assert(Seq::new(n, |i: int| s).drop_last() =~= Seq::new((n - 1) as nat, |i: int| s));
        lemma_key_units_singles((n - 1) as nat, s, k);
    }
}

/// Scaling the stacks of a trade order by the number of trades scales the
/// quantity of every item (by id and type) by the same number, whether
/// stacks are handed out whole or one item at a time.
pub proof fn law_scaling_multiplies_item_units(
    stacks: Seq<ItemStack>,
    kinds: Seq<Option<i32>>,
    amount: int,
    k: (i32, ItemType),
)
    requires
        kinds.len() == stacks.len(),
        amount >= 0,
        forall|i: int| 0 <= i < stacks.len() ==> (#[trigger] stacks[i]).quantity >= 0,
        forall|i: int| 0 <= i < stacks.len() ==> (#[trigger] stacks[i]).quantity * amount <= i32::MAX,
    ensures
        key_units(scaled_stacks(stacks, kinds, amount), k) == amount * key_units(stacks, k),
    decreases stacks.len(),
{
    if stacks.len() > 0 {
        let s = stacks.last();
        let rest = stacks.drop_last();
        law_scaling_multiplies_item_units(rest, kinds.drop_last(), amount, k);
        lemma_scaled_stacks_kinds(rest, kinds, amount);
        assert(s == stacks[stacks.len() - 1]);
        assert(s.quantity * amount >= 0) by (nonlinear_arith)
            requires
                s.quantity >= 0,
                amount >= 0,
        ;
        let piece = crate::barter::scaled_stack(s, crate::barter::is_unit_stack(s, kinds[stacks.len() - 1]), amount);
        lemma_key_units_append(scaled_stacks(rest, kinds, amount), piece, k);
        let single = ItemStack { quantity: 1, ..s };
        if crate::barter::is_unit_stack(s, kinds[stacks.len() - 1]) {
            lemma_key_units_singles((s.quantity * amount) as nat, single, k);
            assert(piece =~= Seq::new((s.quantity * amount) as nat, |i: int| single));
        } else {
            assert(piece.drop_last() =~= Seq::<ItemStack>::empty());
            assert(key_units(piece.drop_last(), k) == 0);
        }
        let own = if item_key(s) == k {
            s.quantity as int
        } else {
            0
        };
        assert(key_units(stacks, k) == key_units(rest, k) + own);
        assert(amount * key_units(rest, k) + own * amount == amount * (key_units(rest, k) + own)) by (nonlinear_arith);
    }
}

/// A trade hands the player, and takes from the player, exactly the
/// quantities of the trade order times the number of trades.
pub proof fn law_conversion_multiplies_units(items: Seq<ItemStack>, kinds: Seq<ItemKind>, amount: int)
    requires
        kinds.len() == items.len(),
        amount >= 0,
        forall|i: int| 0 <= i < items.len() ==> (#[trigger] items[i]).quantity >= 0,
        forall|i: int| 0 <= i < items.len() ==> (#[trigger] items[i]).quantity * amount <= i32::MAX,
    ensures
        total_units(converted_stacks(items, kinds, amount)) == amount * total_units(items),
    decreases items.len(),
{
    if items.len() > 0 {
        let s = items.last();
        let rest = items.drop_last();
        law_conversion_multiplies_units(rest, kinds.drop_last(), amount);
        lemma_converted_stacks_kinds(rest, kinds, amount);
        assert(s == items[items.len() - 1]);
        assert(s.quantity * amount >= 0) by (nonlinear_arith)
            requires
                s.quantity >= 0,
                amount >= 0,
        ;
        let kind = kinds[items.len() - 1];
        let piece = crate::barter_accept::converted_stack(s, kind, amount);
        lemma_total_units_append(converted_stacks(rest, kinds, amount), piece);
        let fresh = ItemStack { item_id: s.item_id, item_type: s.item_type, quantity: 1, durability: kind.durability };
        if kind.durability is Some {
            lemma_total_units_singles((s.quantity * amount) as nat, fresh);
            assert(piece =~= Seq::new((s.quantity * amount) as nat, |i: int| fresh));
        } else {
            assert(piece.drop_last() =~= Seq::<ItemStack>::empty());
            assert(total_units(piece.drop_last()) == 0);
            assert(total_units(piece) == s.quantity * amount);
        }
        assert(amount * total_units(rest) + s.quantity * amount == amount * (total_units(rest) + s.quantity))
            by (nonlinear_arith);
    }
}

proof fn lemma_first_currency_in_range(stacks: Seq<ItemStack>, i: int)
    ensures
        first_currency_index(stacks, i) matches Some(n) ==> i <= n < stacks.len(),
    decreases stacks.len() - i,
{
    if 0 <= i < stacks.len() {
        lemma_first_currency_in_range(stacks, i + 1);
    }
}

proof fn lemma_total_units_remove(stacks: Seq<ItemStack>, n: int)
    requires
        0 <= n < stacks.len(),
    ensures
        total_units(stacks) == total_units(stacks.remove(n)) + stacks[n].quantity,
{
    assert(stacks =~= stacks.take(n) + seq![stacks[n]] + stacks.skip(n + 1));
    assert(stacks.remove(n) =~= stacks.take(n) + stacks.skip(n + 1));
    lemma_total_units_append(stacks.take(n) + seq![stacks[n]], stacks.skip(n + 1));
    lemma_total_units_append(stacks.take(n), seq![stacks[n]]);
    lemma_total_units_append(stacks.take(n), stacks.skip(n + 1));
    assert(seq![stacks[n]].drop_last() =~= Seq::<ItemStack>::empty());
    assert(total_units(seq![stacks[n]].drop_last()) == 0);
    assert(total_units(seq![stacks[n]]) == stacks[n].quantity);
}

/// Taking the coins out of a list of stacks loses nothing: the coins taken
/// and the stacks left add up to what there was.
pub proof fn law_extract_coins_keeps_units(stacks: Seq<ItemStack>)
    ensures
        total_units(stacks) == spec_extract_coins(stacks).0 + total_units(spec_extract_coins(stacks).1),
{
    lemma_first_currency_in_range(stacks, 0);
    if let Some(n) = first_currency_index(stacks, 0) {
        lemma_total_units_remove(stacks, n);
    }
}

/// Coins paid out of a claimed shop are covered in full: what comes from
/// the shop's storage (never more than it holds) and what comes from the
/// claim's treasury (never more than it holds) add up to the coins owed.
pub proof fn law_coin_payment_covers(coins: i32, stall_coins: i32, treasury: u32)
    requires
        coins > 0,
    ensures
        spec_pay_coins(coins, stall_coins, treasury) matches Ok(p) ==> {
            &&& (match p.from_storage {
                Some(c) => c as int,
                None => 0,
            }) + p.from_treasury == coins
            &&& (p.from_storage matches Some(c) ==> 0 < c <= stall_coins)
            &&& (p.from_treasury > 0 ==> stall_coins <= 0 || p.from_storage == Some(stall_coins))
            &&& p.from_treasury <= treasury
        },
        spec_pay_coins(coins, stall_coins, treasury) is Err <==> (if stall_coins > 0 {
            coins - stall_coins
        } else {
            coins as int
        }) > treasury,
{
}

/// A trade order is never accepted more times than its stock allows: an
/// accepted limited order has at least `amount` in stock, and the stock
/// stored after the trade is the stock less `amount`, never negative; an
/// unlimited order keeps its stock.
pub proof fn law_stock_never_oversold(
    shop_entity_id: u64,
    amount: i32,
    in_combat: bool,
    shop: ShopSite,
    trade_order: Option<TradeOrderState>,
    order_kinds: OrderKinds,
    traveler: Option<TravelerTradeOrder>,
    knowledge: Seq<KnowledgeEntry>,
    npc_present: bool,
)
    ensures
        spec_reduce(shop_entity_id, amount, in_combat, shop, trade_order, order_kinds, traveler, knowledge, npc_present)
            matches Ok(plan) ==> {
            let stock = trade_order.unwrap().remaining_stock;
            &&& amount > 0
            &&& match plan.3 {
                Some(r) => stock != i32::MAX && amount <= stock && r == stock - amount && 0 <= r < stock,
                None => stock == i32::MAX,
            }
        },
{
}

proof fn lemma_items_of_type_units(items: Seq<ItemStack>, kinds: Seq<ItemKind>, t: ItemType, k: (i32, ItemType))
    ensures
        key_units(items_of_type(items, kinds, t).0, k) == if k.1 == t {
            key_units(items, k)
        } else {
            0
        },
        items_of_type(items, kinds, t).0.len() == items_of_type(items, kinds, t).1.len(),
        forall|j: int|
            0 <= j < items_of_type(items, kinds, t).0.len() ==> items.contains(
                #[trigger] items_of_type(items, kinds, t).0[j],
            ),
    decreases items.len(),
{
    if items.len() > 0 {
        let rest = items.drop_last();
        lemma_items_of_type_units(rest, kinds, t, k);
        let r = items_of_type(rest, kinds, t);
        let picked = items_of_type(items, kinds, t).0;
        if items.last().item_type == t {
            assert(picked.drop_last() =~= r.0);
            assert(picked.last() == items.last());
        }
        assert forall|j: int| 0 <= j < picked.len() implies items.contains(#[trigger] picked[j]) by {
            if j < r.0.len() {
                assert(picked[j] == r.0[j]);
                assert(rest.contains(r.0[j]));
                let m = choose|m: int| 0 <= m < rest.len() && rest[m] == r.0[j];
                assert(items[m] == rest[m]);
            } else {
                assert(items[items.len() - 1] == items.last());
            }
        }
    }
}

/// Whether a step moves cargo into or out of the shop's cargo inventory.
pub open spec fn moves_cargo(s: BarterStepView) -> bool {
    ||| s matches BarterStepView::RemoveFromStall(StallInventory::Cargo, _, _)
    ||| s matches BarterStepView::AddToStall(StallInventory::Cargo, _, _)
}

proof fn lemma_item_steps_move_no_cargo(
    order: TradeOrderState,
    kinds: OrderKinds,
    claimed: bool,
    amount: int,
    stall_coins: i32,
    treasury: u32,
)
    ensures
        forall|i: int|
            0 <= i < spec_item_settlement(order, kinds, claimed, amount, stall_coins, treasury).len() ==> !moves_cargo(
                #[trigger] spec_item_settlement(order, kinds, claimed, amount, stall_coins, treasury)[i],
            ),
{
    let removal = spec_item_removal(order, kinds, claimed, amount, stall_coins, treasury);
    assert forall|i: int| 0 <= i < removal.len() implies !moves_cargo(#[trigger] removal[i]) by {}
    let steps = spec_item_settlement(order, kinds, claimed, amount, stall_coins, treasury);
    assert forall|i: int| 0 <= i < steps.len() implies !moves_cargo(#[trigger] steps[i]) by {
        if i < removal.len() {
            assert(!moves_cargo(removal[i]));
        }
    }
}

/// For every accepted trade, the cargo that leaves the shop's cargo
/// inventory is the order's offered cargo scaled by the number of trades,
/// item by item, and the cargo that comes in is the order's required cargo
/// scaled the same way: the shop gives what the player gets and gets what
/// the player gives.
#[verifier::spinoff_prover]
#[verifier::rlimit(40)]
pub proof fn law_stall_cargo_scaled(
    order: TradeOrderState,
    kinds: OrderKinds,
    claimed: bool,
    stall: StallState,
    amount: int,
    i: int,
    k: (i32, ItemType),
)
    requires
        kinds_match(order, kinds),
        amount >= 0,
        forall|j: int|
            0 <= j < order.offer_items@.len() ==> 0 <= (#[trigger] order.offer_items@[j]).quantity && order.offer_items@[
                j
            ].quantity * amount <= i32::MAX,
        forall|j: int|
            0 <= j < order.required_items@.len() ==> 0 <= (#[trigger] order.required_items@[j]).quantity
                && order.required_items@[j].quantity * amount <= i32::MAX,
    ensures
        ({
            let steps = spec_stall_steps(order, kinds, claimed, stall, amount);
            0 <= i < steps.len() ==> {
                &&& steps[i] matches BarterStepView::RemoveFromStall(StallInventory::Cargo, r, _) ==> key_units(r, k)
                    == if k.1 == ItemType::Cargo {
                    amount * key_units(order.offer_items@, k)
                } else {
                    0
                }
                &&& steps[i] matches BarterStepView::AddToStall(StallInventory::Cargo, g, _) ==> key_units(g, k)
                    == if k.1 == ItemType::Cargo {
                    amount * key_units(order.required_items@, k)
                } else {
                    0
                }
            }
        }),
{
    reveal(spec_stall_steps);
    let off = items_of_type(order.offer_items@, kinds.offer@, ItemType::Cargo);
    let req = items_of_type(order.required_items@, kinds.required@, ItemType::Cargo);
    lemma_items_of_type_units(order.offer_items@, kinds.offer@, ItemType::Cargo, k);
    lemma_items_of_type_units(order.required_items@, kinds.required@, ItemType::Cargo, k);
    assert forall|j: int| 0 <= j < off.0.len() implies (#[trigger] off.0[j]).quantity >= 0 && off.0[j].quantity
        * amount <= i32::MAX by {
        assert(order.offer_items@.contains(off.0[j]));
    }
    assert forall|j: int| 0 <= j < req.0.len() implies (#[trigger] req.0[j]).quantity >= 0 && req.0[j].quantity
        * amount <= i32::MAX by {
        assert(order.required_items@.contains(req.0[j]));
    }
    law_scaling_multiplies_item_units(off.0, off.1, amount, k);
    law_scaling_multiplies_item_units(req.0, req.1, amount, k);
    if k.1 != ItemType::Cargo {
        assert(amount * 0 == 0);
    }
    let items = if stall.item_inventory {
        spec_item_settlement(order, kinds, claimed, amount, stall.coins, stall.treasury)
    } else {
        Seq::empty()
    };
    lemma_item_steps_move_no_cargo(order, kinds, claimed, amount, stall.coins, stall.treasury);
    assert forall|j: int| 0 <= j < items.len() implies !moves_cargo(#[trigger] items[j]) by {
        if stall.item_inventory {
            assert(!moves_cargo(spec_item_settlement(order, kinds, claimed, amount, stall.coins, stall.treasury)[j]));
        }
    }
    let cargo = if stall.cargo_inventory {
        spec_cargo_settlement(order, kinds, amount)
    } else {
        Seq::empty()
    };
    let steps = spec_stall_steps(order, kinds, claimed, stall, amount);
    if 0 <= i < steps.len() {
        if i < items.len() {
            assert(steps[i] == items[i]);
            assert(!moves_cargo(items[i]));
        } else {
            assert(steps[i] == cargo[i - items.len()] || steps[i] is EmitSale);
        }
    }
}

/// Coins a step pays out of the shop, from its storage and its claim's
/// treasury together.
pub open spec fn paid_by(s: BarterStepView) -> int {
    match s {
        BarterStepView::PayCoins(p) => (match p.from_storage {
            Some(c) => c as int,
            None => 0,
        }) + p.from_treasury,
        _ => 0,
    }
}

/// Coins a step takes from the claim's treasury.
pub open spec fn treasury_paid_by(s: BarterStepView) -> int {
    match s {
        BarterStepView::PayCoins(p) => p.from_treasury as int,
        _ => 0,
    }
}

/// Coins a step puts in the claim's treasury.
pub open spec fn deposited_by(s: BarterStepView) -> int {
    match s {
        BarterStepView::DepositToTreasury(d) => d as int,
        _ => 0,
    }
}

/// Sum of `f` over the steps.
pub open spec fn sum_steps(steps: Seq<BarterStepView>, f: spec_fn(BarterStepView) -> int) -> int
    decreases steps.len(),
{
    if steps.len() == 0 {
        0
    } else {
        sum_steps(steps.drop_last(), f) + f(steps.last())
    }
}

proof fn lemma_sum_steps_append(a: Seq<BarterStepView>, b: Seq<BarterStepView>, f: spec_fn(BarterStepView) -> int)
    ensures
        sum_steps(a + b, f) == sum_steps(a, f) + sum_steps(b, f),
    decreases b.len(),
{
    if b.len() == 0 {
        assert(a + b =~= a);
    } else {
        assert((a + b).drop_last() =~= a + b.drop_last());
        lemma_sum_steps_append(a, b.drop_last(), f);
    }
}

proof fn lemma_sum_steps_one(x: BarterStepView, f: spec_fn(BarterStepView) -> int)
    ensures
        sum_steps(seq![x], f) == f(x),
{
    assert(seq![x].drop_last() =~= Seq::<BarterStepView>::empty());
    assert(sum_steps(Seq::<BarterStepView>::empty(), f) == 0);
    assert(seq![x].last() == x);
}

proof fn lemma_sum_steps_zero(steps: Seq<BarterStepView>, f: spec_fn(BarterStepView) -> int)
    requires
        forall|i: int| 0 <= i < steps.len() ==> f(#[trigger] steps[i]) == 0,
    ensures
        sum_steps(steps, f) == 0,
    decreases steps.len(),
{
    if steps.len() > 0 {
        assert(f(steps[steps.len() - 1]) == 0);
        lemma_sum_steps_zero(steps.drop_last(), f);
    }
}

proof fn lemma_extract_key_units(stacks: Seq<ItemStack>, k: (i32, ItemType))
    ensures
        key_units(stacks, k) == key_units(spec_extract_coins(stacks).1, k) + if k == (
            MARKET_MODE_CURRENCY_ID,
            ItemType::Item,
        ) {
            spec_extract_coins(stacks).0
        } else {
            0
        },
        spec_extract_coins(stacks).0 != 0 ==> first_currency_index(stacks, 0) is Some,
        first_currency_index(stacks, 0) matches Some(n) ==> 0 <= n < stacks.len() && spec_extract_coins(stacks).0
            == stacks[n].quantity,
{
    lemma_first_currency_in_range(stacks, 0);
    if let Some(n) = first_currency_index(stacks, 0) {
        assert(crate::barter::is_market_currency(stacks[n])) by {
            lemma_first_currency_is_currency(stacks, 0);
        }
        let front = stacks.subrange(0, n);
        let back = stacks.subrange(n + 1, stacks.len() as int);
        assert(stacks =~= front + (seq![stacks[n]] + back));
        assert(stacks.remove(n) =~= front + back);
        lemma_key_units_append(front, seq![stacks[n]] + back, k);
        lemma_key_units_append(seq![stacks[n]], back, k);
        lemma_key_units_append(front, back, k);
        assert(seq![stacks[n]].drop_last() =~= Seq::<ItemStack>::empty());
        assert(key_units(Seq::<ItemStack>::empty(), k) == 0);
    }
}

proof fn lemma_first_currency_is_currency(stacks: Seq<ItemStack>, i: int)
    ensures
        first_currency_index(stacks, i) matches Some(n) ==> crate::barter::is_market_currency(stacks[n]),
    decreases stacks.len() - i,
{
    if 0 <= i < stacks.len() {
        lemma_first_currency_is_currency(stacks, i + 1);
    }
}

proof fn lemma_scaled_quantities(stacks: Seq<ItemStack>, kinds: Seq<Option<i32>>, amount: int)
    requires
        amount >= 0,
        forall|j: int| 0 <= j < stacks.len() ==> 0 <= (#[trigger] stacks[j]).quantity && stacks[j].quantity * amount
            <= i32::MAX,
    ensures
        forall|j: int|
            0 <= j < scaled_stacks(stacks, kinds, amount).len() ==> 0 <= (#[trigger] scaled_stacks(
                stacks,
                kinds,
                amount,
            )[j]).quantity,
    decreases stacks.len(),
{
    if stacks.len() > 0 {
        let s = stacks.last();
        assert(s == stacks[stacks.len() - 1]);
        lemma_scaled_quantities(stacks.drop_last(), kinds, amount);
        assert(s.quantity * amount >= 0) by (nonlinear_arith)
            requires
                s.quantity >= 0,
                amount >= 0,
        ;
        let a = scaled_stacks(stacks.drop_last(), kinds, amount);
        let piece = crate::barter::scaled_stack(s, crate::barter::is_unit_stack(s, kinds[stacks.len() - 1]), amount);
        assert forall|j: int| 0 <= j < (a + piece).len() implies 0 <= #[trigger] (a + piece)[j].quantity by {
            if j >= a.len() {
                assert((a + piece)[j] == piece[j - a.len()]);
            }
        }
    }
}

/// The offered or required stacks of one type, scaled, with what is known
/// of them per item.
proof fn lemma_scaled_of_type(
    items: Seq<ItemStack>,
    kinds: Seq<ItemKind>,
    t: ItemType,
    amount: int,
    k: (i32, ItemType),
)
    requires
        amount >= 0,
        forall|j: int| 0 <= j < items.len() ==> 0 <= (#[trigger] items[j]).quantity && items[j].quantity * amount
            <= i32::MAX,
    ensures
        ({
            let split = items_of_type(items, kinds, t);
            let scaled = scaled_stacks(split.0, split.1, amount);
            &&& key_units(scaled, k) == if k.1 == t {
                amount * key_units(items, k)
            } else {
                0
            }
            &&& forall|j: int| 0 <= j < scaled.len() ==> 0 <= (#[trigger] scaled[j]).quantity
        }),
{
    let split = items_of_type(items, kinds, t);
    lemma_items_of_type_units(items, kinds, t, k);
    assert forall|j: int| 0 <= j < split.0.len() implies (#[trigger] split.0[j]).quantity >= 0 && split.0[j].quantity
        * amount <= i32::MAX by {
        assert(items.contains(split.0[j]));
    }
    law_scaling_multiplies_item_units(split.0, split.1, amount, k);
    lemma_scaled_quantities(split.0, split.1, amount);
    if k.1 != t {
        assert(amount * 0 == 0);
    }
}

#[verifier::spinoff_prover]
#[verifier::rlimit(40)]
proof fn lemma_item_settlement_flows(
    order: TradeOrderState,
    kinds: OrderKinds,
    claimed: bool,
    amount: int,
    stall_coins: i32,
    treasury: u32,
    k: (i32, ItemType),
)
    requires
        amount >= 0,
        forall|j: int|
            0 <= j < order.offer_items@.len() ==> 0 <= (#[trigger] order.offer_items@[j]).quantity && order.offer_items@[
                j
            ].quantity * amount <= i32::MAX,
        forall|j: int|
            0 <= j < order.required_items@.len() ==> 0 <= (#[trigger] order.required_items@[j]).quantity
                && order.required_items@[j].quantity * amount <= i32::MAX,
        !crate::barter_accept::ends_in_failure(spec_item_settlement(order, kinds, claimed, amount, stall_coins, treasury)),
    ensures
        ({
            let items = spec_item_settlement(order, kinds, claimed, amount, stall_coins, treasury);
            let cur = (MARKET_MODE_CURRENCY_ID, ItemType::Item);
            &&& forall|i: int|
                0 <= i < items.len() ==> (#[trigger] items[i] matches BarterStepView::RemoveFromStall(
                    StallInventory::Items,
                    r,
                    _,
                ) ==> key_units(r, k) + (if k == cur {
                    sum_steps(items, |s: BarterStepView| paid_by(s))
                } else {
                    0
                }) == if k.1 == ItemType::Item {
                    amount * key_units(order.offer_items@, k)
                } else {
                    0
                })
            &&& forall|i: int|
                0 <= i < items.len() ==> (#[trigger] items[i] matches BarterStepView::AddToStall(
                    StallInventory::Items,
                    g,
                    _,
                ) ==> key_units(g, k) + (if k == cur {
                    sum_steps(items, |s: BarterStepView| deposited_by(s))
                } else {
                    0
                }) == if k.1 == ItemType::Item {
                    amount * key_units(order.required_items@, k)
                } else {
                    0
                })
            &&& forall|i: int| 0 <= i < items.len() ==> !(#[trigger] items[i] is EmitSale)
            &&& sum_steps(items, |s: BarterStepView| deposited_by(s)) == spec_treasury_added(order, kinds, claimed, amount)
            &&& sum_steps(items, |s: BarterStepView| treasury_paid_by(s)) == spec_treasury_removed(
                order,
                kinds,
                claimed,
                amount,
                stall_coins,
                treasury,
            )
        }),
{
    let paid = |s: BarterStepView| paid_by(s);
    let dep = |s: BarterStepView| deposited_by(s);
    let tre = |s: BarterStepView| treasury_paid_by(s);
    let items = spec_item_settlement(order, kinds, claimed, amount, stall_coins, treasury);
    let off = items_of_type(order.offer_items@, kinds.offer@, ItemType::Item);
    let req = items_of_type(order.required_items@, kinds.required@, ItemType::Item);
    let removed = scaled_stacks(off.0, off.1, amount);
    let gained = scaled_stacks(req.0, req.1, amount);
    lemma_scaled_of_type(order.offer_items@, kinds.offer@, ItemType::Item, amount, k);
    lemma_scaled_of_type(order.required_items@, kinds.required@, ItemType::Item, amount, k);
    let removal = spec_item_removal(order, kinds, claimed, amount, stall_coins, treasury);
    assert(!crate::barter_accept::ends_in_failure(removal));
    assert(!crate::barter_accept::scale_refused(off.0, off.1, amount));
    assert(!crate::barter_accept::scale_refused(req.0, req.1, amount));
    let rc = seq![BarterStepView::RecordChange(StallInventory::Items)];
    lemma_sum_steps_one(BarterStepView::RecordChange(StallInventory::Items), paid);
    lemma_sum_steps_one(BarterStepView::RecordChange(StallInventory::Items), dep);
    lemma_sum_steps_one(BarterStepView::RecordChange(StallInventory::Items), tre);
    if !claimed {
        let a = seq![BarterStepView::RemoveFromStall(StallInventory::Items, removed, crate::barter::BarterError::StallLacksGoodsOrFunds)];
        let b = seq![BarterStepView::AddToStall(StallInventory::Items, gained, crate::barter::BarterError::StallFull)];
        assert(items == a + b + rc);
        assert forall|i: int| 0 <= i < items.len() implies paid(#[trigger] items[i]) == 0 && dep(items[i]) == 0 && tre(
            items[i],
        ) == 0 by {}
        lemma_sum_steps_zero(items, paid);
        lemma_sum_steps_zero(items, dep);
        lemma_sum_steps_zero(items, tre);
    } else {
        let (coins, rest) = spec_extract_coins(removed);
        let (gc, grest) = spec_extract_coins(gained);
        lemma_extract_key_units(removed, k);
        lemma_extract_key_units(gained, k);
        assert(coins >= 0) by {
            if coins != 0 {
                let n = first_currency_index(removed, 0).unwrap();
                assert(0 <= removed[n].quantity);
            }
        }
        assert(gc >= 0) by {
            if gc != 0 {
                let n = first_currency_index(gained, 0).unwrap();
                assert(0 <= gained[n].quantity);
            }
        }
        assert(gc <= i32::MAX) by {
            if gc != 0 {
                let n = first_currency_index(gained, 0).unwrap();
            }
        }
        assert(coins <= i32::MAX) by {
            if coins != 0 {
                let n = first_currency_index(removed, 0).unwrap();
            }
        }
        let r0 = seq![BarterStepView::RemoveFromStall(StallInventory::Items, rest, crate::barter::BarterError::StallLacksGoods)];
        lemma_sum_steps_one(r0[0], paid);
        lemma_sum_steps_one(r0[0], dep);
        lemma_sum_steps_one(r0[0], tre);
        let pay_part: Seq<BarterStepView> = if coins > 0 {
            match spec_pay_coins(coins as i32, stall_coins, treasury) {
                Ok(p) => seq![BarterStepView::PayCoins(p)],
                Err(e) => seq![BarterStepView::Fail(e)],
            }
        } else {
            Seq::empty()
        };
        assert(removal == r0 + pay_part);
        if coins > 0 {
            let p = spec_pay_coins(coins as i32, stall_coins, treasury);
            assert(p is Ok);
            lemma_sum_steps_one(pay_part[0], paid);
            lemma_sum_steps_one(pay_part[0], dep);
            lemma_sum_steps_one(pay_part[0], tre);
            assert(pay_part =~= seq![pay_part[0]]);
        } else {
            assert(sum_steps(pay_part, paid) == 0);
            assert(sum_steps(pay_part, dep) == 0);
            assert(sum_steps(pay_part, tre) == 0);
        }
        let a0 = seq![BarterStepView::AddToStall(StallInventory::Items, grest, crate::barter::BarterError::StallCannotHoldMore)];
        lemma_sum_steps_one(a0[0], paid);
        lemma_sum_steps_one(a0[0], dep);
        lemma_sum_steps_one(a0[0], tre);
        let dep_part: Seq<BarterStepView> = if (gc as u32) > 0 {
            seq![BarterStepView::DepositToTreasury(gc as u32)]
        } else {
            Seq::empty()
        };
        if (gc as u32) > 0 {
            lemma_sum_steps_one(dep_part[0], paid);
            lemma_sum_steps_one(dep_part[0], dep);
            lemma_sum_steps_one(dep_part[0], tre);
            assert(dep_part =~= seq![dep_part[0]]);
        } else {
            assert(sum_steps(dep_part, paid) == 0);
            assert(sum_steps(dep_part, dep) == 0);
            assert(sum_steps(dep_part, tre) == 0);
        }
        assert(items == r0 + pay_part + (a0 + dep_part) + rc);
        lemma_sum_steps_append(r0, pay_part, paid);
        lemma_sum_steps_append(r0, pay_part, dep);
        lemma_sum_steps_append(r0, pay_part, tre);
        lemma_sum_steps_append(a0, dep_part, paid);
        lemma_sum_steps_append(a0, dep_part, dep);
        lemma_sum_steps_append(a0, dep_part, tre);
        lemma_sum_steps_append(r0 + pay_part, a0 + dep_part, paid);
        lemma_sum_steps_append(r0 + pay_part, a0 + dep_part, dep);
        lemma_sum_steps_append(r0 + pay_part, a0 + dep_part, tre);
        lemma_sum_steps_append(r0 + pay_part + (a0 + dep_part), rc, paid);
        lemma_sum_steps_append(r0 + pay_part + (a0 + dep_part), rc, dep);
        lemma_sum_steps_append(r0 + pay_part + (a0 + dep_part), rc, tre);
    }
}

proof fn lemma_cargo_steps_plain(order: TradeOrderState, kinds: OrderKinds, amount: int)
    ensures
        ({
            let cargo = spec_cargo_settlement(order, kinds, amount);
            forall|i: int|
                0 <= i < cargo.len() ==> {
                    &&& paid_by(#[trigger] cargo[i]) == 0
                    &&& deposited_by(cargo[i]) == 0
                    &&& treasury_paid_by(cargo[i]) == 0
                    &&& !(cargo[i] is EmitSale)
                    &&& !(cargo[i] matches BarterStepView::RemoveFromStall(StallInventory::Items, _, _))
                    &&& !(cargo[i] matches BarterStepView::AddToStall(StallInventory::Items, _, _))
                }
        }),
{
}

/// For every trade that goes through, the goods that leave the shop's item
/// inventory, together with the coins paid out of the shop (from its storage
/// and its claim's treasury), are the order's offered items scaled by the
/// number of trades, item by item; the goods that come in, together with the
/// coins put in the claim's treasury, are the order's required items scaled
/// the same way; and the sale event reports exactly the coins put in and
/// taken from the treasury.
#[verifier::spinoff_prover]
#[verifier::rlimit(40)]
pub proof fn law_stall_items_and_coins(
    order: TradeOrderState,
    kinds: OrderKinds,
    claimed: bool,
    stall: StallState,
    amount: int,
    i: int,
    k: (i32, ItemType),
)
    requires
        kinds_match(order, kinds),
        amount >= 0,
        forall|j: int|
            0 <= j < order.offer_items@.len() ==> 0 <= (#[trigger] order.offer_items@[j]).quantity && order.offer_items@[
                j
            ].quantity * amount <= i32::MAX,
        forall|j: int|
            0 <= j < order.required_items@.len() ==> 0 <= (#[trigger] order.required_items@[j]).quantity
                && order.required_items@[j].quantity * amount <= i32::MAX,
    ensures
        ({
            let steps = spec_stall_steps(order, kinds, claimed, stall, amount);
            let cur = (MARKET_MODE_CURRENCY_ID, ItemType::Item);
            steps.len() > 0 && steps.last() is EmitSale && 0 <= i < steps.len() ==> {
                &&& steps[i] matches BarterStepView::RemoveFromStall(StallInventory::Items, r, _) ==> key_units(r, k)
                    + (if k == cur {
                    sum_steps(steps, |s: BarterStepView| paid_by(s))
                } else {
                    0
                }) == if k.1 == ItemType::Item {
                    amount * key_units(order.offer_items@, k)
                } else {
                    0
                }
                &&& steps[i] matches BarterStepView::AddToStall(StallInventory::Items, g, _) ==> key_units(g, k) + (
                if k == cur {
                    sum_steps(steps, |s: BarterStepView| deposited_by(s))
                } else {
                    0
                }) == if k.1 == ItemType::Item {
                    amount * key_units(order.required_items@, k)
                } else {
                    0
                }
                &&& steps[i] matches BarterStepView::EmitSale(added, taken) ==> added == sum_steps(
                    steps,
                    |s: BarterStepView| deposited_by(s),
                ) && taken == sum_steps(steps, |s: BarterStepView| treasury_paid_by(s))
            }
        }),
{
    reveal(spec_stall_steps);
    let paid = |s: BarterStepView| paid_by(s);
    let dep = |s: BarterStepView| deposited_by(s);
    let tre = |s: BarterStepView| treasury_paid_by(s);
    let steps = spec_stall_steps(order, kinds, claimed, stall, amount);
    if steps.len() > 0 && steps.last() is EmitSale && 0 <= i < steps.len() {
        let items = if stall.item_inventory {
            spec_item_settlement(order, kinds, claimed, amount, stall.coins, stall.treasury)
        } else {
            Seq::empty()
        };
        let cargo = if stall.cargo_inventory {
            spec_cargo_settlement(order, kinds, amount)
        } else {
            Seq::empty()
        };
        assert(!crate::barter_accept::ends_in_failure(items));
        assert(!crate::barter_accept::ends_in_failure(cargo));
        let (added, taken) = if stall.item_inventory {
            (
                spec_treasury_added(order, kinds, claimed, amount),
                spec_treasury_removed(order, kinds, claimed, amount, stall.coins, stall.treasury),
            )
        } else {
            (0i32, 0i32)
        };
        let emit = seq![BarterStepView::EmitSale(added, taken)];
        assert(steps == items + cargo + emit);
        lemma_cargo_steps_plain(order, kinds, amount);
        assert forall|j: int| 0 <= j < cargo.len() implies paid(#[trigger] cargo[j]) == 0 && dep(cargo[j]) == 0 && tre(
            cargo[j],
        ) == 0 by {
            if stall.cargo_inventory {
                assert(paid_by(spec_cargo_settlement(order, kinds, amount)[j]) == 0);
            }
        }
        lemma_sum_steps_zero(cargo, paid);
        lemma_sum_steps_zero(cargo, dep);
        lemma_sum_steps_zero(cargo, tre);
        lemma_sum_steps_one(emit[0], paid);
        lemma_sum_steps_one(emit[0], dep);
        lemma_sum_steps_one(emit[0], tre);
        lemma_sum_steps_append(items, cargo, paid);
        lemma_sum_steps_append(items, cargo, dep);
        lemma_sum_steps_append(items, cargo, tre);
        lemma_sum_steps_append(items + cargo, emit, paid);
        lemma_sum_steps_append(items + cargo, emit, dep);
        lemma_sum_steps_append(items + cargo, emit, tre);
        if stall.item_inventory {
            lemma_item_settlement_flows(order, kinds, claimed, amount, stall.coins, stall.treasury, k);
        } else {
            assert(sum_steps(items, paid) == 0);
            assert(sum_steps(items, dep) == 0);
            assert(sum_steps(items, tre) == 0);
        }
        if i < items.len() {
            assert(steps[i] == items[i]);
        } else if i < items.len() + cargo.len() {
            assert(steps[i] == cargo[i - items.len()]);
            if stall.cargo_inventory {
                let c = spec_cargo_settlement(order, kinds, amount);
                assert(!(c[i - items.len()] is EmitSale));
            }
        } else {
            assert(steps[i] == emit[0]);
        }
    }
}

/// A trade hands the player, and takes from the player, exactly the
/// quantity of every item (by id and type) of the trade items times the
/// number of trades, whether items are handed out whole or one at a time.
pub proof fn law_conversion_multiplies_item_units(
    items: Seq<ItemStack>,
    kinds: Seq<ItemKind>,
    amount: int,
    k: (i32, ItemType),
)
    requires
        kinds.len() == items.len(),
        amount >= 0,
        forall|i: int| 0 <= i < items.len() ==> (#[trigger] items[i]).quantity >= 0,
        forall|i: int| 0 <= i < items.len() ==> (#[trigger] items[i]).quantity * amount <= i32::MAX,
    ensures
        key_units(converted_stacks(items, kinds, amount), k) == amount * key_units(items, k),
    decreases items.len(),
{
    if items.len() > 0 {
        let s = items.last();
        let rest = items.drop_last();
        law_conversion_multiplies_item_units(rest, kinds.drop_last(), amount, k);
        lemma_converted_stacks_kinds(rest, kinds, amount);
        assert(s == items[items.len() - 1]);
        assert(s.quantity * amount >= 0) by (nonlinear_arith)
            requires
                s.quantity >= 0,
                amount >= 0,
        ;
        let kind = kinds[items.len() - 1];
        let piece = crate::barter_accept::converted_stack(s, kind, amount);
        lemma_key_units_append(converted_stacks(rest, kinds, amount), piece, k);
        let fresh = ItemStack { item_id: s.item_id, item_type: s.item_type, quantity: 1, durability: kind.durability };
        if kind.durability is Some {
            lemma_key_units_singles((s.quantity * amount) as nat, fresh, k);
            assert(piece =~= Seq::new((s.quantity * amount) as nat, |i: int| fresh));
        } else {
            assert(piece.drop_last() =~= Seq::<ItemStack>::empty());
            assert(key_units(piece.drop_last(), k) == 0);
        }
        let own = if item_key(s) == k {
            s.quantity as int
        } else {
            0
        };
        assert(key_units(items, k) == key_units(rest, k) + own);
        assert(amount * key_units(rest, k) + own * amount == amount * (key_units(rest, k) + own)) by (nonlinear_arith);
    }
}

/// Quantities of trade items that scale by `amount` without overflow.
pub open spec fn scalable(items: Seq<ItemStack>, amount: int) -> bool {
    forall|i: int| 0 <= i < items.len() ==> 0 <= (#[trigger] items[i]).quantity && items[i].quantity * amount <= i32::MAX
}

/// An accepted trade order takes from the player exactly the required items
/// and gives the player exactly the offered items, item by item, times the
/// number of trades: those of the order itself, or of its traveler's trade
/// order when it has one (nothing changes hands when that is unknown).
pub proof fn law_reduce_player_side(
    shop_entity_id: u64,
    amount: i32,
    in_combat: bool,
    shop: ShopSite,
    trade_order: Option<TradeOrderState>,
    order_kinds: OrderKinds,
    traveler: Option<TravelerTradeOrder>,
    knowledge: Seq<KnowledgeEntry>,
    npc_present: bool,
    k: (i32, ItemType),
)
    requires
        trade_order matches Some(o) ==> kinds_match(o, order_kinds) && scalable(o.offer_items@, amount as int)
            && scalable(o.required_items@, amount as int),
        traveler matches Some(t) ==> traveler_kinds_match(t) && scalable(t.offer_items@, amount as int) && scalable(
            t.required_items@,
            amount as int,
        ),
    ensures
        spec_reduce(shop_entity_id, amount, in_combat, shop, trade_order, order_kinds, traveler, knowledge, npc_present)
            matches Ok(plan) ==> {
            let o = trade_order.unwrap();
            &&& amount > 0
            &&& o.shop_entity_id == shop_entity_id
            &&& if o.traveler_trade_order_id is None {
                &&& key_units(plan.0, k) == amount * key_units(o.required_items@, k)
                &&& key_units(plan.1, k) == amount * key_units(o.offer_items@, k)
            } else {
                match traveler {
                    Some(t) => {
                        &&& key_units(plan.0, k) == amount * key_units(t.required_items@, k)
                        &&& key_units(plan.1, k) == amount * key_units(t.offer_items@, k)
                    },
                    None => plan.0.len() == 0 && plan.1.len() == 0,
                }
            }
        },
{
    reveal(spec_player_stacks);
    if let Some(o) = trade_order {
        if amount > 0 {
            law_conversion_multiplies_item_units(o.offer_items@, order_kinds.offer@, amount as int, k);
            law_conversion_multiplies_item_units(o.required_items@, order_kinds.required@, amount as int, k);
            if let Some(t) = traveler {
                law_conversion_multiplies_item_units(t.offer_items@, t.offer_kinds@, amount as int, k);
                law_conversion_multiplies_item_units(t.required_items@, t.required_kinds@, amount as int, k);
            }
        }
    }
}

/// Taking the coins out of a list of stacks takes the first stack of the
/// stall currency, whole, and leaves every other stack in order; without
/// such a stack it takes nothing.
pub proof fn law_extract_coins_takes_first(stacks: Seq<ItemStack>)
    ensures
        (exists|n: int|
            {
                &&& 0 <= n < stacks.len()
                &&& is_market_currency(#[trigger] stacks[n])
                &&& forall|j: int| 0 <= j < n ==> !is_market_currency(#[trigger] stacks[j])
                &&& spec_extract_coins(stacks).0 == stacks[n].quantity
                &&& spec_extract_coins(stacks).1 == stacks.remove(n)
            }) || ((forall|j: int| 0 <= j < stacks.len() ==> !is_market_currency(#[trigger] stacks[j]))
            && spec_extract_coins(stacks) == (0int, stacks)),
{
    lemma_first_currency_in_range(stacks, 0);
    lemma_first_currency_is_currency(stacks, 0);
    lemma_first_currency_least(stacks, 0);
    if let Some(n) = first_currency_index(stacks, 0) {
        assert(is_market_currency(stacks[n]));
    }
}

proof fn lemma_first_currency_least(stacks: Seq<ItemStack>, i: int)
    requires
        0 <= i,
    ensures
        match first_currency_index(stacks, i) {
            Some(n) => forall|j: int| i <= j < n ==> !is_market_currency(#[trigger] stacks[j]),
            None => forall|j: int| i <= j < stacks.len() ==> !is_market_currency(#[trigger] stacks[j]),
        },
    decreases stacks.len() - i,
{
    if i < stacks.len() {
        lemma_first_currency_least(stacks, i + 1);
    }
}

/// A trade order is refused, before anything changes hands, when the player
/// is in combat, when the amount is not positive, when the shop is a hidden
/// deployable or more than 5 away, when the order does not exist or belongs
/// to another shop, and when its limited stock is short of the amount; an
/// accepted trade passed all of these checks.
pub proof fn law_reduce_refusals(
    shop_entity_id: u64,
    amount: i32,
    in_combat: bool,
    shop: ShopSite,
    trade_order: Option<TradeOrderState>,
    order_kinds: OrderKinds,
    traveler: Option<TravelerTradeOrder>,
    knowledge: Seq<KnowledgeEntry>,
    npc_present: bool,
)
    ensures
        ({
            let r = spec_reduce(
                shop_entity_id,
                amount,
                in_combat,
                shop,
                trade_order,
                order_kinds,
                traveler,
                knowledge,
                npc_present,
            );
            let reachable = match shop {
                ShopSite::Building { distance, .. } => distance <= 5,
                ShopSite::Deployable { hidden, distance, .. } => !hidden && distance <= 5,
                ShopSite::Missing => true,
            };
            let o = trade_order.unwrap();
            &&& in_combat ==> (r matches Err(BarterError::InCombat))
            &&& !in_combat && amount <= 0 ==> (r matches Err(BarterError::InvalidAmount))
            &&& !in_combat && amount > 0 && (shop matches ShopSite::Deployable { hidden: true, .. }) ==> (r matches Err(
                BarterError::HiddenDeployable,
            ))
            &&& !in_combat && amount > 0 && !reachable && !(shop matches ShopSite::Deployable { hidden: true, .. })
                ==> (r matches Err(BarterError::TooFar))
            &&& !in_combat && amount > 0 && reachable && trade_order is None ==> (r matches Err(
                BarterError::TradeOrderNotFound,
            ))
            &&& !in_combat && amount > 0 && reachable && trade_order is Some && o.shop_entity_id != shop_entity_id
                ==> (r matches Err(BarterError::WrongShop))
            &&& !in_combat && amount > 0 && reachable && trade_order is Some && o.shop_entity_id == shop_entity_id
                && o.remaining_stock != i32::MAX && o.remaining_stock < amount ==> (r matches Err(
                BarterError::OutOfStock,
            ))
            &&& r is Ok ==> {
                &&& !in_combat && amount > 0 && reachable
                &&& trade_order is Some && o.shop_entity_id == shop_entity_id && (o.remaining_stock == i32::MAX
                    || o.remaining_stock >= amount)
            }
        }),
{
}

} // verus!
