//! What the market promises across its operations: goods and coins are
//! neither created nor lost, players trade within their price limits, the
//! best listings are served first, and listings stay well formed.
use vstd::prelude::*;

use crate::market::{
    is_serving_arrangement, is_serving_order, lemma_buy_fill_bounds, lemma_sell_fill_bounds, lemma_served_listings,
    buy_listing_wf, listing_precedes, sell_listing_wf, spec_sell_fill, total_cost, total_quantity, AuctionListingState, ClosedListing,
    MarketFill, lemma_total_quantity_prepend, min_int, sell_fill_quantities, spec_buy_fill, buy_fill_quantities,
    buy_fill_quantity,
};
use crate::events::MarketOrderType;
use crate::items::{spec_item_type_code, ItemStack, ItemType, HEX_COIN_ITEM_ID};
use crate::orders::{
    buy_candidates, buy_quantities, buy_request_error, is_buy_plan, is_sell_plan, sell_candidates, sell_quantities,
    sell_request_error, BuyOrderPlan, ListingDraft, OrderError, MarketBuilding, PlayerPostOrderRequest, PostOutcome, SellOrderPlan,
};

verus! {

/// Units traded over a sequence of trades.
pub open spec fn fills_quantity(fills: Seq<MarketFill>) -> int
    decreases fills.len(),
{
    if fills.len() == 0 {
        0
    } else {
        fills_quantity(fills.drop_last()) + fills.last().quantity
    }
}

/// Coins paid to sellers over a sequence of trades.
pub open spec fn fills_coins(fills: Seq<MarketFill>) -> int
    decreases fills.len(),
{
    if fills.len() == 0 {
        0
    } else {
        fills_coins(fills.drop_last()) + fills.last().seller_coins.item_stack.quantity
    }
}

/// Coins handed back to the buyer.
pub open spec fn refunded_coins(refund: Option<ClosedListing>) -> int {
    match refund {
        Some(c) => c.item_stack.quantity as int,
        None => 0,
    }
}

/// Units left on the market by a buy request.
pub open spec fn posted_quantity(outcome: PostOutcome) -> int {
    match outcome {
        PostOutcome::Posted(d) => d.quantity as int,
        _ => 0,
    }
}

/// Coins held by the listing a buy request leaves on the market.
pub open spec fn posted_coins(outcome: PostOutcome) -> int {
    match outcome {
        PostOutcome::Posted(d) => d.stored_coins as int,
        _ => 0,
    }
}

proof fn lemma_fill_sums(fills: Seq<MarketFill>, sorted: Seq<AuctionListingState>, qs: Seq<int>)
    requires
        fills.len() == qs.len() <= sorted.len(),
        forall|k: int|
            0 <= k < fills.len() ==> (#[trigger] fills[k]).quantity == qs[k]
                && fills[k].seller_coins.item_stack.quantity == qs[k] * sorted[k].price_threshold,
    ensures
        fills_quantity(fills) == total_quantity(qs),
        fills_coins(fills) == total_cost(sorted, qs),
    decreases fills.len(),
{
    if fills.len() > 0 {
        let n = fills.len() - 1;
        lemma_fill_sums(fills.drop_last(), sorted, qs.drop_last());
        assert(fills[n].quantity == qs[n]);
    }
}

/// Facts about a buy plan: the listings served are matching and well formed,
/// and the trades are within the buyer's quantity, budget and price.
proof fn lemma_buy_plan_facts(
    plan: BuyOrderPlan,
    req: PlayerPostOrderRequest,
    building: MarketBuilding,
    sell_orders: Seq<AuctionListingState>,
    sorted: Seq<AuctionListingState>,
    actor_id: u64,
    durability: Option<i32>,
    timestamp: i64,
)
    requires
        forall|k: int| 0 <= k < sell_orders.len() ==> sell_listing_wf(#[trigger] sell_orders[k]),
        buy_request_error(req, Some(building)) is None,
        is_serving_order(buy_candidates(req, building.claim_entity_id, sell_orders), sorted, false),
        is_buy_plan(plan, req, sorted, actor_id, building.claim_entity_id, durability, timestamp),
    ensures
        forall|k: int|
            0 <= k < sorted.len() ==> sell_listing_wf(#[trigger] sorted[k]) && sorted[k].price_threshold
                <= req.max_unit_price,
        ({
            let qs = buy_quantities(req, sorted);
            &&& plan.fills@.len() == qs.len() <= sorted.len()
            &&& forall|k: int| 0 <= k < qs.len() ==> 0 < #[trigger] qs[k] <= sorted[k].quantity
            &&& 0 <= total_quantity(qs) <= req.quantity
            &&& 0 <= total_cost(sorted, qs) <= req.coins_spent
            &&& total_cost(sorted, qs) <= total_quantity(qs) * req.max_unit_price
            &&& fills_quantity(plan.fills@) == total_quantity(qs)
            &&& fills_coins(plan.fills@) == total_cost(sorted, qs)
        }),
{
    lemma_served_listings(
        sell_orders,
        req.item_id,
        crate::items::spec_item_type_code(req.item_type),
        building.claim_entity_id,
        req.max_unit_price,
        false,
        sorted,
        false,
    );
    assert forall|k: int| 0 <= k < sorted.len() implies sell_listing_wf(#[trigger] sorted[k])
        && sorted[k].price_threshold <= req.max_unit_price by {
        assert(sell_orders.contains(sorted[k]));
    }
    let qs = buy_quantities(req, sorted);
    lemma_buy_fill_bounds(sorted, 0, req.coins_spent as int, req.quantity as int, req.max_unit_price as int);
    assert(sorted.subrange(0, sorted.len() as int) =~= sorted);
    lemma_fill_sums(plan.fills@, sorted, qs);
}

/// A buy request that stands neither creates nor loses coins: what is
/// withdrawn from the buyer is exactly what the sellers receive, plus the
/// refund, plus the coins held by the buy listing it posts.
pub proof fn law_buy_coins_conserved(
    plan: BuyOrderPlan,
    req: PlayerPostOrderRequest,
    building: MarketBuilding,
    sell_orders: Seq<AuctionListingState>,
    sorted: Seq<AuctionListingState>,
    actor_id: u64,
    durability: Option<i32>,
    timestamp: i64,
)
    requires
        forall|k: int| 0 <= k < sell_orders.len() ==> sell_listing_wf(#[trigger] sell_orders[k]),
        buy_request_error(req, Some(building)) is None,
        is_serving_order(buy_candidates(req, building.claim_entity_id, sell_orders), sorted, false),
        is_buy_plan(plan, req, sorted, actor_id, building.claim_entity_id, durability, timestamp),
        !(plan.outcome is Failed),
    ensures
        plan.coins_withdrawn == fills_coins(plan.fills@) + refunded_coins(plan.refund) + posted_coins(plan.outcome),
{
    lemma_buy_plan_facts(plan, req, building, sell_orders, sorted, actor_id, durability, timestamp);
    let qs = buy_quantities(req, sorted);
    let sold = total_quantity(qs);
    let p = req.max_unit_price as int;
    let remaining = req.quantity - sold;
    assert(remaining * p + sold * p == req.quantity * p) by (nonlinear_arith)
        requires
            remaining + sold == req.quantity,
    ;
    assert(0 <= remaining * p) by (nonlinear_arith)
        requires
            0 <= remaining,
            p > 0,
    ;
    assert(remaining * p <= req.quantity * p) by (nonlinear_arith)
        requires
            remaining <= req.quantity,
            p > 0,
    ;
}

/// A buy request that stands accounts for every unit requested: each is
/// either bought or left on the market in the buy listing it posts.
pub proof fn law_buy_items_conserved(
    plan: BuyOrderPlan,
    req: PlayerPostOrderRequest,
    building: MarketBuilding,
    sell_orders: Seq<AuctionListingState>,
    sorted: Seq<AuctionListingState>,
    actor_id: u64,
    durability: Option<i32>,
    timestamp: i64,
)
    requires
        forall|k: int| 0 <= k < sell_orders.len() ==> sell_listing_wf(#[trigger] sell_orders[k]),
        buy_request_error(req, Some(building)) is None,
        is_serving_order(buy_candidates(req, building.claim_entity_id, sell_orders), sorted, false),
        is_buy_plan(plan, req, sorted, actor_id, building.claim_entity_id, durability, timestamp),
        !(plan.outcome is Failed),
    ensures
        req.quantity == fills_quantity(plan.fills@) + posted_quantity(plan.outcome),
{
    lemma_buy_plan_facts(plan, req, building, sell_orders, sorted, actor_id, durability, timestamp);
}

/// A buyer never pays more than its unit price limit: every trade is at a
/// listed price no higher than the limit, the cheapest listings are served
/// first, the coins paid stay within the coins put up, and the refund is
/// never negative.
pub proof fn law_buy_within_limits(
    plan: BuyOrderPlan,
    req: PlayerPostOrderRequest,
    building: MarketBuilding,
    sell_orders: Seq<AuctionListingState>,
    sorted: Seq<AuctionListingState>,
    actor_id: u64,
    durability: Option<i32>,
    timestamp: i64,
)
    requires
        forall|k: int| 0 <= k < sell_orders.len() ==> sell_listing_wf(#[trigger] sell_orders[k]),
        buy_request_error(req, Some(building)) is None,
        is_serving_order(buy_candidates(req, building.claim_entity_id, sell_orders), sorted, false),
        is_buy_plan(plan, req, sorted, actor_id, building.claim_entity_id, durability, timestamp),
    ensures
        forall|k: int|
            0 <= k < plan.fills@.len() ==> (#[trigger] plan.fills@[k]).event.unit_price <= req.max_unit_price,
        forall|j: int, k: int|
            0 <= j < k < plan.fills@.len() ==> (#[trigger] plan.fills@[j]).event.unit_price
                <= (#[trigger] plan.fills@[k]).event.unit_price,
        fills_coins(plan.fills@) <= fills_quantity(plan.fills@) * req.max_unit_price,
        fills_coins(plan.fills@) <= plan.coins_withdrawn,
        refunded_coins(plan.refund) >= 0,
{
    lemma_buy_plan_facts(plan, req, building, sell_orders, sorted, actor_id, durability, timestamp);
    let perm = choose|perm: Seq<int>|
        is_serving_arrangement(buy_candidates(req, building.claim_entity_id, sell_orders), sorted, perm, false);
    assert forall|j: int, k: int| 0 <= j < k < plan.fills@.len() implies (#[trigger] plan.fills@[j]).event.unit_price
        <= (#[trigger] plan.fills@[k]).event.unit_price by {
        assert(listing_precedes(sorted[j], sorted[k], false) || !listing_precedes(sorted[k], sorted[j], false));
    }
    let qs = buy_quantities(req, sorted);
    let sold = total_quantity(qs);
    let p = req.max_unit_price as int;
    assert(sold * p <= req.quantity * p) by (nonlinear_arith)
        requires
            0 <= sold <= req.quantity,
            p > 0,
    ;
}

/// Facts about a sell plan: the listings served are matching and well
/// formed, and the trades are within the seller's quantity and price.
proof fn lemma_sell_plan_facts(
    plan: SellOrderPlan,
    req: PlayerPostOrderRequest,
    building: MarketBuilding,
    buy_orders: Seq<AuctionListingState>,
    sorted: Seq<AuctionListingState>,
    actor_id: u64,
    durability: Option<i32>,
    timestamp: i64,
)
    requires
        forall|k: int| 0 <= k < buy_orders.len() ==> buy_listing_wf(#[trigger] buy_orders[k]),
        sell_request_error(req, Some(building)) is None,
        is_serving_order(sell_candidates(req, building.claim_entity_id, buy_orders), sorted, true),
        is_sell_plan(plan, req, sorted, actor_id, building.claim_entity_id, durability, timestamp),
    ensures
        forall|k: int|
            0 <= k < sorted.len() ==> buy_listing_wf(#[trigger] sorted[k]) && sorted[k].price_threshold
                >= req.max_unit_price,
        ({
            let qs = sell_quantities(req, sorted);
            &&& plan.fills@.len() == qs.len() <= sorted.len()
            &&& forall|k: int| 0 <= k < qs.len() ==> 0 < #[trigger] qs[k] <= sorted[k].quantity
            &&& 0 <= total_quantity(qs) <= req.quantity
            &&& total_cost(sorted, qs) >= total_quantity(qs) * req.max_unit_price
            &&& fills_quantity(plan.fills@) == total_quantity(qs)
            &&& fills_coins(plan.fills@) == total_cost(sorted, qs)
        }),
{
    lemma_served_listings(
        buy_orders,
        req.item_id,
        crate::items::spec_item_type_code(req.item_type),
        building.claim_entity_id,
        req.max_unit_price,
        true,
        sorted,
        true,
    );
    assert forall|k: int| 0 <= k < sorted.len() implies buy_listing_wf(#[trigger] sorted[k])
        && sorted[k].price_threshold >= req.max_unit_price by {
        assert(buy_orders.contains(sorted[k]));
    }
    let qs = sell_quantities(req, sorted);
    lemma_sell_fill_bounds(sorted, 0, req.quantity as int, req.max_unit_price as int);
    assert(sorted.subrange(0, sorted.len() as int) =~= sorted);
    assert forall|k: int| 0 <= k < plan.fills@.len() implies (#[trigger] plan.fills@[k]).quantity == qs[k]
        && plan.fills@[k].seller_coins.item_stack.quantity == qs[k] * sorted[k].price_threshold by {
        let l = sorted[k];
        assert(qs[k] * l.price_threshold <= l.quantity * l.price_threshold) by (nonlinear_arith)
            requires
                0 < qs[k] <= l.quantity,
                l.price_threshold > 0,
        ;
        assert(qs[k] * l.price_threshold > 0) by (nonlinear_arith)
            requires
                0 < qs[k],
                l.price_threshold > 0,
        ;
    }
    lemma_fill_sums(plan.fills@, sorted, qs);
}

/// A persisted sell request accounts for every unit withdrawn from the
/// seller: each is either sold or left on the market in the sell listing it
/// posts.
pub proof fn law_sell_items_conserved(
    plan: SellOrderPlan,
    req: PlayerPostOrderRequest,
    building: MarketBuilding,
    buy_orders: Seq<AuctionListingState>,
    sorted: Seq<AuctionListingState>,
    actor_id: u64,
    durability: Option<i32>,
    timestamp: i64,
)
    requires
        forall|k: int| 0 <= k < buy_orders.len() ==> buy_listing_wf(#[trigger] buy_orders[k]),
        sell_request_error(req, Some(building)) is None,
        is_serving_order(sell_candidates(req, building.claim_entity_id, buy_orders), sorted, true),
        is_sell_plan(plan, req, sorted, actor_id, building.claim_entity_id, durability, timestamp),
        req.persist_order,
    ensures
        plan.items_withdrawn.quantity == fills_quantity(plan.fills@) + match plan.posted {
            Some(d) => d.quantity as int,
            None => 0,
        },
{
    lemma_sell_plan_facts(plan, req, building, buy_orders, sorted, actor_id, durability, timestamp);
}

/// A seller never gets less than its unit price limit: every trade is at a
/// listed price no lower than the limit, the best paying listings are served
/// first, and no more units are sold than were offered.
pub proof fn law_sell_within_limits(
    plan: SellOrderPlan,
    req: PlayerPostOrderRequest,
    building: MarketBuilding,
    buy_orders: Seq<AuctionListingState>,
    sorted: Seq<AuctionListingState>,
    actor_id: u64,
    durability: Option<i32>,
    timestamp: i64,
)
    requires
        forall|k: int| 0 <= k < buy_orders.len() ==> buy_listing_wf(#[trigger] buy_orders[k]),
        sell_request_error(req, Some(building)) is None,
        is_serving_order(sell_candidates(req, building.claim_entity_id, buy_orders), sorted, true),
        is_sell_plan(plan, req, sorted, actor_id, building.claim_entity_id, durability, timestamp),
    ensures
        forall|k: int|
            0 <= k < plan.fills@.len() ==> (#[trigger] plan.fills@[k]).event.unit_price >= req.max_unit_price,
        forall|j: int, k: int|
            0 <= j < k < plan.fills@.len() ==> (#[trigger] plan.fills@[j]).event.unit_price
                >= (#[trigger] plan.fills@[k]).event.unit_price,
        fills_coins(plan.fills@) >= fills_quantity(plan.fills@) * req.max_unit_price,
        fills_quantity(plan.fills@) <= plan.items_withdrawn.quantity,
{
    lemma_sell_plan_facts(plan, req, building, buy_orders, sorted, actor_id, durability, timestamp);
    let perm = choose|perm: Seq<int>|
        is_serving_arrangement(sell_candidates(req, building.claim_entity_id, buy_orders), sorted, perm, true);
    assert forall|j: int, k: int| 0 <= j < k < plan.fills@.len() implies (#[trigger] plan.fills@[j]).event.unit_price
        >= (#[trigger] plan.fills@[k]).event.unit_price by {
        assert(listing_precedes(sorted[j], sorted[k], true) || !listing_precedes(sorted[k], sorted[j], true));
    }
}

/// Every trade of a buy request takes a positive quantity that the sell
/// listing holds, and leaves the listing with the rest; a listing left with
/// nothing is deleted.
pub proof fn law_buy_fills_within_listings(
    plan: BuyOrderPlan,
    req: PlayerPostOrderRequest,
    building: MarketBuilding,
    sell_orders: Seq<AuctionListingState>,
    sorted: Seq<AuctionListingState>,
    actor_id: u64,
    durability: Option<i32>,
    timestamp: i64,
)
    requires
        forall|k: int| 0 <= k < sell_orders.len() ==> sell_listing_wf(#[trigger] sell_orders[k]),
        buy_request_error(req, Some(building)) is None,
        is_serving_order(buy_candidates(req, building.claim_entity_id, sell_orders), sorted, false),
        is_buy_plan(plan, req, sorted, actor_id, building.claim_entity_id, durability, timestamp),
    ensures
        forall|k: int|
            0 <= k < plan.fills@.len() ==> {
                let f = #[trigger] plan.fills@[k];
                &&& 0 < f.quantity <= sorted[k].quantity
                &&& f.listing.quantity == sorted[k].quantity - f.quantity
                &&& f.close_listing == (f.listing.quantity == 0)
            },
{
    lemma_buy_plan_facts(plan, req, building, sell_orders, sorted, actor_id, durability, timestamp);
}

/// Every trade of a sell request takes a positive quantity that the buy
/// listing holds, and leaves the listing with the rest; a listing left with
/// nothing is deleted.
pub proof fn law_sell_fills_within_listings(
    plan: SellOrderPlan,
    req: PlayerPostOrderRequest,
    building: MarketBuilding,
    buy_orders: Seq<AuctionListingState>,
    sorted: Seq<AuctionListingState>,
    actor_id: u64,
    durability: Option<i32>,
    timestamp: i64,
)
    requires
        forall|k: int| 0 <= k < buy_orders.len() ==> buy_listing_wf(#[trigger] buy_orders[k]),
        sell_request_error(req, Some(building)) is None,
        is_serving_order(sell_candidates(req, building.claim_entity_id, buy_orders), sorted, true),
        is_sell_plan(plan, req, sorted, actor_id, building.claim_entity_id, durability, timestamp),
    ensures
        forall|k: int|
            0 <= k < plan.fills@.len() ==> {
                let f = #[trigger] plan.fills@[k];
                &&& 0 < f.quantity <= sorted[k].quantity
                &&& f.listing.quantity == sorted[k].quantity - f.quantity
                &&& f.close_listing == (f.listing.quantity == 0)
            },
{
    lemma_sell_plan_facts(plan, req, building, buy_orders, sorted, actor_id, durability, timestamp);
}

/// A buy listing holds exactly the coins for its unfilled units: a posted
/// buy listing starts so, and selling into such a listing keeps it so, pays
/// the seller out of those coins and leaves no unspent coins behind.
pub proof fn law_buy_listing_funded(
    l: AuctionListingState,
    q: int,
    seller_entity_id: u64,
    claim_entity_id: u64,
    item: crate::items::ItemStack,
    timestamp: i64,
)
    requires
        buy_listing_wf(l),
        l.stored_coins == l.quantity * l.price_threshold,
        0 < q <= l.quantity,
    ensures
        ({
            let f = spec_sell_fill(l, q, seller_entity_id, claim_entity_id, item, timestamp);
            &&& f.listing.stored_coins == f.listing.quantity * f.listing.price_threshold
            &&& f.seller_coins.item_stack.quantity + f.listing.stored_coins == l.stored_coins
            &&& f.left_over_coins is None
        }),
{
    let p = l.price_threshold as int;
    assert(q * p <= l.quantity * p) by (nonlinear_arith)
        requires
            0 < q <= l.quantity,
            p > 0,
    ;
    assert(q * p > 0) by (nonlinear_arith)
        requires
            0 < q,
            p > 0,
    ;
    assert(l.quantity * p - q * p == (l.quantity - q) * p) by (nonlinear_arith);
}

/// Selling into a buy listing neither creates nor loses coins: the coins paid
/// to the seller, the unspent coins returned to the listing's owner and the
/// coins the listing keeps add up to what it held, for any coins it held
/// that cover the sale when the sale uses it up.
pub proof fn law_buy_listing_coins_conserved(
    l: AuctionListingState,
    q: int,
    seller_entity_id: u64,
    claim_entity_id: u64,
    item: crate::items::ItemStack,
    timestamp: i64,
)
    requires
        buy_listing_wf(l),
        0 < q <= l.quantity,
        q == l.quantity ==> l.stored_coins >= q * l.price_threshold,
    ensures
        ({
            let f = spec_sell_fill(l, q, seller_entity_id, claim_entity_id, item, timestamp);
            &&& f.seller_coins.item_stack.quantity + (match f.left_over_coins {
                Some(c) => c.item_stack.quantity as int,
                None => 0,
            }) + (if f.close_listing {
                0
            } else {
                f.listing.stored_coins as int
            }) == l.stored_coins
            &&& f.close_listing <==> q == l.quantity
        }),
{
    let p = l.price_threshold as int;
    assert(q * p <= l.quantity * p) by (nonlinear_arith)
        requires
            0 < q <= l.quantity,
            p > 0,
    ;
    assert(q * p > 0) by (nonlinear_arith)
        requires
            0 < q,
            p > 0,
    ;
}

/// The buy listing that a buy request posts is well formed and holds exactly
/// the coins for its units.
pub proof fn law_posted_buy_listing_funded(
    plan: BuyOrderPlan,
    req: PlayerPostOrderRequest,
    building: MarketBuilding,
    sell_orders: Seq<AuctionListingState>,
    sorted: Seq<AuctionListingState>,
    actor_id: u64,
    durability: Option<i32>,
    timestamp: i64,
)
    requires
        forall|k: int| 0 <= k < sell_orders.len() ==> sell_listing_wf(#[trigger] sell_orders[k]),
        buy_request_error(req, Some(building)) is None,
        is_serving_order(buy_candidates(req, building.claim_entity_id, sell_orders), sorted, false),
        is_buy_plan(plan, req, sorted, actor_id, building.claim_entity_id, durability, timestamp),
    ensures
        plan.outcome matches PostOutcome::Posted(d) ==> {
            &&& d.quantity > 0
            &&& d.price_threshold > 0
            &&& d.stored_coins == d.quantity * d.price_threshold
        },
{
    lemma_buy_plan_facts(plan, req, building, sell_orders, sorted, actor_id, durability, timestamp);
    let qs = buy_quantities(req, sorted);
    let remaining = req.quantity - total_quantity(qs);
    let p = req.max_unit_price as int;
    assert(remaining * p <= req.quantity * p) by (nonlinear_arith)
        requires
            remaining <= req.quantity,
            p > 0,
    ;
    assert(0 <= remaining * p) by (nonlinear_arith)
        requires
            0 <= remaining,
            p > 0,
    ;
}

/// Units listed in `listings[i..]`.
pub open spec fn listed_quantity(listings: Seq<AuctionListingState>, i: int) -> int
    decreases listings.len() - i,
{
    if 0 <= i < listings.len() {
        listings[i].quantity + listed_quantity(listings, i + 1)
    } else {
        0
    }
}

/// A seller sells all it can: of `need` units offered into listings that
/// each ask for some units, it sells `need` or all the units the listings
/// ask for, whichever is less.
pub proof fn law_sell_sells_what_it_can(listings: Seq<AuctionListingState>, i: int, need: int)
    requires
        need > 0,
        0 <= i,
        forall|k: int| 0 <= k < listings.len() ==> (#[trigger] listings[k]).quantity > 0,
    ensures
        total_quantity(sell_fill_quantities(listings, i, need)) == min_int(need, listed_quantity(listings, i)),
        listed_quantity(listings, i) >= 0,
    decreases listings.len() - i,
{
    if i < listings.len() {
        let q = min_int(listings[i].quantity as int, need);
        if need - q <= 0 {
            law_sell_sells_what_it_can(listings, i + 1, need);
            assert(seq![q] =~= seq![q] + Seq::<int>::empty());
            lemma_total_quantity_prepend(q, Seq::<int>::empty());
        } else {
            law_sell_sells_what_it_can(listings, i + 1, need - q);
            lemma_total_quantity_prepend(q, sell_fill_quantities(listings, i + 1, need - q));
        }
    } else {
        assert(sell_fill_quantities(listings, i, need) =~= Seq::<int>::empty());
    }
}

/// A trade from a sell listing hands the buyer exactly the units traded, as
/// a stack of the traded item; pays the listing's owner their price for
/// each unit in hex coins; and writes the listing back unchanged but for
/// its quantity, closing it once it has no units left.
pub proof fn law_buy_fill_exact(
    l: AuctionListingState,
    q: int,
    buyer_entity_id: u64,
    claim_entity_id: u64,
    item: ItemStack,
    timestamp: i64,
)
    requires
        sell_listing_wf(l),
        0 < q <= l.quantity,
        q * l.price_threshold <= i32::MAX,
    ensures
        ({
            let f = spec_buy_fill(l, q, buyer_entity_id, claim_entity_id, item, timestamp);
            &&& f.quantity == q
            &&& f.buyer_items.owner_entity_id == buyer_entity_id
            &&& f.buyer_items.claim_entity_id == claim_entity_id
            &&& f.buyer_items.item_stack == (ItemStack {
                item_id: item.item_id,
                item_type: item.item_type,
                quantity: f.quantity,
                durability: item.durability,
            })
            &&& f.buyer_items.timestamp == timestamp
            &&& f.seller_coins.owner_entity_id == l.owner_entity_id
            &&& f.seller_coins.claim_entity_id == claim_entity_id
            &&& f.seller_coins.timestamp == timestamp
            &&& f.seller_coins.item_stack == (ItemStack {
                item_id: HEX_COIN_ITEM_ID,
                item_type: ItemType::Item,
                quantity: f.seller_coins.item_stack.quantity,
                durability: None,
            })
            &&& f.seller_coins.item_stack.quantity == q * l.price_threshold
            &&& f.listing == (AuctionListingState { quantity: (l.quantity - f.quantity) as i32, ..l })
            &&& f.listing.quantity >= 0
            &&& f.close_listing <==> f.listing.quantity == 0
            &&& f.left_over_coins is None
            &&& f.event.claim_entity_id == claim_entity_id
            &&& f.event.listing_entity_id == l.entity_id
            &&& f.event.listing_type == MarketOrderType::SellOrder
            &&& f.event.buyer_entity_id == buyer_entity_id
            &&& f.event.seller_entity_id == l.owner_entity_id
            &&& f.event.item_id == item.item_id
            &&& f.event.item_type == item.item_type
            &&& f.event.quantity == f.quantity
            &&& f.event.unit_price == l.price_threshold
            &&& f.event.total_coins == f.seller_coins.item_stack.quantity
            &&& f.event.listing_remaining_quantity == f.listing.quantity
            &&& f.event.timestamp == timestamp
        }),
{
}

/// A trade into a buy listing hands the listing's owner exactly the units
/// traded, as a stack of the traded item; pays the seller the listing's
/// price for each unit in hex coins, out of the listing's coins; and writes
/// the listing back unchanged but for its quantity and coins.
pub proof fn law_sell_fill_exact(
    l: AuctionListingState,
    q: int,
    seller_entity_id: u64,
    claim_entity_id: u64,
    item: ItemStack,
    timestamp: i64,
)
    requires
        buy_listing_wf(l),
        0 < q <= l.quantity,
    ensures
        ({
            let f = spec_sell_fill(l, q, seller_entity_id, claim_entity_id, item, timestamp);
            &&& f.quantity == q
            &&& f.buyer_items.owner_entity_id == l.owner_entity_id
            &&& f.buyer_items.claim_entity_id == claim_entity_id
            &&& f.buyer_items.item_stack == (ItemStack {
                item_id: item.item_id,
                item_type: item.item_type,
                quantity: f.quantity,
                durability: item.durability,
            })
            &&& f.buyer_items.timestamp == timestamp
            &&& f.seller_coins.owner_entity_id == seller_entity_id
            &&& f.seller_coins.claim_entity_id == claim_entity_id
            &&& f.seller_coins.timestamp == timestamp
            &&& f.seller_coins.item_stack == (ItemStack {
                item_id: HEX_COIN_ITEM_ID,
                item_type: ItemType::Item,
                quantity: f.seller_coins.item_stack.quantity,
                durability: None,
            })
            &&& f.seller_coins.item_stack.quantity == q * l.price_threshold
            &&& f.listing == (AuctionListingState {
                quantity: (l.quantity - f.quantity) as i32,
                stored_coins: (l.stored_coins - f.seller_coins.item_stack.quantity) as i32,
                ..l
            })
            &&& f.listing.quantity >= 0
            &&& f.close_listing <==> f.listing.quantity == 0
            &&& match f.left_over_coins {
                Some(c) => f.close_listing && f.listing.stored_coins > 0 && c.owner_entity_id == l.owner_entity_id
                    && c.claim_entity_id == claim_entity_id && c.timestamp == timestamp && c.item_stack == (ItemStack {
                    item_id: HEX_COIN_ITEM_ID,
                    item_type: ItemType::Item,
                    quantity: f.listing.stored_coins,
                    durability: None,
                }),
                None => !(f.close_listing && f.listing.stored_coins > 0),
            }
            &&& f.event.claim_entity_id == claim_entity_id
            &&& f.event.listing_entity_id == l.entity_id
            &&& f.event.listing_type == MarketOrderType::BuyOrder
            &&& f.event.buyer_entity_id == l.owner_entity_id
            &&& f.event.seller_entity_id == seller_entity_id
            &&& f.event.item_id == item.item_id
            &&& f.event.item_type == item.item_type
            &&& f.event.quantity == f.quantity
            &&& f.event.unit_price == l.price_threshold
            &&& f.event.total_coins == f.seller_coins.item_stack.quantity
            &&& f.event.listing_remaining_quantity == f.listing.quantity
            &&& f.event.timestamp == timestamp
        }),
{
    let p = l.price_threshold as int;
    assert(q * p <= l.quantity * p) by (nonlinear_arith)
        requires
            0 < q <= l.quantity,
            p > 0,
    ;
    assert(q * p > 0) by (nonlinear_arith)
        requires
            0 < q,
            p > 0,
    ;
}

/// The trades of a buy request each hand the buyer a new stack of the
/// requested item, of the units traded and with the given durability, and
/// write the served listing back with only its quantity reduced by those
/// units; a buy listing the request posts is for the requested item at the
/// buyer's price, for the units not bought, holding their coins.
pub proof fn law_buy_plan_trades(
    plan: BuyOrderPlan,
    req: PlayerPostOrderRequest,
    building: MarketBuilding,
    sell_orders: Seq<AuctionListingState>,
    sorted: Seq<AuctionListingState>,
    actor_id: u64,
    durability: Option<i32>,
    timestamp: i64,
)
    requires
        forall|k: int| 0 <= k < sell_orders.len() ==> sell_listing_wf(#[trigger] sell_orders[k]),
        buy_request_error(req, Some(building)) is None,
        is_serving_order(buy_candidates(req, building.claim_entity_id, sell_orders), sorted, false),
        is_buy_plan(plan, req, sorted, actor_id, building.claim_entity_id, durability, timestamp),
    ensures
        plan.fills@.len() <= sorted.len(),
        forall|k: int|
            0 <= k < plan.fills@.len() ==> {
                let f = #[trigger] plan.fills@[k];
                &&& 0 < f.quantity <= sorted[k].quantity
                &&& f.buyer_items.owner_entity_id == actor_id
                &&& f.buyer_items.item_stack == (ItemStack {
                    item_id: req.item_id,
                    item_type: req.item_type,
                    quantity: f.quantity,
                    durability,
                })
                &&& f.listing == (AuctionListingState { quantity: (sorted[k].quantity - f.quantity) as i32, ..sorted[k] })
            },
        plan.outcome matches PostOutcome::Posted(d) ==> {
            &&& d.owner_entity_id == actor_id
            &&& d.claim_entity_id == building.claim_entity_id
            &&& d.item_id == req.item_id
            &&& d.item_type == spec_item_type_code(req.item_type)
            &&& d.price_threshold == req.max_unit_price
            &&& d.quantity == req.quantity - fills_quantity(plan.fills@)
            &&& d.stored_coins == d.quantity * req.max_unit_price
        },
{
    lemma_buy_plan_facts(plan, req, building, sell_orders, sorted, actor_id, durability, timestamp);
    let qs = buy_quantities(req, sorted);
    assert forall|k: int| 0 <= k < plan.fills@.len() implies {
        let f = #[trigger] plan.fills@[k];
        &&& 0 < f.quantity <= sorted[k].quantity
        &&& f.buyer_items.owner_entity_id == actor_id
        &&& f.buyer_items.item_stack == (ItemStack {
            item_id: req.item_id,
            item_type: req.item_type,
            quantity: f.quantity,
            durability,
        })
        &&& f.listing == (AuctionListingState { quantity: (sorted[k].quantity - f.quantity) as i32, ..sorted[k] })
    } by {
        assert(0 < qs[k] <= sorted[k].quantity);
        assert(sell_listing_wf(sorted[k]));
        lemma_buy_fill_bounds(sorted, 0, req.coins_spent as int, req.quantity as int, req.max_unit_price as int);
        assert(sorted.subrange(0, sorted.len() as int) =~= sorted);
        law_buy_fill_exact(
            sorted[k],
            qs[k],
            actor_id,
            building.claim_entity_id,
            crate::orders::request_item(req, durability),
            timestamp,
        );
    }
    if plan.outcome is Posted {
        let p = req.max_unit_price as int;
        let r = req.quantity - total_quantity(qs);
        assert(0 < r <= req.quantity);
        assert(r * p <= req.quantity * p) by (nonlinear_arith)
            requires
                0 < r <= req.quantity,
                p > 0,
        ;
    }
}

/// The trades of a sell request each hand the buy listing's owner a new
/// stack of the requested item, of the units traded and with the given
/// durability, and write the served listing back with only its quantity and
/// coins reduced; a sell listing the request posts is for the requested
/// item at the seller's price, for the units not sold, holding no coins.
pub proof fn law_sell_plan_trades(
    plan: SellOrderPlan,
    req: PlayerPostOrderRequest,
    building: MarketBuilding,
    buy_orders: Seq<AuctionListingState>,
    sorted: Seq<AuctionListingState>,
    actor_id: u64,
    durability: Option<i32>,
    timestamp: i64,
)
    requires
        forall|k: int| 0 <= k < buy_orders.len() ==> buy_listing_wf(#[trigger] buy_orders[k]),
        sell_request_error(req, Some(building)) is None,
        is_serving_order(sell_candidates(req, building.claim_entity_id, buy_orders), sorted, true),
        is_sell_plan(plan, req, sorted, actor_id, building.claim_entity_id, durability, timestamp),
    ensures
        plan.fills@.len() <= sorted.len(),
        forall|k: int|
            0 <= k < plan.fills@.len() ==> {
                let f = #[trigger] plan.fills@[k];
                &&& 0 < f.quantity <= sorted[k].quantity
                &&& f.buyer_items.owner_entity_id == sorted[k].owner_entity_id
                &&& f.buyer_items.item_stack == (ItemStack {
                    item_id: req.item_id,
                    item_type: req.item_type,
                    quantity: f.quantity,
                    durability,
                })
                &&& f.seller_coins.owner_entity_id == actor_id
                &&& f.seller_coins.item_stack.quantity == f.quantity * sorted[k].price_threshold
                &&& f.listing == (AuctionListingState {
                    quantity: (sorted[k].quantity - f.quantity) as i32,
                    stored_coins: (sorted[k].stored_coins - f.seller_coins.item_stack.quantity) as i32,
                    ..sorted[k]
                })
            },
        plan.posted is Some <==> req.persist_order && fills_quantity(plan.fills@) < req.quantity,
        plan.posted matches Some(d) ==> {
            &&& d.owner_entity_id == actor_id
            &&& d.claim_entity_id == building.claim_entity_id
            &&& d.item_id == req.item_id
            &&& d.item_type == spec_item_type_code(req.item_type)
            &&& d.price_threshold == req.max_unit_price
            &&& d.quantity == req.quantity - fills_quantity(plan.fills@)
            &&& d.stored_coins == 0
        },
{
    lemma_sell_plan_facts(plan, req, building, buy_orders, sorted, actor_id, durability, timestamp);
    let qs = sell_quantities(req, sorted);
    assert forall|k: int| 0 <= k < plan.fills@.len() implies {
        let f = #[trigger] plan.fills@[k];
        &&& 0 < f.quantity <= sorted[k].quantity
        &&& f.buyer_items.owner_entity_id == sorted[k].owner_entity_id
        &&& f.buyer_items.item_stack == (ItemStack {
            item_id: req.item_id,
            item_type: req.item_type,
            quantity: f.quantity,
            durability,
        })
        &&& f.seller_coins.owner_entity_id == actor_id
        &&& f.seller_coins.item_stack.quantity == f.quantity * sorted[k].price_threshold
        &&& f.listing == (AuctionListingState {
            quantity: (sorted[k].quantity - f.quantity) as i32,
            stored_coins: (sorted[k].stored_coins - f.seller_coins.item_stack.quantity) as i32,
            ..sorted[k]
        })
    } by {
        assert(0 < qs[k] <= sorted[k].quantity);
        assert(buy_listing_wf(sorted[k]));
        law_sell_fill_exact(
            sorted[k],
            qs[k],
            actor_id,
            building.claim_entity_id,
            crate::orders::request_item(req, durability),
            timestamp,
        );
    }
}

/// A market request is refused, before any trade, when it offers hex coins
/// themselves, a quantity or unit price that is not positive, or (to buy)
/// coins that are not the unit price times the quantity, or when the market
/// building is missing or more than 2 away; otherwise it goes ahead.
pub proof fn law_order_refusals(req: PlayerPostOrderRequest, building: Option<MarketBuilding>)
    ensures
        ({
            let coins_item = req.item_id == HEX_COIN_ITEM_ID && req.item_type == ItemType::Item;
            let basic_ok = !coins_item && req.quantity > 0 && req.max_unit_price > 0;
            let site_ok = building is Some && building.unwrap().distance <= 2;
            &&& sell_request_error(req, building) is None <==> basic_ok && site_ok
            &&& buy_request_error(req, building) is None <==> basic_ok && req.coins_spent == req.max_unit_price
                * req.quantity && site_ok
            &&& coins_item ==> sell_request_error(req, building) == Some(OrderError::InvalidOrder)
                && buy_request_error(req, building) == Some(OrderError::InvalidOrder)
            &&& !coins_item && req.quantity <= 0 ==> sell_request_error(req, building) == Some(
                OrderError::InvalidQuantity,
            ) && buy_request_error(req, building) == Some(OrderError::InvalidQuantity)
            &&& !coins_item && req.quantity > 0 && req.max_unit_price <= 0 ==> sell_request_error(req, building)
                == Some(OrderError::InvalidCoins) && buy_request_error(req, building) == Some(OrderError::InvalidCoins)
            &&& basic_ok && building is None ==> sell_request_error(req, building) == Some(OrderError::BuildingMissing)
            &&& basic_ok && building is Some && building.unwrap().distance > 2 ==> sell_request_error(req, building)
                == Some(OrderError::TooFar)
            &&& basic_ok && req.coins_spent != req.max_unit_price * req.quantity ==> (buy_request_error(req, building)
                == Some(OrderError::Overflow) || buy_request_error(req, building) == Some(OrderError::CoinsMismatch))
        }),
{
}

/// A buyer who put up the coins for all it wants at its price limit buys
/// all it can: of `need` units from listings that each hold some units at a
/// price within the limit, it buys `need` or all the units listed,
/// whichever is less.
pub proof fn law_buy_gets_what_it_can(
    listings: Seq<AuctionListingState>,
    i: int,
    budget: int,
    need: int,
    max_price: int,
)
    requires
        need > 0,
        0 <= i,
        budget >= need * max_price,
        forall|k: int|
            0 <= k < listings.len() ==> (#[trigger] listings[k]).quantity > 0 && 0 < listings[k].price_threshold
                <= max_price,
    ensures
        total_quantity(buy_fill_quantities(listings, i, budget, need)) == min_int(need, listed_quantity(listings, i)),
        listed_quantity(listings, i) >= 0,
    decreases listings.len() - i,
{
    if i < listings.len() {
        let l = listings[i];
        let p = l.price_threshold as int;
        assert(need * p <= need * max_price) by (nonlinear_arith)
            requires
                need > 0,
                0 < p <= max_price,
        ;
        assert(budget / p >= need) by (nonlinear_arith)
            requires
                budget >= need * p,
                p > 0,
                need > 0,
        ;
        let q = buy_fill_quantity(l, budget, need);
        assert(q == min_int(l.quantity as int, need));
        if need - q <= 0 {
            law_buy_gets_what_it_can(listings, i + 1, budget, need, max_price);
            lemma_total_quantity_prepend(q, Seq::<int>::empty());
            assert(seq![q] =~= seq![q] + Seq::<int>::empty());
        } else {
            assert(budget - q * p >= (need - q) * max_price) by (nonlinear_arith)
                requires
                    budget >= need * max_price,
                    0 < q < need,
                    0 < p <= max_price,
            ;
            law_buy_gets_what_it_can(listings, i + 1, budget - q * p, need - q, max_price);
            lemma_total_quantity_prepend(q, buy_fill_quantities(listings, i + 1, budget - q * p, need - q));
        }
    } else {
        law_sell_sells_what_it_can(listings, i, need);
        assert(buy_fill_quantities(listings, i, budget, need) =~= Seq::<int>::empty());
    }
}

} // verus!
