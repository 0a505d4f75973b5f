use vstd::prelude::*;

use crate::events::{MarketOrderType, MarketTradeEvent};
use crate::items::{item_type_code, spec_item_type_code, ItemStack};

verus! {

/// A buy or sell listing on a claim's market.
#[derive(Clone, Copy, Debug, PartialEq, Eq, Structural)]
pub struct AuctionListingState {
    pub entity_id: u64,
    pub owner_entity_id: u64,
    pub claim_entity_id: u64,
    pub item_id: i32,
    /// The item type's code (see `item_type_code`).
    pub item_type: i32,
    /// Unit price: the highest a buyer pays, or the lowest a seller takes.
    pub price_threshold: i32,
    pub quantity: i32,
    /// Microseconds since the Unix epoch.
    pub timestamp: i64,
    /// Coins held by a buy listing for its unfilled part (0 for sell listings).
    pub stored_coins: i32,
}

/// What every sell listing row satisfies: posting one requires a positive
/// quantity and unit price, and one whose quantity reaches zero is deleted.
pub open spec fn sell_listing_wf(l: AuctionListingState) -> bool {
    l.quantity > 0 && l.price_threshold > 0
}

/// What every buy listing row satisfies: posting one requires a positive
/// quantity and unit price whose product fits in an `i32`, and makes it hold
/// that product in coins; one whose quantity reaches zero is deleted.
pub open spec fn buy_listing_wf(l: AuctionListingState) -> bool {
    &&& l.quantity > 0
    &&& l.price_threshold > 0
    &&& l.quantity * l.price_threshold <= i32::MAX
    &&& l.stored_coins >= 0
}

/// Whether listing `a` is served before listing `b`: better price first
/// (lowest for sell listings, highest for buy listings), then the older one.
pub open spec fn listing_precedes(a: AuctionListingState, b: AuctionListingState, highest_price_first: bool) -> bool {
    if a.price_threshold != b.price_threshold {
        if highest_price_first {
            a.price_threshold > b.price_threshold
        } else {
            a.price_threshold < b.price_threshold
        }
    } else {
        a.timestamp < b.timestamp
    }
}

/// `output` is `input` rearranged by `perm` (`output[i] == input[perm[i]]`)
/// into serving order; listings that neither precedes keep their relative order.
pub open spec fn is_serving_arrangement(
    input: Seq<AuctionListingState>,
    output: Seq<AuctionListingState>,
    perm: Seq<int>,
    highest_price_first: bool,
) -> bool {
    &&& output.len() == input.len()
    &&& perm.len() == input.len()
    &&& forall|i: int| 0 <= i < perm.len() ==> 0 <= #[trigger] perm[i] < input.len() && output[i] == input[perm[i]]
    &&& forall|i: int, j: int| 0 <= i < j < perm.len() ==> #[trigger] perm[i] != #[trigger] perm[j]
    &&& forall|i: int, j: int|
        0 <= i < j < output.len() ==> listing_precedes(#[trigger] output[i], #[trigger] output[j], highest_price_first) || (
        !listing_precedes(output[j], output[i], highest_price_first) && perm[i] < perm[j])
}

/// `output` is the stable sort of `input` into serving order.
pub open spec fn is_serving_order(
    input: Seq<AuctionListingState>,
    output: Seq<AuctionListingState>,
    highest_price_first: bool,
) -> bool {
    exists|perm: Seq<int>| is_serving_arrangement(input, output, perm, highest_price_first)
}

proof fn lemma_arrangement_covers(p: Seq<int>, n: int, v: int)
    requires
        p.len() == n,
        forall|i: int| 0 <= i < n ==> 0 <= #[trigger] p[i] < n,
        forall|i: int, j: int| 0 <= i < j < n ==> #[trigger] p[i] != #[trigger] p[j],
        0 <= v < n,
    ensures
        p.contains(v),
{
    assert(p.no_duplicates()) by {
        assert forall|i: int, j: int| 0 <= i < p.len() && 0 <= j < p.len() && i != j implies p[i] != p[j] by {
            if i < j {
            } else {
                assert(p[j] != p[i]);
            }
        }
    }
    p.unique_seq_to_set();
    vstd::seq_lib::seq_to_set_is_finite(p);
    vstd::set_lib::lemma_int_range(0, n);
    let range = vstd::set_lib::set_int_range(0, n);
    assert(p.to_set().subset_of(range)) by {
        assert forall|x: int| p.to_set().contains(x) implies range.contains(x) by {
            let i = choose|i: int| 0 <= i < p.len() && p[i] == x;
            assert(0 <= p[i] < n);
        }
    }
    vstd::set_lib::lemma_subset_equality(p.to_set(), range);
    assert(range.contains(v));
    assert(p.to_set().contains(v));
}

proof fn lemma_arrangements_agree_below(
    input: Seq<AuctionListingState>,
    o1: Seq<AuctionListingState>,
    p1: Seq<int>,
    o2: Seq<AuctionListingState>,
    p2: Seq<int>,
    h: bool,
    i: int,
)
    requires
        is_serving_arrangement(input, o1, p1, h),
        is_serving_arrangement(input, o2, p2, h),
        0 <= i <= input.len(),
    ensures
        forall|j: int| 0 <= j < i ==> p1[j] == p2[j],
    decreases i,
{
    if i > 0 {
        lemma_arrangements_agree_below(input, o1, p1, o2, p2, h, i - 1);
        let k = i - 1;
        let a = p1[k];
        let b = p2[k];
        if a != b {
            let n = input.len() as int;
            lemma_arrangement_covers(p1, n, b);
            lemma_arrangement_covers(p2, n, a);
            let j1 = choose|j: int| 0 <= j < p1.len() && p1[j] == b;
            let j2 = choose|j: int| 0 <= j < p2.len() && p2[j] == a;
            if j1 < k {
                assert(p2[j1] == b);
            }
            if j2 < k {
                assert(p1[j2] == a);
            }
            assert(j1 > k && j2 > k);
            assert(o1[k] == input[a] && o1[j1] == input[b]);
            assert(o2[k] == input[b] && o2[j2] == input[a]);
            assert(listing_precedes(o1[k], o1[j1], h) || (!listing_precedes(o1[j1], o1[k], h) && p1[k] < p1[j1]));
            assert(listing_precedes(o2[k], o2[j2], h) || (!listing_precedes(o2[j2], o2[k], h) && p2[k] < p2[j2]));
        }
    }
}

/// The serving order of a set of listings is determined: two arrangements of
/// the same listings in serving order are the same.
pub proof fn law_serving_order_unique(
    input: Seq<AuctionListingState>,
    o1: Seq<AuctionListingState>,
    o2: Seq<AuctionListingState>,
    highest_price_first: bool,
)
    requires
        is_serving_order(input, o1, highest_price_first),
        is_serving_order(input, o2, highest_price_first),
    ensures
        o1 == o2,
{
    let p1 = choose|p: Seq<int>| is_serving_arrangement(input, o1, p, highest_price_first);
    let p2 = choose|p: Seq<int>| is_serving_arrangement(input, o2, p, highest_price_first);
    lemma_arrangements_agree_below(input, o1, p1, o2, p2, highest_price_first, input.len() as int);
    assert forall|i: int| 0 <= i < o1.len() implies o1[i] == o2[i] by {
        assert(o1[i] == input[p1[i]]);
        assert(o2[i] == input[p2[i]]);
    }
    assert(o1 =~= o2);
}

/// Listings in serving order come best price first (highest for buy
/// listings, lowest for sell listings) and, at equal price, oldest first.
pub proof fn law_serving_order_sorted(
    input: Seq<AuctionListingState>,
    output: Seq<AuctionListingState>,
    highest_price_first: bool,
)
    requires
        is_serving_order(input, output, highest_price_first),
    ensures
        forall|i: int, j: int|
            0 <= i < j < output.len() ==> {
                &&& highest_price_first ==> (#[trigger] output[i]).price_threshold >= (#[trigger] output[j]).price_threshold
                &&& !highest_price_first ==> output[i].price_threshold <= output[j].price_threshold
                &&& output[i].price_threshold == output[j].price_threshold ==> output[i].timestamp <= output[j].timestamp
            },
{
    let perm = choose|perm: Seq<int>| is_serving_arrangement(input, output, perm, highest_price_first);
    assert forall|i: int, j: int| 0 <= i < j < output.len() implies {
        &&& highest_price_first ==> (#[trigger] output[i]).price_threshold >= (#[trigger] output[j]).price_threshold
        &&& !highest_price_first ==> output[i].price_threshold <= output[j].price_threshold
        &&& output[i].price_threshold == output[j].price_threshold ==> output[i].timestamp <= output[j].timestamp
    } by {
        assert(listing_precedes(output[i], output[j], highest_price_first) || (!listing_precedes(
            output[j],
            output[i],
            highest_price_first,
        ) && perm[i] < perm[j]));
    }
}

fn precedes(a: &AuctionListingState, b: &AuctionListingState, highest_price_first: bool) -> (r: bool)
    ensures
        r == listing_precedes(*a, *b, highest_price_first),
{
    if a.price_threshold != b.price_threshold {
        if highest_price_first {
            a.price_threshold > b.price_threshold
        } else {
            a.price_threshold < b.price_threshold
        }
    } else {
        a.timestamp < b.timestamp
    }
}

/// Stable sort of listings into serving order.
fn sort_for_serving(listings: &Vec<AuctionListingState>, highest_price_first: bool) -> (sorted: Vec<AuctionListingState>)
    ensures
        is_serving_order(listings@, sorted@, highest_price_first),
{
    let h = highest_price_first;
    let mut sorted: Vec<AuctionListingState> = Vec::new();
    let ghost mut perm: Seq<int> = Seq::empty();
    let n = listings.len();
    let mut idx: usize = 0;
    while idx < n
        invariant
            n == listings@.len(),
            idx <= n,
            is_serving_arrangement(listings@.take(idx as int), sorted@, perm, h),
        decreases n - idx,
    {
        let x = listings[idx];
        let mut k: usize = 0;
        while k < sorted.len() && !precedes(&x, &sorted[k], h)
            invariant
                k <= sorted@.len(),
                forall|t: int| 0 <= t < k ==> !listing_precedes(x, #[trigger] sorted@[t], h),
            decreases sorted@.len() - k,
        {
            k = k + 1;
        }
        let ghost s = sorted@;
        let ghost p = perm;
        let ghost prefix = listings@.take(idx as int);
        sorted.insert(k, x);
        proof {
            perm = p.insert(k as int, idx as int);
            s.insert_ensures(k as int, x);
            p.insert_ensures(k as int, idx as int);
            let s2 = sorted@;
            let prefix2 = listings@.take(idx + 1);
            assert forall|i: int| 0 <= i < perm.len() implies 0 <= #[trigger] perm[i] < prefix2.len()
                && s2[i] == prefix2[perm[i]] by {
                if i < k {
                } else if i == k {
                } else {
                    assert(perm[i] == p[i - 1]);
                    assert(s2[i] == s[i - 1]);
                }
            }
            assert forall|i: int, j: int| 0 <= i < j < perm.len() implies #[trigger] perm[i] != #[trigger] perm[j] by {
                if i == k {
                    assert(p[j - 1] < idx);
                } else if j == k {
                    assert(p[i] < idx);
                } else {
                    let i0 = if i < k { i } else { i - 1 };
                    let j0 = if j < k { j } else { j - 1 };
                    assert(perm[i] == p[i0]);
                    assert(perm[j] == p[j0]);
                }
            }
            assert forall|i: int, j: int| 0 <= i < j < s2.len() implies listing_precedes(
                #[trigger] s2[i],
                #[trigger] s2[j],
                h,
            ) || (!listing_precedes(s2[j], s2[i], h) && perm[i] < perm[j]) by {
                if j < k {
                    assert(s2[i] == s[i] && s2[j] == s[j]);
                    assert(listing_precedes(s[i], s[j], h) || (!listing_precedes(s[j], s[i], h) && p[i] < p[j]));
                } else if j == k {
                    assert(s2[i] == s[i]);
                    assert(!listing_precedes(x, s[i], h));
                    assert(p[i] < idx);
                } else if i < k {
                    assert(s2[i] == s[i] && s2[j] == s[j - 1]);
                    assert(listing_precedes(s[i], s[j - 1], h) || (!listing_precedes(s[j - 1], s[i], h) && p[i] < p[j - 1]));
                } else if i == k {
                    assert(s2[j] == s[j - 1]);
                    assert(listing_precedes(x, s[k as int], h));
                    if j - 1 > k {
                        assert(listing_precedes(s[k as int], s[j - 1], h) || (!listing_precedes(s[j - 1], s[k as int], h) && p[k as int] < p[j - 1]));
                    }
                } else {
                    assert(s2[i] == s[i - 1] && s2[j] == s[j - 1]);
                    assert(listing_precedes(s[i - 1], s[j - 1], h) || (!listing_precedes(s[j - 1], s[i - 1], h) && p[i - 1] < p[j - 1]));
                }
            }
            assert(is_serving_arrangement(prefix2, s2, perm, h));
        }
        idx = idx + 1;
    }
    proof {
        assert(listings@.take(n as int) =~= listings@);
    }
    sorted
}


/// Goods or coins set aside on a claim's market for their owner to collect.
#[derive(Clone, Copy, Debug, PartialEq, Eq, Structural)]
pub struct ClosedListing {
    pub owner_entity_id: u64,
    pub claim_entity_id: u64,
    pub item_stack: ItemStack,
    /// Microseconds since the Unix epoch.
    pub timestamp: i64,
}

/// One trade against an existing listing, with every row it writes, in the
/// order in which they are written: the buyer's goods, the seller's coins,
/// the trade event, then the listing update or, when `close_listing`, the
/// unspent coins of a closed buy listing followed by the listing's deletion.
#[derive(Clone, Copy, Debug, PartialEq, Eq, Structural)]
pub struct MarketFill {
    pub quantity: i32,
    pub buyer_items: ClosedListing,
    pub seller_coins: ClosedListing,
    pub event: MarketTradeEvent,
    /// The listing after the trade.
    pub listing: AuctionListingState,
    /// The listing is used up and is deleted rather than updated.
    pub close_listing: bool,
    pub left_over_coins: Option<ClosedListing>,
}

pub open spec fn min_int(a: int, b: int) -> int {
    if a <= b {
        a
    } else {
        b
    }
}

/// Sum of a sequence of quantities.
pub open spec fn total_quantity(qs: Seq<int>) -> int
    decreases qs.len(),
{
    if qs.len() == 0 {
        0
    } else {
        total_quantity(qs.drop_last()) + qs.last()
    }
}

/// Coins paid when `qs[k]` units are bought at `listings[k]`'s price, for each `k`.
pub open spec fn total_cost(listings: Seq<AuctionListingState>, qs: Seq<int>) -> int
    decreases qs.len(),
{
    if qs.len() == 0 {
        0
    } else {
        total_cost(listings, qs.drop_last()) + qs.last() * listings[qs.len() - 1].price_threshold
    }
}

pub proof fn lemma_totals_push(listings: Seq<AuctionListingState>, qs: Seq<int>, q: int)
    requires
        qs.len() < listings.len(),
    ensures
        total_quantity(qs.push(q)) == total_quantity(qs) + q,
        total_cost(listings, qs.push(q)) == total_cost(listings, qs) + q * listings[qs.len() as int].price_threshold,
{
    assert(qs.push(q).drop_last() =~= qs);
}

/// Whether listing `l` can take part in a trade of `item_id`/`item_type` on
/// claim `claim_entity_id` at the limit `price_threshold`: a buy listing
/// (`buy_listings`) must pay at least that much per unit, a sell listing
/// must ask at most that much.
pub open spec fn listing_matches(
    l: AuctionListingState,
    item_id: i32,
    item_type_code: i32,
    claim_entity_id: u64,
    price_threshold: i32,
    buy_listings: bool,
) -> bool {
    &&& l.item_id == item_id
    &&& l.item_type == item_type_code
    &&& l.claim_entity_id == claim_entity_id
    &&& if buy_listings {
        l.price_threshold >= price_threshold
    } else {
        l.price_threshold <= price_threshold
    }
}

pub open spec fn listing_match_pred(
    item_id: i32,
    item_type_code: i32,
    claim_entity_id: u64,
    price_threshold: i32,
    buy_listings: bool,
) -> spec_fn(AuctionListingState) -> bool {
    |l: AuctionListingState| listing_matches(l, item_id, item_type_code, claim_entity_id, price_threshold, buy_listings)
}

/// The listings, in their order in `listings`, that can take part in the trade.
pub open spec fn matching_listings(
    listings: Seq<AuctionListingState>,
    item_id: i32,
    item_type_code: i32,
    claim_entity_id: u64,
    price_threshold: i32,
    buy_listings: bool,
) -> Seq<AuctionListingState> {
    listings.filter(listing_match_pred(item_id, item_type_code, claim_entity_id, price_threshold, buy_listings))
}

/// Units bought from listing `l` with `budget` coins left and `need` units wanted.
pub open spec fn buy_fill_quantity(l: AuctionListingState, budget: int, need: int) -> int {
    min_int(min_int(l.quantity as int, budget / (l.price_threshold as int)), need)
}

/// Units bought from each of `listings[i..]` in turn, with `budget` coins and
/// `need` units wanted: the buyer stops at the first listing of which it can
/// buy nothing, or once nothing more is needed.
pub open spec fn buy_fill_quantities(listings: Seq<AuctionListingState>, i: int, budget: int, need: int) -> Seq<int>
    decreases listings.len() - i,
{
    if 0 <= i < listings.len() {
        let l = listings[i];
        let q = buy_fill_quantity(l, budget, need);
        if q <= 0 {
            Seq::empty()
        } else if need - q <= 0 {
            seq![q]
        } else {
            seq![q] + buy_fill_quantities(listings, i + 1, budget - q * l.price_threshold, need - q)
        }
    } else {
        Seq::empty()
    }
}

/// The trade in which `buyer_entity_id` buys `q` units of `item` from sell listing `l`.
pub open spec fn spec_buy_fill(
    l: AuctionListingState,
    q: int,
    buyer_entity_id: u64,
    claim_entity_id: u64,
    item: ItemStack,
    timestamp: i64,
) -> MarketFill {
    let remaining = (l.quantity - q) as i32;
    let coins = (q * l.price_threshold) as i32;
    MarketFill {
        quantity: q as i32,
        buyer_items: ClosedListing {
            owner_entity_id: buyer_entity_id,
            claim_entity_id,
            item_stack: ItemStack { quantity: q as i32, ..item },
            timestamp,
        },
        seller_coins: ClosedListing {
            owner_entity_id: l.owner_entity_id,
            claim_entity_id,
            item_stack: ItemStack::spec_hex_coins(coins),
            timestamp,
        },
        event: MarketTradeEvent {
            claim_entity_id,
            listing_entity_id: l.entity_id,
            listing_type: MarketOrderType::SellOrder,
            buyer_entity_id,
            seller_entity_id: l.owner_entity_id,
            item_id: item.item_id,
            item_type: item.item_type,
            quantity: q as i32,
            unit_price: l.price_threshold,
            total_coins: coins,
            listing_remaining_quantity: remaining,
            timestamp,
        },
        listing: AuctionListingState { quantity: remaining, ..l },
        close_listing: remaining <= 0,
        left_over_coins: None,
    }
}

/// The listings that can take part in the trade, in order.
fn filter_listings(
    listings: &Vec<AuctionListingState>,
    item_id: i32,
    item_type_code: i32,
    claim_entity_id: u64,
    price_threshold: i32,
    buy_listings: bool,
) -> (kept: Vec<AuctionListingState>)
    ensures
        kept@ == matching_listings(listings@, item_id, item_type_code, claim_entity_id, price_threshold, buy_listings),
{
    let ghost pred = listing_match_pred(item_id, item_type_code, claim_entity_id, price_threshold, buy_listings);
    let mut kept: Vec<AuctionListingState> = Vec::new();
    let n = listings.len();
    let mut i: usize = 0;
    while i < n
        invariant
            n == listings@.len(),
            i <= n,
            pred == listing_match_pred(item_id, item_type_code, claim_entity_id, price_threshold, buy_listings),
            kept@ == listings@.take(i as int).filter(pred),
        decreases n - i,
    {
        let l = listings[i];
        proof {
            assert(listings@.take(i + 1) =~= listings@.take(i as int).push(l));
            listings@.take(i as int).lemma_filter_push(l, pred);
        }
        let price_ok = if buy_listings {
            l.price_threshold >= price_threshold
        } else {
            l.price_threshold <= price_threshold
        };
        if l.item_id == item_id && l.item_type == item_type_code && l.claim_entity_id == claim_entity_id && price_ok {
            assert(pred(l));
            kept.push(l);
        } else {
            assert(!pred(l));
        }
        i = i + 1;
    }
    proof {
        assert(listings@.take(n as int) =~= listings@);
    }
    kept
}

/// Fills a buy request for `required_item` from the claim's sell listings
/// `sell_orders`, cheapest first (oldest first at equal price), paying at
/// most `price_threshold` per unit and spending at most `available_coins`
/// in all. `required_item.quantity` is reduced by the units bought and
/// `coins_spent` is raised by the coins paid. The buyer gets new stacks of
/// the item, which carry `durability`.
pub fn resolve_buy_order(
    sell_orders: &Vec<AuctionListingState>,
    owner_entity_id: u64,
    required_item: &mut ItemStack,
    claim_entity_id: u64,
    price_threshold: i32,
    available_coins: i32,
    coins_spent: &mut i32,
    durability: Option<i32>,
    timestamp: i64,
) -> (fills: Vec<MarketFill>)
    requires
        forall|k: int|
            0 <= k < sell_orders@.len() && listing_matches(
                #[trigger] sell_orders@[k],
                old(required_item).item_id,
                spec_item_type_code(old(required_item).item_type),
                claim_entity_id,
                price_threshold,
                false,
            ) ==> sell_orders@[k].price_threshold > 0,
        i32::MIN <= available_coins - *old(coins_spent) <= i32::MAX,
    ensures
        exists|sorted: Seq<AuctionListingState>|
            {
                let qs = buy_fill_quantities(
                    sorted,
                    0,
                    available_coins - *old(coins_spent),
                    old(required_item).quantity as int,
                );
                &&& #[trigger] is_serving_order(
                    matching_listings(
                        sell_orders@,
                        old(required_item).item_id,
                        spec_item_type_code(old(required_item).item_type),
                        claim_entity_id,
                        price_threshold,
                        false,
                    ),
                    sorted,
                    false,
                )
                &&& fills@.len() == qs.len()
                &&& forall|k: int|
                    0 <= k < qs.len() ==> #[trigger] fills@[k] == spec_buy_fill(
                        sorted[k],
                        qs[k],
                        owner_entity_id,
                        claim_entity_id,
                        ItemStack { durability, ..*old(required_item) },
                        timestamp,
                    )
                &&& final(required_item).quantity == old(required_item).quantity - total_quantity(qs)
                &&& *final(coins_spent) == *old(coins_spent) + total_cost(sorted, qs)
            },
        *final(required_item) == (ItemStack { quantity: final(required_item).quantity, ..*old(required_item) }),
{
    let ghost item0 = *required_item;
    let ghost spent0 = *coins_spent;
    let ghost budget0 = available_coins - spent0;
    let ghost need0 = item0.quantity as int;
    let code = item_type_code(required_item.item_type);
    let matching = filter_listings(sell_orders, required_item.item_id, code, claim_entity_id, price_threshold, false);
    let ghost pred = listing_match_pred(item0.item_id, spec_item_type_code(item0.item_type), claim_entity_id, price_threshold, false);
    let sorted = sort_for_serving(&matching, false);
    proof {
        lemma_served_listings(
            sell_orders@,
            item0.item_id,
            spec_item_type_code(item0.item_type),
            claim_entity_id,
            price_threshold,
            false,
            sorted@,
            false,
        );
        assert forall|k: int| 0 <= k < sorted@.len() implies (#[trigger] sorted@[k]).price_threshold > 0 by {
            assert(sell_orders@.contains(sorted@[k]));
            let j = choose|j: int| 0 <= j < sell_orders@.len() && sell_orders@[j] == sorted@[k];
            assert(listing_matches(
                sell_orders@[j],
                item0.item_id,
                spec_item_type_code(item0.item_type),
                claim_entity_id,
                price_threshold,
                false,
            ));
        }
    }
    let ghost total = buy_fill_quantities(sorted@, 0, budget0, need0);
    let ghost mut done: Seq<int> = Seq::empty();
    let mut fills: Vec<MarketFill> = Vec::new();
    let n = sorted.len();
    let mut i: usize = 0;
    let mut stop = false;
    while i < n && !stop
        invariant
            n == sorted@.len(),
            i <= n,
            forall|k: int| 0 <= k < sorted@.len() ==> (#[trigger] sorted@[k]).price_threshold > 0,
            fills@.len() == i,
            done.len() == i,
            total == done + (if stop {
                Seq::<int>::empty()
            } else {
                buy_fill_quantities(sorted@, i as int, available_coins - *coins_spent, required_item.quantity as int)
            }),
            forall|k: int|
                0 <= k < i ==> #[trigger] fills@[k] == spec_buy_fill(
                    sorted@[k],
                    done[k],
                    owner_entity_id,
                    claim_entity_id,
                    ItemStack { durability, ..item0 },
                    timestamp,
                ),
            required_item.quantity == need0 - total_quantity(done),
            *coins_spent == spent0 + total_cost(sorted@, done),
            *required_item == (ItemStack { quantity: required_item.quantity, ..item0 }),
            i32::MIN <= available_coins - *coins_spent <= i32::MAX,
        decreases n - i + (if stop { 0int } else { 1int }),
    {
        let l = sorted[i];
        let remaining_budget = available_coins - *coins_spent;
        let by_budget = if remaining_budget > 0 {
            remaining_budget / l.price_threshold
        } else {
            0
        };
        let mut q = l.quantity;
        if by_budget < q {
            q = by_budget;
        }
        if required_item.quantity < q {
            q = required_item.quantity;
        }
        let ghost budget = remaining_budget as int;
        let ghost need = required_item.quantity as int;
        proof {
            let p = l.price_threshold as int;
            if budget <= 0 {
                assert(budget / p <= 0) by (nonlinear_arith)
                    requires
                        budget <= 0,
                        p > 0,
                ;
            }
        }
        if q <= 0 {
            proof {
                assert(buy_fill_quantity(l, budget, need) <= 0);
            }
            stop = true;
        } else {
            proof {
                assert(budget > 0);
                assert(q == buy_fill_quantity(l, budget, need));
                let p = l.price_threshold as int;
                assert(q * p <= budget) by (nonlinear_arith)
                    requires
                        q <= budget / p,
                        budget > 0,
                        p > 0,
                        q > 0,
                ;
                lemma_totals_push(sorted@, done, q as int);
            }
            required_item.quantity = required_item.quantity - q;
            let coins = q * l.price_threshold;
            *coins_spent = *coins_spent + coins;
            let remaining = l.quantity - q;
            let listing = AuctionListingState { quantity: remaining, ..l };
            let fill = MarketFill {
                quantity: q,
                buyer_items: ClosedListing {
                    owner_entity_id,
                    claim_entity_id,
                    item_stack: ItemStack { quantity: q, durability, ..*required_item },
                    timestamp,
                },
                seller_coins: ClosedListing {
                    owner_entity_id: l.owner_entity_id,
                    claim_entity_id,
                    item_stack: ItemStack::hex_coins(coins),
                    timestamp,
                },
                event: MarketTradeEvent {
                    claim_entity_id,
                    listing_entity_id: l.entity_id,
                    listing_type: MarketOrderType::SellOrder,
                    buyer_entity_id: owner_entity_id,
                    seller_entity_id: l.owner_entity_id,
                    item_id: required_item.item_id,
                    item_type: required_item.item_type,
                    quantity: q,
                    unit_price: l.price_threshold,
                    total_coins: coins,
                    listing_remaining_quantity: remaining,
                    timestamp,
                },
                listing,
                close_listing: remaining <= 0,
                left_over_coins: None,
            };
            fills.push(fill);
            proof {
                done = done.push(q as int);
                assert(fills@[i as int] == spec_buy_fill(sorted@[i as int], done[i as int], owner_entity_id, claim_entity_id, ItemStack { durability, ..item0 }, timestamp));
            }
            i = i + 1;
            if required_item.quantity <= 0 {
                stop = true;
            }
        }
    }
    proof {
        assert(total == done);
    }
    fills
}

/// Every listing served in a trade is one of the candidates and matches the trade.
pub proof fn lemma_served_listings(
    candidates: Seq<AuctionListingState>,
    item_id: i32,
    item_type_code: i32,
    claim_entity_id: u64,
    price_threshold: i32,
    buy_listings: bool,
    sorted: Seq<AuctionListingState>,
    highest_price_first: bool,
)
    requires
        is_serving_order(
            matching_listings(candidates, item_id, item_type_code, claim_entity_id, price_threshold, buy_listings),
            sorted,
            highest_price_first,
        ),
    ensures
        forall|k: int|
            0 <= k < sorted.len() ==> candidates.contains(#[trigger] sorted[k]) && listing_matches(
                sorted[k],
                item_id,
                item_type_code,
                claim_entity_id,
                price_threshold,
                buy_listings,
            ),
{
    let pred = listing_match_pred(item_id, item_type_code, claim_entity_id, price_threshold, buy_listings);
    let matching = candidates.filter(pred);
    let perm = choose|perm: Seq<int>| is_serving_arrangement(matching, sorted, perm, highest_price_first);
    assert forall|k: int| 0 <= k < sorted.len() implies candidates.contains(#[trigger] sorted[k]) && listing_matches(
        sorted[k],
        item_id,
        item_type_code,
        claim_entity_id,
        price_threshold,
        buy_listings,
    ) by {
        let j = perm[k];
        assert(sorted[k] == matching[j]);
        assert(matching.contains(matching[j]));
        candidates.lemma_filter_contains_rev(pred, matching[j]);
        candidates.lemma_filter_pred(pred, j);
    }
}

/// Whether the arithmetic of a sale of `need` units into buy listing `l` fits
/// in `i32` when `need` is not positive (a positive `need` always fits).
pub open spec fn sale_fits(l: AuctionListingState, need: int) -> bool {
    need > 0 || {
        &&& need * l.price_threshold >= i32::MIN
        &&& l.quantity - need <= i32::MAX
        &&& l.stored_coins - need * l.price_threshold <= i32::MAX
    }
}

/// Units sold into each of `listings[i..]` in turn with `need` units to
/// sell: each listing takes what it can, until nothing is left to sell.
pub open spec fn sell_fill_quantities(listings: Seq<AuctionListingState>, i: int, need: int) -> Seq<int>
    decreases listings.len() - i,
{
    if 0 <= i < listings.len() {
        let q = min_int(listings[i].quantity as int, need);
        if need - q <= 0 {
            seq![q]
        } else {
            seq![q] + sell_fill_quantities(listings, i + 1, need - q)
        }
    } else {
        Seq::empty()
    }
}

/// The trade in which `seller_entity_id` sells `q` units of `item` into buy listing `l`.
pub open spec fn spec_sell_fill(
    l: AuctionListingState,
    q: int,
    seller_entity_id: u64,
    claim_entity_id: u64,
    item: ItemStack,
    timestamp: i64,
) -> MarketFill {
    let remaining = (l.quantity - q) as i32;
    let coins = (q * l.price_threshold) as i32;
    let stored = (l.stored_coins - coins) as i32;
    MarketFill {
        quantity: q as i32,
        buyer_items: ClosedListing {
            owner_entity_id: l.owner_entity_id,
            claim_entity_id,
            item_stack: ItemStack { quantity: q as i32, ..item },
            timestamp,
        },
        seller_coins: ClosedListing {
            owner_entity_id: seller_entity_id,
            claim_entity_id,
            item_stack: ItemStack::spec_hex_coins(coins),
            timestamp,
        },
        event: MarketTradeEvent {
            claim_entity_id,
            listing_entity_id: l.entity_id,
            listing_type: MarketOrderType::BuyOrder,
            buyer_entity_id: l.owner_entity_id,
            seller_entity_id,
            item_id: item.item_id,
            item_type: item.item_type,
            quantity: q as i32,
            unit_price: l.price_threshold,
            total_coins: coins,
            listing_remaining_quantity: remaining,
            timestamp,
        },
        listing: AuctionListingState { quantity: remaining, stored_coins: stored, ..l },
        close_listing: remaining <= 0,
        left_over_coins: if remaining <= 0 && stored > 0 {
            Some(
                ClosedListing {
                    owner_entity_id: l.owner_entity_id,
                    claim_entity_id,
                    item_stack: ItemStack::spec_hex_coins(stored),
                    timestamp,
                },
            )
        } else {
            None
        },
    }
}

/// Fills a sell request for `required_item` from the claim's buy listings
/// `buy_orders`, best paying first (oldest first at equal price), taking no
/// less than `price_threshold` per unit. `required_item.quantity` is
/// reduced by the units sold. A buy listing that is used up returns its
/// unspent coins to its owner. The buyers get new stacks of the item, which
/// carry `durability`.
pub fn resolve_sell_order(
    buy_orders: &Vec<AuctionListingState>,
    owner_entity_id: u64,
    required_item: &mut ItemStack,
    claim_entity_id: u64,
    price_threshold: i32,
    durability: Option<i32>,
    timestamp: i64,
) -> (fills: Vec<MarketFill>)
    requires
        forall|k: int|
            0 <= k < buy_orders@.len() && listing_matches(
                #[trigger] buy_orders@[k],
                old(required_item).item_id,
                spec_item_type_code(old(required_item).item_type),
                claim_entity_id,
                price_threshold,
                true,
            ) ==> buy_listing_wf(buy_orders@[k]) && sale_fits(buy_orders@[k], old(required_item).quantity as int),
    ensures
        exists|sorted: Seq<AuctionListingState>|
            {
                let qs = sell_fill_quantities(sorted, 0, old(required_item).quantity as int);
                &&& #[trigger] is_serving_order(
                    matching_listings(
                        buy_orders@,
                        old(required_item).item_id,
                        spec_item_type_code(old(required_item).item_type),
                        claim_entity_id,
                        price_threshold,
                        true,
                    ),
                    sorted,
                    true,
                )
                &&& fills@.len() == qs.len()
                &&& forall|k: int|
                    0 <= k < qs.len() ==> #[trigger] fills@[k] == spec_sell_fill(
                        sorted[k],
                        qs[k],
                        owner_entity_id,
                        claim_entity_id,
                        ItemStack { durability, ..*old(required_item) },
                        timestamp,
                    )
                &&& final(required_item).quantity == old(required_item).quantity - total_quantity(qs)
            },
        *final(required_item) == (ItemStack { quantity: final(required_item).quantity, ..*old(required_item) }),
{
    let ghost item0 = *required_item;
    let ghost need0 = item0.quantity as int;
    let code = item_type_code(required_item.item_type);
    let matching = filter_listings(buy_orders, required_item.item_id, code, claim_entity_id, price_threshold, true);
    let sorted = sort_for_serving(&matching, true);
    proof {
        lemma_served_listings(
            buy_orders@,
            item0.item_id,
            spec_item_type_code(item0.item_type),
            claim_entity_id,
            price_threshold,
            true,
            sorted@,
            true,
        );
        assert forall|k: int| 0 <= k < sorted@.len() implies buy_listing_wf(#[trigger] sorted@[k]) && sale_fits(
            sorted@[k],
            need0,
        ) by {
            assert(buy_orders@.contains(sorted@[k]));
            let j = choose|j: int| 0 <= j < buy_orders@.len() && buy_orders@[j] == sorted@[k];
            assert(listing_matches(buy_orders@[j], item0.item_id, spec_item_type_code(item0.item_type), claim_entity_id, price_threshold, true));
        }
    }
    let ghost total = sell_fill_quantities(sorted@, 0, need0);
    let ghost mut done: Seq<int> = Seq::empty();
    let mut fills: Vec<MarketFill> = Vec::new();
    let n = sorted.len();
    let mut i: usize = 0;
    let mut stop = false;
    while i < n && !stop
        invariant
            n == sorted@.len(),
            i <= n,
            forall|k: int|
                0 <= k < sorted@.len() ==> buy_listing_wf(#[trigger] sorted@[k]) && sale_fits(sorted@[k], need0),
            fills@.len() == i,
            done.len() == i,
            total == done + (if stop {
                Seq::<int>::empty()
            } else {
                sell_fill_quantities(sorted@, i as int, required_item.quantity as int)
            }),
            forall|k: int|
                0 <= k < i ==> #[trigger] fills@[k] == spec_sell_fill(
                    sorted@[k],
                    done[k],
                    owner_entity_id,
                    claim_entity_id,
                    ItemStack { durability, ..item0 },
                    timestamp,
                ),
            required_item.quantity == need0 - total_quantity(done),
            *required_item == (ItemStack { quantity: required_item.quantity, ..item0 }),
            i > 0 && !stop ==> required_item.quantity > 0,
            i == 0 ==> required_item.quantity == need0,
        decreases n - i,
    {
        let l = sorted[i];
        let q = if l.quantity < required_item.quantity {
            l.quantity
        } else {
            required_item.quantity
        };
        proof {
            lemma_totals_push(sorted@, done, q as int);
            let p = l.price_threshold as int;
            assert(buy_listing_wf(sorted@[i as int]) && sale_fits(sorted@[i as int], need0));
            if q <= 0 {
                assert(i == 0);
                assert(q == need0);
                assert(q * p <= 0) by (nonlinear_arith)
                    requires
                        q <= 0,
                        p > 0,
                ;
            }
            if q > 0 {
                assert(q * p <= l.quantity * p) by (nonlinear_arith)
                    requires
                        0 < q <= l.quantity,
                        p > 0,
                ;
                assert(q * p > 0) by (nonlinear_arith)
                    requires
                        q > 0,
                        p > 0,
                ;
            }
        }
        required_item.quantity = required_item.quantity - q;
        let coins = q * l.price_threshold;
        let remaining = l.quantity - q;
        let stored = l.stored_coins - coins;
        let listing = AuctionListingState { quantity: remaining, stored_coins: stored, ..l };
        let left_over_coins = if remaining <= 0 && stored > 0 {
            Some(
                ClosedListing {
                    owner_entity_id: l.owner_entity_id,
                    claim_entity_id,
                    item_stack: ItemStack::hex_coins(stored),
                    timestamp,
                },
            )
        } else {
            None
        };
        let fill = MarketFill {
            quantity: q,
            buyer_items: ClosedListing {
                owner_entity_id: l.owner_entity_id,
                claim_entity_id,
                item_stack: ItemStack { quantity: q, durability, ..*required_item },
                timestamp,
            },
            seller_coins: ClosedListing {
                owner_entity_id,
                claim_entity_id,
                item_stack: ItemStack::hex_coins(coins),
                timestamp,
            },
            event: MarketTradeEvent {
                claim_entity_id,
                listing_entity_id: l.entity_id,
                listing_type: MarketOrderType::BuyOrder,
                buyer_entity_id: l.owner_entity_id,
                seller_entity_id: owner_entity_id,
                item_id: required_item.item_id,
                item_type: required_item.item_type,
                quantity: q,
                unit_price: l.price_threshold,
                total_coins: coins,
                listing_remaining_quantity: remaining,
                timestamp,
            },
            listing,
            close_listing: remaining <= 0,
            left_over_coins,
        };
        fills.push(fill);
        proof {
            done = done.push(q as int);
            assert(fills@[i as int] == spec_sell_fill(
                sorted@[i as int],
                done[i as int],
                owner_entity_id,
                claim_entity_id,
                ItemStack { durability, ..item0 },
                timestamp,
            ));
        }
        i = i + 1;
        if required_item.quantity <= 0 {
            stop = true;
        }
    }
    proof {
        assert(total == done);
    }
    fills
}

pub proof fn lemma_total_quantity_prepend(q: int, rest: Seq<int>)
    ensures
        total_quantity(seq![q] + rest) == q + total_quantity(rest),
    decreases rest.len(),
{
    let s = seq![q] + rest;
    if rest.len() == 0 {
        assert(s.drop_last() =~= Seq::<int>::empty());
        assert(total_quantity(s.drop_last()) == 0);
        assert(total_quantity(rest) == 0);
    } else {
        assert(s.drop_last() =~= seq![q] + rest.drop_last());
        lemma_total_quantity_prepend(q, rest.drop_last());
        assert(s.last() == rest.last());
    }
}

pub proof fn lemma_total_cost_prepend(listings: Seq<AuctionListingState>, q: int, rest: Seq<int>)
    requires
        listings.len() >= rest.len() + 1,
    ensures
        total_cost(listings, seq![q] + rest) == q * listings[0].price_threshold + total_cost(
            listings.drop_first(),
            rest,
        ),
    decreases rest.len(),
{
    let s = seq![q] + rest;
    if rest.len() == 0 {
        assert(s.drop_last() =~= Seq::<int>::empty());
        assert(total_cost(listings, s.drop_last()) == 0);
        assert(total_cost(listings.drop_first(), rest) == 0);
    } else {
        assert(s.drop_last() =~= seq![q] + rest.drop_last());
        lemma_total_cost_prepend(listings, q, rest.drop_last());
        assert(s.last() == rest.last());
        assert(listings[rest.len() as int] == listings.drop_first()[rest.len() - 1]);
    }
}

/// Bounds on the trades of a buyer: each takes a positive quantity that the
/// listing holds, the units bought never exceed what was wanted, the coins
/// paid never exceed the budget nor the buyer's unit price limit.
pub proof fn lemma_buy_fill_bounds(
    listings: Seq<AuctionListingState>,
    i: int,
    budget: int,
    need: int,
    max_price: int,
)
    requires
        0 <= i <= listings.len(),
        forall|k: int|
            i <= k < listings.len() ==> 0 < (#[trigger] listings[k]).price_threshold <= max_price,
    ensures
        ({
            let qs = buy_fill_quantities(listings, i, budget, need);
            let rest = listings.subrange(i, listings.len() as int);
            &&& qs.len() <= rest.len()
            &&& forall|k: int| 0 <= k < qs.len() ==> 0 < #[trigger] qs[k] <= rest[k].quantity
            &&& forall|k: int| 0 <= k < qs.len() ==> 0 < #[trigger] qs[k] * rest[k].price_threshold <= budget
            &&& 0 <= total_quantity(qs)
            &&& qs.len() > 0 ==> total_quantity(qs) <= need
            &&& 0 <= total_cost(rest, qs) <= budget || qs.len() == 0
            &&& total_cost(rest, qs) <= total_quantity(qs) * max_price
        }),
    decreases listings.len() - i,
{
    let qs = buy_fill_quantities(listings, i, budget, need);
    let rest = listings.subrange(i, listings.len() as int);
    if i < listings.len() {
        let l = listings[i];
        let p = l.price_threshold as int;
        let q = buy_fill_quantity(l, budget, need);
        if q > 0 {
            assert(q * p <= budget) by (nonlinear_arith)
                requires
                    q <= budget / p,
                    p > 0,
                    q > 0,
            ;
            assert(q * p <= q * max_price) by (nonlinear_arith)
                requires
                    p <= max_price,
                    q > 0,
            ;
            assert(q * p > 0) by (nonlinear_arith)
                requires
                    p > 0,
                    q > 0,
            ;
            if need - q <= 0 {
                assert(qs == seq![q]);
                assert(qs =~= seq![q] + Seq::<int>::empty());
                lemma_total_quantity_prepend(q, Seq::empty());
                lemma_total_cost_prepend(rest, q, Seq::empty());
            } else {
                let tail = buy_fill_quantities(listings, i + 1, budget - q * p, need - q);
                lemma_buy_fill_bounds(listings, i + 1, budget - q * p, need - q, max_price);
                assert(qs == seq![q] + tail);
                assert(rest.drop_first() =~= listings.subrange(i + 1, listings.len() as int));
                lemma_total_quantity_prepend(q, tail);
                lemma_total_cost_prepend(rest, q, tail);
                assert forall|k: int| 0 <= k < qs.len() implies 0 < #[trigger] qs[k] <= rest[k].quantity by {
                    if k > 0 {
                        assert(qs[k] == tail[k - 1]);
                        assert(rest[k] == listings.subrange(i + 1, listings.len() as int)[k - 1]);
                    }
                }
                assert forall|k: int| 0 <= k < qs.len() implies 0 < #[trigger] qs[k] * rest[k].price_threshold
                    <= budget by {
                    if k > 0 {
                        assert(qs[k] == tail[k - 1]);
                        assert(rest[k] == listings.subrange(i + 1, listings.len() as int)[k - 1]);
                    }
                }
                assert(total_quantity(tail) * max_price + q * max_price == (total_quantity(tail) + q)
                    * max_price) by (nonlinear_arith);
            }
        }
    }
}

/// Bounds on the trades of a seller: each takes a positive quantity that the
/// listing holds, the units sold never exceed what was offered, and every
/// unit brings at least the seller's unit price limit.
pub proof fn lemma_sell_fill_bounds(listings: Seq<AuctionListingState>, i: int, need: int, min_price: int)
    requires
        0 <= i <= listings.len(),
        need > 0,
        forall|k: int|
            i <= k < listings.len() ==> min_price <= (#[trigger] listings[k]).price_threshold && 0
                < listings[k].quantity,
    ensures
        ({
            let qs = sell_fill_quantities(listings, i, need);
            let rest = listings.subrange(i, listings.len() as int);
            &&& qs.len() <= rest.len()
            &&& forall|k: int| 0 <= k < qs.len() ==> 0 < #[trigger] qs[k] <= rest[k].quantity
            &&& 0 <= total_quantity(qs) <= need
            &&& qs.len() < rest.len() ==> total_quantity(qs) == need
            &&& total_cost(rest, qs) >= total_quantity(qs) * min_price
        }),
    decreases listings.len() - i,
{
    let qs = sell_fill_quantities(listings, i, need);
    let rest = listings.subrange(i, listings.len() as int);
    if i < listings.len() {
        let l = listings[i];
        let p = l.price_threshold as int;
        let q = min_int(l.quantity as int, need);
        assert(q * p >= q * min_price) by (nonlinear_arith)
            requires
                p >= min_price,
                q > 0,
        ;
        if need - q <= 0 {
            assert(qs =~= seq![q] + Seq::<int>::empty());
            lemma_total_quantity_prepend(q, Seq::empty());
            lemma_total_cost_prepend(rest, q, Seq::empty());
        } else {
            let tail = sell_fill_quantities(listings, i + 1, need - q);
            lemma_sell_fill_bounds(listings, i + 1, need - q, min_price);
            assert(qs == seq![q] + tail);
            assert(rest.drop_first() =~= listings.subrange(i + 1, listings.len() as int));
            lemma_total_quantity_prepend(q, tail);
            lemma_total_cost_prepend(rest, q, tail);
            assert forall|k: int| 0 <= k < qs.len() implies 0 < #[trigger] qs[k] <= rest[k].quantity by {
                if k > 0 {
                    assert(qs[k] == tail[k - 1]);
                    assert(rest[k] == listings.subrange(i + 1, listings.len() as int)[k - 1]);
                }
            }
            assert(total_quantity(tail) * min_price + q * min_price == (total_quantity(tail) + q)
                * min_price) by (nonlinear_arith);
        }
    }
}

} // verus!
