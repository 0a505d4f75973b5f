use vstd::prelude::*;

use crate::items::{item_type_code, spec_item_type_code, ItemStack, ItemType, HEX_COIN_ITEM_ID};
use crate::market::{
    buy_fill_quantities, buy_listing_wf, is_serving_order, listing_matches, matching_listings, resolve_buy_order, resolve_sell_order,
    sell_fill_quantities, spec_buy_fill, spec_sell_fill, total_cost, total_quantity, AuctionListingState,
    ClosedListing, MarketFill, lemma_buy_fill_bounds, lemma_served_listings,
};

verus! {

/// A player's request to buy or sell on a claim's market.
#[derive(Clone, Copy, Debug, PartialEq, Eq, Structural)]
pub struct PlayerPostOrderRequest {
    pub building_entity_id: u64,
    pub item_id: i32,
    pub item_type: ItemType,
    pub max_unit_price: i32,
    pub quantity: i32,
    /// For a buy request: the coins the buyer puts up.
    pub coins_spent: i32,
    /// Whether what cannot be traded at once is posted as a listing.
    pub persist_order: bool,
}

/// The market building a request is made at, as seen from the player.
#[derive(Clone, Copy, Debug, PartialEq, Eq, Structural)]
pub struct MarketBuilding {
    pub claim_entity_id: u64,
    /// Distance from the player to the building.
    pub distance: i32,
}

/// Why a market request is refused.
#[derive(Clone, Copy, Debug, PartialEq, Eq, Structural)]
pub enum OrderError {
    InvalidOrder,
    InvalidQuantity,
    InvalidCoins,
    Overflow,
    CoinsMismatch,
    BuildingMissing,
    TooFar,
    NoLongerAvailable,
    IntegerOverflow,
}

impl OrderError {
    pub open spec fn spec_message(self) -> Seq<char> {
        match self {
            OrderError::InvalidOrder => "Invalid order"@,
            OrderError::InvalidQuantity => "Invalid quantity"@,
            OrderError::InvalidCoins => "Invalid coins"@,
            OrderError::Overflow => "overflow"@,
            OrderError::CoinsMismatch => "Coins don't match the offer"@,
            OrderError::BuildingMissing => "Building does not exist"@,
            OrderError::TooFar => "Too far"@,
            OrderError::NoLongerAvailable => "Items are no longer available for this price"@,
            OrderError::IntegerOverflow => "Integer overflow"@,
        }
    }

    /// The text shown to the player.
    pub fn message(&self) -> (msg: String)
        ensures
            msg@ == self.spec_message(),
    {
        let text = match self {
            OrderError::InvalidOrder => "Invalid order",
            OrderError::InvalidQuantity => "Invalid quantity",
            OrderError::InvalidCoins => "Invalid coins",
            OrderError::Overflow => "overflow",
            OrderError::CoinsMismatch => "Coins don't match the offer",
            OrderError::BuildingMissing => "Building does not exist",
            OrderError::TooFar => "Too far",
            OrderError::NoLongerAvailable => "Items are no longer available for this price",
            OrderError::IntegerOverflow => "Integer overflow",
        };
        String::from_str(text)
    }
}

/// A listing to be posted; its entity id is assigned when it is stored.
#[derive(Clone, Copy, Debug, PartialEq, Eq, Structural)]
pub struct ListingDraft {
    pub owner_entity_id: u64,
    pub claim_entity_id: u64,
    pub item_id: i32,
    pub item_type: i32,
    pub price_threshold: i32,
    pub quantity: i32,
    /// Microseconds since the Unix epoch.
    pub timestamp: i64,
    pub stored_coins: i32,
}

/// How a buy request ends once its trades are made and its coins withdrawn.
#[derive(Clone, Copy, Debug, PartialEq, Eq, Structural)]
pub enum PostOutcome {
    /// Everything requested was traded.
    Completed,
    /// The rest of the request is posted as a listing.
    Posted(ListingDraft),
    /// The request fails after all (and none of its writes stand).
    Failed(OrderError),
}

/// Everything a buy request does, in the order in which it is done:
/// the trades, the withdrawal of `coins_withdrawn` hex coins from the buyer,
/// the refund of coins not needed, then the outcome.
#[derive(Debug)]
pub struct BuyOrderPlan {
    pub claim_entity_id: u64,
    pub fills: Vec<MarketFill>,
    pub coins_withdrawn: i32,
    pub refund: Option<ClosedListing>,
    pub outcome: PostOutcome,
}

/// Everything a sell request does, in the order in which it is done:
/// the withdrawal of `items_withdrawn` from the seller, the trades, then the
/// listing for what is left, if any.
#[derive(Debug)]
pub struct SellOrderPlan {
    pub claim_entity_id: u64,
    pub items_withdrawn: ItemStack,
    pub fills: Vec<MarketFill>,
    pub posted: Option<ListingDraft>,
}

/// Largest distance from which a player can use a market building.
pub const MARKET_REACH: i32 = 2;

/// The checks shared by buy and sell requests, in order.
pub open spec fn request_error(req: PlayerPostOrderRequest) -> Option<OrderError> {
    if req.item_id == HEX_COIN_ITEM_ID && req.item_type == ItemType::Item {
        Some(OrderError::InvalidOrder)
    } else if req.quantity <= 0 {
        Some(OrderError::InvalidQuantity)
    } else if req.max_unit_price <= 0 {
        Some(OrderError::InvalidCoins)
    } else {
        None
    }
}

/// The building checks, in order.
pub open spec fn building_error(building: Option<MarketBuilding>) -> Option<OrderError> {
    match building {
        None => Some(OrderError::BuildingMissing),
        Some(b) => if b.distance > MARKET_REACH {
            Some(OrderError::TooFar)
        } else {
            None
        },
    }
}

/// Why a buy request is refused before any trade, if it is.
pub open spec fn buy_request_error(req: PlayerPostOrderRequest, building: Option<MarketBuilding>) -> Option<OrderError> {
    if request_error(req) is Some {
        request_error(req)
    } else if req.max_unit_price * req.quantity > i32::MAX {
        Some(OrderError::Overflow)
    } else if req.coins_spent != req.max_unit_price * req.quantity {
        Some(OrderError::CoinsMismatch)
    } else {
        building_error(building)
    }
}

/// Why a sell request is refused before any trade, if it is.
pub open spec fn sell_request_error(req: PlayerPostOrderRequest, building: Option<MarketBuilding>) -> Option<OrderError> {
    if request_error(req) is Some {
        request_error(req)
    } else {
        building_error(building)
    }
}

/// The stack a request trades.
pub open spec fn request_item(req: PlayerPostOrderRequest, durability: Option<i32>) -> ItemStack {
    ItemStack { item_id: req.item_id, item_type: req.item_type, quantity: req.quantity, durability }
}

/// The sell listings a buy request can buy from, in serving order.
pub open spec fn buy_candidates(req: PlayerPostOrderRequest, claim_entity_id: u64, sell_orders: Seq<AuctionListingState>) -> Seq<AuctionListingState> {
    matching_listings(sell_orders, req.item_id, spec_item_type_code(req.item_type), claim_entity_id, req.max_unit_price, false)
}

/// The buy listings a sell request can sell into.
pub open spec fn sell_candidates(req: PlayerPostOrderRequest, claim_entity_id: u64, buy_orders: Seq<AuctionListingState>) -> Seq<AuctionListingState> {
    matching_listings(buy_orders, req.item_id, spec_item_type_code(req.item_type), claim_entity_id, req.max_unit_price, true)
}

/// Units bought from each listing of `sorted`, in turn.
pub open spec fn buy_quantities(req: PlayerPostOrderRequest, sorted: Seq<AuctionListingState>) -> Seq<int> {
    buy_fill_quantities(sorted, 0, req.coins_spent as int, req.quantity as int)
}

/// Units of a buy request left unbought.
pub open spec fn buy_remaining(req: PlayerPostOrderRequest, sorted: Seq<AuctionListingState>) -> int {
    req.quantity - total_quantity(buy_quantities(req, sorted))
}

/// Coins a buy request pays to sellers.
pub open spec fn buy_paid(req: PlayerPostOrderRequest, sorted: Seq<AuctionListingState>) -> int {
    total_cost(sorted, buy_quantities(req, sorted))
}

/// Coins of a buy request that are returned to the buyer: for a persisted
/// request, what the bought units cost below the buyer's unit price; else
/// what was not spent.
pub open spec fn buy_savings(req: PlayerPostOrderRequest, sorted: Seq<AuctionListingState>) -> int {
    if req.persist_order {
        (req.quantity - buy_remaining(req, sorted)) * req.max_unit_price - buy_paid(req, sorted)
    } else {
        req.coins_spent - buy_paid(req, sorted)
    }
}

pub open spec fn spec_buy_fills(
    req: PlayerPostOrderRequest,
    sorted: Seq<AuctionListingState>,
    actor_id: u64,
    claim_entity_id: u64,
    durability: Option<i32>,
    timestamp: i64,
) -> Seq<MarketFill> {
    let qs = buy_quantities(req, sorted);
    Seq::new(
        qs.len(),
        |k: int| spec_buy_fill(sorted[k], qs[k], actor_id, claim_entity_id, request_item(req, durability), timestamp),
    )
}

pub open spec fn spec_buy_refund(
    req: PlayerPostOrderRequest,
    sorted: Seq<AuctionListingState>,
    actor_id: u64,
    claim_entity_id: u64,
    timestamp: i64,
) -> Option<ClosedListing> {
    let savings = buy_savings(req, sorted);
    if savings > 0 {
        Some(
            ClosedListing {
                owner_entity_id: actor_id,
                claim_entity_id,
                item_stack: ItemStack::spec_hex_coins(savings as i32),
                timestamp,
            },
        )
    } else {
        None
    }
}

pub open spec fn spec_buy_outcome(
    req: PlayerPostOrderRequest,
    sorted: Seq<AuctionListingState>,
    actor_id: u64,
    claim_entity_id: u64,
    timestamp: i64,
) -> PostOutcome {
    let remaining = buy_remaining(req, sorted);
    if remaining > 0 {
        if !req.persist_order {
            PostOutcome::Failed(OrderError::NoLongerAvailable)
        } else if req.coins_spent < 0 || buy_paid(req, sorted) < 0 {
            PostOutcome::Failed(OrderError::IntegerOverflow)
        } else {
            PostOutcome::Posted(
                ListingDraft {
                    owner_entity_id: actor_id,
                    claim_entity_id,
                    item_id: req.item_id,
                    item_type: spec_item_type_code(req.item_type),
                    price_threshold: req.max_unit_price,
                    quantity: remaining as i32,
                    timestamp,
                    stored_coins: (remaining * req.max_unit_price) as i32,
                },
            )
        }
    } else {
        PostOutcome::Completed
    }
}

/// `plan` is what buy request `req` does when the claim's sell listings are
/// served in the order `sorted`.
pub open spec fn is_buy_plan(
    plan: BuyOrderPlan,
    req: PlayerPostOrderRequest,
    sorted: Seq<AuctionListingState>,
    actor_id: u64,
    claim_entity_id: u64,
    durability: Option<i32>,
    timestamp: i64,
) -> bool {
    &&& plan.claim_entity_id == claim_entity_id
    &&& plan.fills@ == spec_buy_fills(req, sorted, actor_id, claim_entity_id, durability, timestamp)
    &&& plan.coins_withdrawn == req.coins_spent
    &&& plan.refund == spec_buy_refund(req, sorted, actor_id, claim_entity_id, timestamp)
    &&& plan.outcome == spec_buy_outcome(req, sorted, actor_id, claim_entity_id, timestamp)
}

fn check_request(req: &PlayerPostOrderRequest) -> (r: Result<(), OrderError>)
    ensures
        r is Ok <==> request_error(*req) is None,
        r matches Err(e) ==> request_error(*req) == Some(e),
{
    if req.item_id == HEX_COIN_ITEM_ID && req.item_type == ItemType::Item {
        return Err(OrderError::InvalidOrder);
    }
    if req.quantity <= 0 {
        return Err(OrderError::InvalidQuantity);
    }
    if req.max_unit_price <= 0 {
        return Err(OrderError::InvalidCoins);
    }
    Ok(())
}

fn check_building(building: Option<MarketBuilding>) -> (r: Result<MarketBuilding, OrderError>)
    ensures
        r is Ok <==> building_error(building) is None,
        r matches Err(e) ==> building_error(building) == Some(e),
        r matches Ok(b) ==> building == Some(b),
{
    match building {
        None => Err(OrderError::BuildingMissing),
        Some(b) => if b.distance > MARKET_REACH {
            Err(OrderError::TooFar)
        } else {
            Ok(b)
        },
    }
}

/// Plans a buy request: checks it, buys from the claim's sell listings
/// `sell_orders` (cheapest, then oldest, first) and settles the coins.
/// `durability` is the durability a new stack of the item carries.
pub fn order_post_buy_order(
    req: &PlayerPostOrderRequest,
    building: Option<MarketBuilding>,
    sell_orders: &Vec<AuctionListingState>,
    durability: Option<i32>,
    actor_id: u64,
    timestamp: i64,
) -> (r: Result<BuyOrderPlan, OrderError>)
    requires
        building matches Some(b) ==> forall|k: int|
            0 <= k < sell_orders@.len() && listing_matches(
                #[trigger] sell_orders@[k],
                req.item_id,
                spec_item_type_code(req.item_type),
                b.claim_entity_id,
                req.max_unit_price,
                false,
            ) ==> sell_orders@[k].price_threshold > 0,
    ensures
        r is Err <==> buy_request_error(*req, building) is Some,
        r matches Err(e) ==> buy_request_error(*req, building) == Some(e),
        r matches Ok(plan) ==> {
            &&& buy_request_error(*req, building) is None
            &&& building matches Some(b) && exists|sorted: Seq<AuctionListingState>|
                #[trigger] is_serving_order(buy_candidates(*req, b.claim_entity_id, sell_orders@), sorted, false)
                    && is_buy_plan(plan, *req, sorted, actor_id, b.claim_entity_id, durability, timestamp)
        },
{
    check_request(req)?;
    let total = match req.max_unit_price.checked_mul(req.quantity) {
        Some(t) => t,
        None => {
            return Err(OrderError::Overflow);
        },
    };
    if req.coins_spent != total {
        return Err(OrderError::CoinsMismatch);
    }
    let site = check_building(building)?;
    let claim_entity_id = site.claim_entity_id;
    let mut coins_spent: i32 = 0;
    let mut required_item = ItemStack {
        item_id: req.item_id,
        item_type: req.item_type,
        quantity: req.quantity,
        durability,
    };
    let available_coins = req.coins_spent;
    let fills = resolve_buy_order(
        sell_orders,
        actor_id,
        &mut required_item,
        claim_entity_id,
        req.max_unit_price,
        available_coins,
        &mut coins_spent,
        durability,
        timestamp,
    );
    let ghost sorted = choose|sorted: Seq<AuctionListingState>|
        {
            let qs = buy_fill_quantities(sorted, 0, available_coins as int, req.quantity as int);
            &&& #[trigger] is_serving_order(
                matching_listings(
                    sell_orders@,
                    req.item_id,
                    spec_item_type_code(req.item_type),
                    claim_entity_id,
                    req.max_unit_price,
                    false,
                ),
                sorted,
                false,
            )
            &&& fills@.len() == qs.len()
            &&& forall|k: int|
                0 <= k < qs.len() ==> #[trigger] fills@[k] == spec_buy_fill(
                    sorted[k],
                    qs[k],
                    actor_id,
                    claim_entity_id,
                    request_item(*req, durability),
                    timestamp,
                )
            &&& required_item.quantity == req.quantity - total_quantity(qs)
            &&& coins_spent == total_cost(sorted, qs)
        };
    proof {
        let qs = buy_quantities(*req, sorted);
        lemma_served_listings(
            sell_orders@,
            req.item_id,
            spec_item_type_code(req.item_type),
            claim_entity_id,
            req.max_unit_price,
            false,
            sorted,
            false,
        );
        assert forall|k: int| 0 <= k < sorted.len() implies 0 < (#[trigger] sorted[k]).price_threshold
            <= req.max_unit_price by {
            assert(sell_orders@.contains(sorted[k]));
            let j = choose|j: int| 0 <= j < sell_orders@.len() && sell_orders@[j] == sorted[k];
            assert(listing_matches(
                sell_orders@[j],
                req.item_id,
                spec_item_type_code(req.item_type),
                claim_entity_id,
                req.max_unit_price,
                false,
            ));
        }
        lemma_buy_fill_bounds(sorted, 0, available_coins as int, req.quantity as int, req.max_unit_price as int);
        assert(sorted.subrange(0, sorted.len() as int) =~= sorted);
        assert(fills@ =~= spec_buy_fills(*req, sorted, actor_id, claim_entity_id, durability, timestamp));
        assert((req.quantity - required_item.quantity) * req.max_unit_price <= req.quantity * req.max_unit_price)
            by (nonlinear_arith)
            requires
                0 <= req.quantity - required_item.quantity <= req.quantity,
                req.max_unit_price > 0,
        ;
        assert(0 <= (req.quantity - required_item.quantity) * req.max_unit_price) by (nonlinear_arith)
            requires
                0 <= req.quantity - required_item.quantity,
                req.max_unit_price > 0,
        ;
        assert(required_item.quantity * req.max_unit_price <= req.quantity * req.max_unit_price)
            by (nonlinear_arith)
            requires
                required_item.quantity <= req.quantity,
                req.max_unit_price > 0,
        ;
    }
    let savings = if req.persist_order {
        (req.quantity - required_item.quantity) * req.max_unit_price - coins_spent
    } else {
        available_coins - coins_spent
    };
    let refund = if savings > 0 {
        Some(
            ClosedListing {
                owner_entity_id: actor_id,
                claim_entity_id,
                item_stack: ItemStack::hex_coins(savings),
                timestamp,
            },
        )
    } else {
        None
    };
    let outcome = if required_item.quantity > 0 {
        if !req.persist_order {
            PostOutcome::Failed(OrderError::NoLongerAvailable)
        } else if available_coins < 0 || coins_spent < 0 {
            PostOutcome::Failed(OrderError::IntegerOverflow)
        } else {
            PostOutcome::Posted(
                ListingDraft {
                    owner_entity_id: actor_id,
                    claim_entity_id,
                    item_id: required_item.item_id,
                    item_type: item_type_code(required_item.item_type),
                    price_threshold: req.max_unit_price,
                    quantity: required_item.quantity,
                    timestamp,
                    stored_coins: required_item.quantity * req.max_unit_price,
                },
            )
        }
    } else {
        PostOutcome::Completed
    };
    let plan = BuyOrderPlan { claim_entity_id, fills, coins_withdrawn: available_coins, refund, outcome };
    proof {
        assert(is_buy_plan(plan, *req, sorted, actor_id, claim_entity_id, durability, timestamp));
        assert(is_serving_order(buy_candidates(*req, claim_entity_id, sell_orders@), sorted, false));
    }
    Ok(plan)
}

/// Units sold into each listing of `sorted`, in turn.
pub open spec fn sell_quantities(req: PlayerPostOrderRequest, sorted: Seq<AuctionListingState>) -> Seq<int> {
    sell_fill_quantities(sorted, 0, req.quantity as int)
}

/// Units of a sell request left unsold.
pub open spec fn sell_remaining(req: PlayerPostOrderRequest, sorted: Seq<AuctionListingState>) -> int {
    req.quantity - total_quantity(sell_quantities(req, sorted))
}

pub open spec fn spec_sell_fills(
    req: PlayerPostOrderRequest,
    sorted: Seq<AuctionListingState>,
    actor_id: u64,
    claim_entity_id: u64,
    durability: Option<i32>,
    timestamp: i64,
) -> Seq<MarketFill> {
    let qs = sell_quantities(req, sorted);
    Seq::new(
        qs.len(),
        |k: int| spec_sell_fill(sorted[k], qs[k], actor_id, claim_entity_id, request_item(req, durability), timestamp),
    )
}

pub open spec fn spec_sell_posted(
    req: PlayerPostOrderRequest,
    sorted: Seq<AuctionListingState>,
    actor_id: u64,
    claim_entity_id: u64,
    timestamp: i64,
) -> Option<ListingDraft> {
    let remaining = sell_remaining(req, sorted);
    if remaining > 0 && req.persist_order {
        Some(
            ListingDraft {
                owner_entity_id: actor_id,
                claim_entity_id,
                item_id: req.item_id,
                item_type: spec_item_type_code(req.item_type),
                price_threshold: req.max_unit_price,
                quantity: remaining as i32,
                timestamp,
                stored_coins: 0,
            },
        )
    } else {
        None
    }
}

/// `plan` is what sell request `req` does when the claim's buy listings are
/// served in the order `sorted`.
pub open spec fn is_sell_plan(
    plan: SellOrderPlan,
    req: PlayerPostOrderRequest,
    sorted: Seq<AuctionListingState>,
    actor_id: u64,
    claim_entity_id: u64,
    durability: Option<i32>,
    timestamp: i64,
) -> bool {
    &&& plan.claim_entity_id == claim_entity_id
    &&& plan.items_withdrawn == request_item(req, durability)
    &&& plan.fills@ == spec_sell_fills(req, sorted, actor_id, claim_entity_id, durability, timestamp)
    &&& plan.posted == spec_sell_posted(req, sorted, actor_id, claim_entity_id, timestamp)
}

/// Plans a sell request: checks it, sells into the claim's buy listings
/// `buy_orders` (best paying, then oldest, first) and posts what is left
/// when the request asks for it. `durability` is the durability a new stack
/// of the item carries.
pub fn order_post_sell_order(
    req: &PlayerPostOrderRequest,
    building: Option<MarketBuilding>,
    buy_orders: &Vec<AuctionListingState>,
    durability: Option<i32>,
    actor_id: u64,
    timestamp: i64,
) -> (r: Result<SellOrderPlan, OrderError>)
    requires
        building matches Some(b) ==> forall|k: int|
            0 <= k < buy_orders@.len() && listing_matches(
                #[trigger] buy_orders@[k],
                req.item_id,
                spec_item_type_code(req.item_type),
                b.claim_entity_id,
                req.max_unit_price,
                true,
            ) ==> buy_listing_wf(buy_orders@[k]),
    ensures
        r is Err <==> sell_request_error(*req, building) is Some,
        r matches Err(e) ==> sell_request_error(*req, building) == Some(e),
        r matches Ok(plan) ==> {
            &&& building matches Some(b) && exists|sorted: Seq<AuctionListingState>|
                #[trigger] is_serving_order(sell_candidates(*req, b.claim_entity_id, buy_orders@), sorted, true)
                    && is_sell_plan(plan, *req, sorted, actor_id, b.claim_entity_id, durability, timestamp)
        },
{
    check_request(req)?;
    let site = check_building(building)?;
    let claim_entity_id = site.claim_entity_id;
    let mut required_item = ItemStack {
        item_id: req.item_id,
        item_type: req.item_type,
        quantity: req.quantity,
        durability,
    };
    let items_withdrawn = required_item;
    let fills = resolve_sell_order(
        buy_orders,
        actor_id,
        &mut required_item,
        claim_entity_id,
        req.max_unit_price,
        durability,
        timestamp,
    );
    let ghost sorted = choose|sorted: Seq<AuctionListingState>|
        {
            let qs = sell_fill_quantities(sorted, 0, req.quantity as int);
            &&& #[trigger] is_serving_order(
                matching_listings(
                    buy_orders@,
                    req.item_id,
                    spec_item_type_code(req.item_type),
                    claim_entity_id,
                    req.max_unit_price,
                    true,
                ),
                sorted,
                true,
            )
            &&& fills@.len() == qs.len()
            &&& forall|k: int|
                0 <= k < qs.len() ==> #[trigger] fills@[k] == spec_sell_fill(
                    sorted[k],
                    qs[k],
                    actor_id,
                    claim_entity_id,
                    request_item(*req, durability),
                    timestamp,
                )
            &&& required_item.quantity == req.quantity - total_quantity(qs)
        };
    let posted = if required_item.quantity > 0 && req.persist_order {
        Some(
            ListingDraft {
                owner_entity_id: actor_id,
                claim_entity_id,
                item_id: required_item.item_id,
                item_type: item_type_code(required_item.item_type),
                price_threshold: req.max_unit_price,
                quantity: required_item.quantity,
                timestamp,
                stored_coins: 0,
            },
        )
    } else {
        None
    };
    let plan = SellOrderPlan { claim_entity_id, items_withdrawn, fills, posted };
    proof {
        assert(fills@ =~= spec_sell_fills(*req, sorted, actor_id, claim_entity_id, durability, timestamp));
        assert(is_sell_plan(plan, *req, sorted, actor_id, claim_entity_id, durability, timestamp));
        assert(is_serving_order(sell_candidates(*req, claim_entity_id, buy_orders@), sorted, true));
    }
    Ok(plan)
}

} // verus!
