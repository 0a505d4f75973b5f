use bitcraft_game::items::{ItemStack, ItemType, HEX_COIN_ITEM_ID};
use bitcraft_game::market::{resolve_buy_order, resolve_sell_order, AuctionListingState};
use bitcraft_game::orders::{
    order_post_buy_order, order_post_sell_order, MarketBuilding, OrderError, PlayerPostOrderRequest, PostOutcome,
};
use bitcraft_game::events::MarketOrderType;

const CLAIM: u64 = 77;
const ITEM: i32 = 500;
const BUYER: u64 = 1;
const SELLER: u64 = 2;
const NOW: i64 = 1_000_000;

fn listing(entity_id: u64, owner: u64, price: i32, quantity: i32, timestamp: i64, stored_coins: i32) -> AuctionListingState {
    AuctionListingState {
        entity_id,
        owner_entity_id: owner,
        claim_entity_id: CLAIM,
        item_id: ITEM,
        item_type: 0,
        price_threshold: price,
        quantity,
        timestamp,
        stored_coins,
    }
}

fn request(quantity: i32, max_unit_price: i32, coins_spent: i32, persist_order: bool) -> PlayerPostOrderRequest {
    PlayerPostOrderRequest {
        building_entity_id: 9,
        item_id: ITEM,
        item_type: ItemType::Item,
        max_unit_price,
        quantity,
        coins_spent,
        persist_order,
    }
}

fn site() -> Option<MarketBuilding> {
    Some(MarketBuilding { claim_entity_id: CLAIM, distance: 1 })
}

fn item(quantity: i32) -> ItemStack {
    ItemStack { item_id: ITEM, item_type: ItemType::Item, quantity, durability: None }
}

#[test]
fn buy_order_refunds_savings_and_posts_rest() {
    // 100 items at 10 coins each; 60 are sold at 4 coins, 40 stay on order at 10 each.
    let sell_orders = vec![listing(10, SELLER, 4, 60, 5, 0)];
    let plan = order_post_buy_order(&request(100, 10, 1000, true), site(), &sell_orders, None, BUYER, NOW).unwrap();
    assert_eq!(plan.claim_entity_id, CLAIM);
    assert_eq!(plan.fills.len(), 1);
    let fill = &plan.fills[0];
    assert_eq!(fill.quantity, 60);
    assert_eq!(fill.seller_coins.item_stack, ItemStack::hex_coins(240));
    assert_eq!(fill.seller_coins.owner_entity_id, SELLER);
    assert_eq!(fill.buyer_items.item_stack, item(60));
    assert_eq!(fill.buyer_items.owner_entity_id, BUYER);
    assert!(fill.close_listing);
    assert_eq!(fill.listing.quantity, 0);
    assert_eq!(fill.event.listing_type, MarketOrderType::SellOrder);
    assert_eq!(fill.event.total_coins, 240);
    assert_eq!(fill.event.unit_price, 4);
    assert_eq!(plan.coins_withdrawn, 1000);
    let refund = plan.refund.unwrap();
    assert_eq!(refund.item_stack, ItemStack::hex_coins(360));
    assert_eq!(refund.owner_entity_id, BUYER);
    match plan.outcome {
        PostOutcome::Posted(d) => {
            assert_eq!(d.quantity, 40);
            assert_eq!(d.price_threshold, 10);
            assert_eq!(d.stored_coins, 400);
            assert_eq!(d.owner_entity_id, BUYER);
            assert_eq!(d.claim_entity_id, CLAIM);
            assert_eq!(d.timestamp, NOW);
        },
        other => panic!("unexpected outcome {:?}", other),
    }
}

#[test]
fn buy_order_coins_are_conserved() {
    let sell_orders = vec![listing(10, SELLER, 4, 60, 5, 0), listing(11, 3, 7, 15, 6, 0)];
    let plan = order_post_buy_order(&request(100, 10, 1000, true), site(), &sell_orders, None, BUYER, NOW).unwrap();
    let paid: i32 = plan.fills.iter().map(|f| f.seller_coins.item_stack.quantity).sum();
    let refund = plan.refund.map(|r| r.item_stack.quantity).unwrap_or(0);
    let stored = match plan.outcome {
        PostOutcome::Posted(d) => d.stored_coins,
        _ => 0,
    };
    assert_eq!(paid, 240 + 105);
    assert_eq!(plan.coins_withdrawn, paid + refund + stored);
    let bought: i32 = plan.fills.iter().map(|f| f.quantity).sum();
    let posted = match plan.outcome {
        PostOutcome::Posted(d) => d.quantity,
        _ => 0,
    };
    assert_eq!(bought + posted, 100);
}

#[test]
fn buy_order_serves_cheapest_then_oldest() {
    let sell_orders = vec![
        listing(1, 11, 5, 3, 200, 0),
        listing(2, 12, 3, 2, 300, 0),
        listing(3, 13, 5, 4, 100, 0),
        listing(4, 14, 12, 10, 50, 0),
    ];
    let plan = order_post_buy_order(&request(8, 10, 80, false), site(), &sell_orders, None, BUYER, NOW).unwrap();
    let served: Vec<(u64, i32)> = plan.fills.iter().map(|f| (f.listing.entity_id, f.quantity)).collect();
    assert_eq!(served, vec![(2, 2), (3, 4), (1, 2)]);
    assert_eq!(plan.fills[2].listing.quantity, 1);
    assert!(!plan.fills[2].close_listing);
    assert_eq!(plan.fills[2].event.listing_remaining_quantity, 1);
    assert_eq!(plan.outcome, PostOutcome::Completed);
    // 80 coins put up, 6 + 20 + 10 spent
    assert_eq!(plan.refund.unwrap().item_stack.quantity, 44);
    for f in &plan.fills {
        assert!(f.event.unit_price <= 10);
    }
}

#[test]
fn buy_order_without_persist_fails_when_short() {
    let sell_orders = vec![listing(1, SELLER, 4, 3, 1, 0)];
    let plan = order_post_buy_order(&request(5, 4, 20, false), site(), &sell_orders, None, BUYER, NOW).unwrap();
    assert_eq!(plan.outcome, PostOutcome::Failed(OrderError::NoLongerAvailable));
    assert_eq!(OrderError::NoLongerAvailable.message(), "Items are no longer available for this price");
    assert_eq!(plan.refund.unwrap().item_stack.quantity, 8);
}

#[test]
fn buy_order_ignores_other_claims_items_and_prices() {
    let mut other_claim = listing(1, SELLER, 4, 3, 1, 0);
    other_claim.claim_entity_id = CLAIM + 1;
    let mut other_item = listing(2, SELLER, 4, 3, 1, 0);
    other_item.item_id = ITEM + 1;
    let mut cargo = listing(3, SELLER, 4, 3, 1, 0);
    cargo.item_type = 1;
    let pricey = listing(4, SELLER, 11, 3, 1, 0);
    let sell_orders = vec![other_claim, other_item, cargo, pricey];
    let plan = order_post_buy_order(&request(5, 10, 50, true), site(), &sell_orders, None, BUYER, NOW).unwrap();
    assert!(plan.fills.is_empty());
    assert!(plan.refund.is_none());
    match plan.outcome {
        PostOutcome::Posted(d) => assert_eq!((d.quantity, d.stored_coins, d.item_type), (5, 50, 0)),
        other => panic!("unexpected outcome {:?}", other),
    }
}

#[test]
fn resolve_buy_order_stops_when_budget_runs_out() {
    let sell_orders = vec![listing(1, SELLER, 3, 10, 1, 0), listing(2, SELLER, 3, 10, 2, 0)];
    let mut wanted = item(10);
    let mut spent = 0;
    let fills = resolve_buy_order(&sell_orders, BUYER, &mut wanted, CLAIM, 5, 10, &mut spent, None, NOW);
    assert_eq!(fills.len(), 1);
    assert_eq!(fills[0].quantity, 3);
    assert_eq!(spent, 9);
    assert_eq!(wanted.quantity, 7);
}

#[test]
fn resolve_buy_order_gives_new_stacks_of_the_item() {
    let sell_orders = vec![listing(1, SELLER, 3, 10, 1, 0)];
    let mut wanted = ItemStack { item_id: ITEM, item_type: ItemType::Item, quantity: 2, durability: Some(250) };
    let mut spent = 0;
    let fills = resolve_buy_order(&sell_orders, BUYER, &mut wanted, CLAIM, 5, 100, &mut spent, Some(400), NOW);
    assert_eq!(fills[0].buyer_items.item_stack.durability, Some(400));
    assert_eq!(fills[0].buyer_items.item_stack.quantity, 2);
    assert_eq!(wanted.quantity, 0);
    assert_eq!(wanted.durability, Some(250));
    assert_eq!(spent, 6);
}

#[test]
fn sell_order_serves_best_price_and_returns_unspent_coins() {
    let buy_orders = vec![
        listing(1, 21, 8, 5, 1, 40),
        listing(2, 22, 10, 2, 5, 25),
        listing(3, 23, 6, 9, 0, 54),
    ];
    let plan = order_post_sell_order(&request(6, 7, 0, true), site(), &buy_orders, None, SELLER, NOW).unwrap();
    assert_eq!(plan.items_withdrawn, item(6));
    let served: Vec<(u64, i32)> = plan.fills.iter().map(|f| (f.listing.entity_id, f.quantity)).collect();
    assert_eq!(served, vec![(2, 2), (1, 4)]);
    let first = &plan.fills[0];
    assert_eq!(first.seller_coins.item_stack, ItemStack::hex_coins(20));
    assert_eq!(first.seller_coins.owner_entity_id, SELLER);
    assert_eq!(first.buyer_items.owner_entity_id, 22);
    assert!(first.close_listing);
    assert_eq!(first.listing.stored_coins, 5);
    let left_over = first.left_over_coins.unwrap();
    assert_eq!(left_over.item_stack, ItemStack::hex_coins(5));
    assert_eq!(left_over.owner_entity_id, 22);
    assert_eq!(first.event.listing_type, MarketOrderType::BuyOrder);
    let second = &plan.fills[1];
    assert_eq!(second.seller_coins.item_stack.quantity, 32);
    assert_eq!(second.listing.quantity, 1);
    assert_eq!(second.listing.stored_coins, 8);
    assert!(!second.close_listing);
    assert!(second.left_over_coins.is_none());
    assert!(plan.posted.is_none());
}

#[test]
fn sell_order_posts_rest_only_when_persisted() {
    let buy_orders = vec![listing(1, 21, 8, 5, 1, 40)];
    let plan = order_post_sell_order(&request(8, 7, 0, true), site(), &buy_orders, None, SELLER, NOW).unwrap();
    let posted = plan.posted.unwrap();
    assert_eq!((posted.quantity, posted.price_threshold, posted.stored_coins), (3, 7, 0));
    assert_eq!(plan.fills[0].quantity + posted.quantity, plan.items_withdrawn.quantity);
    // a buy listing funded with quantity * price stays so
    assert_eq!(plan.fills[0].listing.stored_coins, 0);
    assert!(plan.fills[0].left_over_coins.is_none());
    let plan = order_post_sell_order(&request(8, 7, 0, false), site(), &buy_orders, None, SELLER, NOW).unwrap();
    assert!(plan.posted.is_none());
}

#[test]
fn resolve_sell_order_serves_older_first_at_equal_price() {
    let buy_orders = vec![listing(1, 21, 8, 5, 9, 40), listing(2, 22, 8, 5, 3, 40)];
    let mut offered = item(7);
    let fills = resolve_sell_order(&buy_orders, SELLER, &mut offered, CLAIM, 8, None, NOW);
    let served: Vec<(u64, i32)> = fills.iter().map(|f| (f.listing.entity_id, f.quantity)).collect();
    assert_eq!(served, vec![(2, 5), (1, 2)]);
    assert_eq!(offered.quantity, 0);
    for f in &fills {
        assert!(f.event.unit_price >= 8);
        assert_eq!(f.event.seller_entity_id, SELLER);
    }
}

#[test]
fn order_requests_are_checked_in_order() {
    let none: Vec<AuctionListingState> = Vec::new();
    let mut coins = request(1, 1, 1, true);
    coins.item_id = HEX_COIN_ITEM_ID;
    assert_eq!(order_post_buy_order(&coins, site(), &none, None, BUYER, NOW).unwrap_err(), OrderError::InvalidOrder);
    assert_eq!(order_post_sell_order(&coins, site(), &none, None, BUYER, NOW).unwrap_err(), OrderError::InvalidOrder);
    let mut cargo_coins = coins;
    cargo_coins.item_type = ItemType::Cargo;
    assert!(order_post_buy_order(&cargo_coins, site(), &none, None, BUYER, NOW).is_ok());
    assert_eq!(
        order_post_buy_order(&request(0, 1, 0, true), site(), &none, None, BUYER, NOW).unwrap_err(),
        OrderError::InvalidQuantity
    );
    assert_eq!(
        order_post_sell_order(&request(1, 0, 0, true), site(), &none, None, BUYER, NOW).unwrap_err(),
        OrderError::InvalidCoins
    );
    assert_eq!(
        order_post_buy_order(&request(100_000, 100_000, 0, true), site(), &none, None, BUYER, NOW).unwrap_err(),
        OrderError::Overflow
    );
    assert_eq!(
        order_post_buy_order(&request(3, 5, 14, true), site(), &none, None, BUYER, NOW).unwrap_err(),
        OrderError::CoinsMismatch
    );
    assert_eq!(
        order_post_buy_order(&request(3, 5, 15, true), None, &none, None, BUYER, NOW).unwrap_err(),
        OrderError::BuildingMissing
    );
    let far = Some(MarketBuilding { claim_entity_id: CLAIM, distance: 3 });
    assert_eq!(order_post_sell_order(&request(3, 5, 0, true), far, &none, None, BUYER, NOW).unwrap_err(), OrderError::TooFar);
    let near = Some(MarketBuilding { claim_entity_id: CLAIM, distance: 2 });
    assert!(order_post_sell_order(&request(3, 5, 0, true), near, &none, None, BUYER, NOW).is_ok());
}

#[test]
fn order_error_messages() {
    let cases = [
        (OrderError::InvalidOrder, "Invalid order"),
        (OrderError::InvalidQuantity, "Invalid quantity"),
        (OrderError::InvalidCoins, "Invalid coins"),
        (OrderError::Overflow, "overflow"),
        (OrderError::CoinsMismatch, "Coins don't match the offer"),
        (OrderError::BuildingMissing, "Building does not exist"),
        (OrderError::TooFar, "Too far"),
        (OrderError::NoLongerAvailable, "Items are no longer available for this price"),
        (OrderError::IntegerOverflow, "Integer overflow"),
    ];
    for (e, text) in cases {
        assert_eq!(e.message(), text);
    }
}

#[test]
fn resolve_buy_order_keeps_input_order_on_full_ties() {
    let sell_orders = vec![listing(7, 31, 4, 2, 50, 0), listing(3, 32, 4, 2, 50, 0), listing(5, 33, 4, 2, 50, 0)];
    let mut wanted = item(5);
    let mut spent = 0;
    let fills = resolve_buy_order(&sell_orders, BUYER, &mut wanted, CLAIM, 4, 100, &mut spent, None, NOW);
    let served: Vec<(u64, i32)> = fills.iter().map(|f| (f.listing.entity_id, f.quantity)).collect();
    assert_eq!(served, vec![(7, 2), (3, 2), (5, 1)]);
    assert_eq!(spent, 20);
    assert_eq!(wanted.quantity, 0);
}
