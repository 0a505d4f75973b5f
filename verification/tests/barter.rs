use bitcraft_game::barter::{
    decimal_string, extract_coins, get_distance, scale_item_stacks, BarterError, MARKET_MODE_CURRENCY_ID,
};
use bitcraft_game::barter_accept::{
    inventory_indices, pay_coins, reduce, stall_settlement, AchievementCheck, BarterPlan, BarterStep, BuildingFunction,
    CoinPayment, ItemKind, KnowledgeEntry, LevelCheck, OrderKinds, ShopSite, ShopTrade, StallInventory, StallState,
    TradeOrderState, TravelerTradeOrder,
};
use bitcraft_game::items::{ItemStack, ItemType};

const SHOP: u64 = 40;

fn stack(item_id: i32, item_type: ItemType, quantity: i32) -> ItemStack {
    ItemStack { item_id, item_type, quantity, durability: None }
}

fn plain() -> ItemKind {
    ItemKind { durability: None, known_reward: false }
}

fn durable() -> ItemKind {
    ItemKind { durability: Some(100), known_reward: false }
}

fn order(offer_items: Vec<ItemStack>, required_items: Vec<ItemStack>, remaining_stock: i32) -> TradeOrderState {
    TradeOrderState {
        entity_id: 3,
        shop_entity_id: SHOP,
        remaining_stock,
        offer_items,
        required_items,
        traveler_trade_order_id: None,
    }
}

fn kinds(offer: Vec<ItemKind>, required: Vec<ItemKind>) -> OrderKinds {
    OrderKinds { offer, required }
}

fn stall_building(claimed: bool) -> ShopSite {
    ShopSite::Building {
        distance: 1,
        functions: vec![
            BuildingFunction { storage_slots: 0, cargo_slots: 0 },
            BuildingFunction { storage_slots: 10, cargo_slots: 0 },
            BuildingFunction { storage_slots: 0, cargo_slots: 5 },
        ],
        claimed,
    }
}

fn stall_state(item_inventory: bool, cargo_inventory: bool, coins: i32, treasury: u32) -> StallState {
    StallState { item_inventory, cargo_inventory, coins, treasury }
}

fn no_knowledge() -> Vec<KnowledgeEntry> {
    Vec::new()
}

fn plan(
    amount: i32,
    shop: &ShopSite,
    trade_order: Option<TradeOrderState>,
    order_kinds: &OrderKinds,
    traveler: &Option<TravelerTradeOrder>,
    knowledge: &Vec<KnowledgeEntry>,
    npc_present: bool,
) -> Result<BarterPlan, BarterError> {
    reduce(SHOP, amount, false, shop, &trade_order, order_kinds, traveler, knowledge, npc_present, &stall_state(true, true, 0, 0))
}

fn error_text(r: Result<BarterPlan, BarterError>) -> String {
    r.unwrap_err().message()
}

#[test]
fn extract_coins_takes_first_currency_stack() {
    let mut stacks = vec![
        stack(5, ItemType::Item, 2),
        stack(MARKET_MODE_CURRENCY_ID, ItemType::Cargo, 9),
        stack(MARKET_MODE_CURRENCY_ID, ItemType::Item, 30),
        stack(MARKET_MODE_CURRENCY_ID, ItemType::Item, 4),
    ];
    assert_eq!(extract_coins(&mut stacks), 30);
    assert_eq!(
        stacks,
        vec![
            stack(5, ItemType::Item, 2),
            stack(MARKET_MODE_CURRENCY_ID, ItemType::Cargo, 9),
            stack(MARKET_MODE_CURRENCY_ID, ItemType::Item, 4),
        ]
    );
    let mut none = vec![stack(5, ItemType::Item, 2)];
    assert_eq!(extract_coins(&mut none), 0);
    assert_eq!(none, vec![stack(5, ItemType::Item, 2)]);
}

#[test]
fn scale_item_stacks_multiplies_quantities() {
    let tool = ItemStack { item_id: 8, item_type: ItemType::Item, quantity: 2, durability: Some(40) };
    let stacks = vec![stack(5, ItemType::Item, 3), tool, stack(6, ItemType::Item, 1)];
    let scaled = scale_item_stacks(&stacks, &vec![None, None, Some(90)], 2).unwrap();
    let single_tool = ItemStack { quantity: 1, ..tool };
    let single_six = stack(6, ItemType::Item, 1);
    assert_eq!(
        scaled,
        vec![stack(5, ItemType::Item, 6), single_tool, single_tool, single_tool, single_tool, single_six, single_six]
    );
    let total: i32 = scaled.iter().map(|s| s.quantity).sum();
    assert_eq!(total, 2 * (3 + 2 + 1));
    assert!(scale_item_stacks(&stacks, &vec![None, None, None], 1001).is_err());
    assert!(scale_item_stacks(&vec![stack(5, ItemType::Item, 3)], &vec![None], 1001).is_ok());
    assert_eq!(
        scale_item_stacks(&stacks, &vec![None, None, None], 1001).unwrap_err().message(),
        "Irrealistic amount involving items with durability"
    );
}

#[test]
fn get_distance_prefers_building_then_deployable() {
    assert_eq!(get_distance(Some(3), Some(1)), 3);
    assert_eq!(get_distance(None, Some(1)), 1);
    assert_eq!(get_distance(None, None), i32::MAX);
}

#[test]
fn inventory_indices_count_inventory_functions_only() {
    let functions = vec![
        BuildingFunction { storage_slots: 0, cargo_slots: 0 },
        BuildingFunction { storage_slots: 0, cargo_slots: 4 },
        BuildingFunction { storage_slots: 0, cargo_slots: 0 },
        BuildingFunction { storage_slots: 6, cargo_slots: 2 },
    ];
    assert_eq!(inventory_indices(&functions), (Some(1), Some(0)));
    let bank = vec![BuildingFunction { storage_slots: 6, cargo_slots: 2 }];
    assert_eq!(inventory_indices(&bank), (Some(0), Some(0)));
    assert_eq!(inventory_indices(&Vec::new()), (None, None));
}

#[test]
fn pay_coins_uses_storage_then_treasury() {
    assert_eq!(pay_coins(10, 25, 0).unwrap(), CoinPayment { from_storage: Some(10), from_treasury: 0 });
    assert_eq!(pay_coins(10, 4, 6).unwrap(), CoinPayment { from_storage: Some(4), from_treasury: 6 });
    assert_eq!(pay_coins(10, 0, 50).unwrap(), CoinPayment { from_storage: None, from_treasury: 10 });
    let short = pay_coins(10, 4, 5).unwrap_err();
    assert_eq!(short.message(), "Vendor does not have enough funds for this transaction");
    for (coins, stall, treasury) in [(7, 3, 100), (7, 0, 7), (7, 9, 0)] {
        let p = pay_coins(coins, stall, treasury).unwrap();
        assert_eq!(p.from_storage.unwrap_or(0) + p.from_treasury as i32, coins);
    }
}

#[test]
fn decimal_string_writes_numbers() {
    assert_eq!(decimal_string(0), "0");
    assert_eq!(decimal_string(1507), "1507");
    assert_eq!(decimal_string(-42), "-42");
    assert_eq!(decimal_string(i32::MIN), i32::MIN.to_string());
}

#[test]
fn claimed_stall_trade_plan_and_steps() {
    let trade = order(
        vec![stack(5, ItemType::Item, 2), stack(MARKET_MODE_CURRENCY_ID, ItemType::Item, 3)],
        vec![stack(7, ItemType::Item, 1), stack(9, ItemType::Cargo, 1)],
        10,
    );
    let k = kinds(vec![plain(), plain()], vec![plain(), plain()]);
    let p = plan(2, &stall_building(true), Some(trade), &k, &None, &no_knowledge(), false).unwrap();
    assert_eq!(p.required_item_stacks, vec![stack(7, ItemType::Item, 2), stack(9, ItemType::Cargo, 2)]);
    assert_eq!(p.offered_item_stacks, vec![stack(5, ItemType::Item, 4), stack(MARKET_MODE_CURRENCY_ID, ItemType::Item, 6)]);
    assert_eq!(p.shop, ShopTrade::Stall { item_index: 0, cargo_index: 1, claimed: true });
    assert_eq!(p.remaining_stock, Some(8));
    let trade = order(
        vec![stack(5, ItemType::Item, 2), stack(MARKET_MODE_CURRENCY_ID, ItemType::Item, 3)],
        vec![stack(7, ItemType::Item, 1), stack(9, ItemType::Cargo, 1)],
        10,
    );
    let steps = stall_settlement(&trade, &k, true, &stall_state(true, true, 4, 10), 2);
    assert_eq!(steps.len(), 9);
    assert!(matches!(&steps[0], BarterStep::RemoveFromStall(StallInventory::Items, v, BarterError::StallLacksGoods)
        if *v == vec![stack(5, ItemType::Item, 4)]));
    assert!(matches!(&steps[1], BarterStep::PayCoins(CoinPayment { from_storage: Some(4), from_treasury: 2 })));
    assert!(matches!(&steps[2], BarterStep::AddToStall(StallInventory::Items, v, BarterError::StallCannotHoldMore)
        if *v == vec![stack(7, ItemType::Item, 2)]));
    assert!(matches!(&steps[3], BarterStep::RecordChange(StallInventory::Items)));
    assert!(matches!(&steps[4], BarterStep::RemoveFromStall(StallInventory::Cargo, v, BarterError::BuildingLacksGoods)
        if v.is_empty()));
    assert!(matches!(&steps[5], BarterStep::ValidateCargo(s) if *s == stack(9, ItemType::Cargo, 2)));
    assert!(matches!(&steps[6], BarterStep::AddToStall(StallInventory::Cargo, v, BarterError::StockpileFull)
        if *v == vec![stack(9, ItemType::Cargo, 2)]));
    assert!(matches!(&steps[7], BarterStep::RecordChange(StallInventory::Cargo)));
    assert!(matches!(&steps[8], BarterStep::EmitSale(0, 2)));
}

#[test]
fn claimed_stall_sends_coins_to_treasury() {
    let trade = order(
        vec![stack(5, ItemType::Item, 1)],
        vec![stack(MARKET_MODE_CURRENCY_ID, ItemType::Item, 25)],
        i32::MAX,
    );
    let k = kinds(vec![plain()], vec![plain()]);
    let steps = stall_settlement(&trade, &k, true, &stall_state(true, false, 0, 0), 2);
    assert_eq!(steps.len(), 5);
    assert!(matches!(&steps[0], BarterStep::RemoveFromStall(StallInventory::Items, v, BarterError::StallLacksGoods)
        if *v == vec![stack(5, ItemType::Item, 2)]));
    assert!(matches!(&steps[1], BarterStep::AddToStall(StallInventory::Items, v, BarterError::StallCannotHoldMore)
        if v.is_empty()));
    assert!(matches!(&steps[2], BarterStep::DepositToTreasury(50)));
    assert!(matches!(&steps[3], BarterStep::RecordChange(StallInventory::Items)));
    assert!(matches!(&steps[4], BarterStep::EmitSale(50, 0)));
}

#[test]
fn unclaimed_stall_trades_everything_in_storage() {
    let trade = order(
        vec![stack(MARKET_MODE_CURRENCY_ID, ItemType::Item, 4)],
        vec![stack(7, ItemType::Item, 1)],
        5,
    );
    let k = kinds(vec![plain()], vec![plain()]);
    let steps = stall_settlement(&trade, &k, false, &stall_state(true, false, 0, 0), 1);
    assert_eq!(steps.len(), 4);
    assert!(matches!(&steps[0], BarterStep::RemoveFromStall(StallInventory::Items, v, BarterError::StallLacksGoodsOrFunds)
        if *v == vec![stack(MARKET_MODE_CURRENCY_ID, ItemType::Item, 4)]));
    assert!(matches!(&steps[1], BarterStep::AddToStall(StallInventory::Items, v, BarterError::StallFull)
        if *v == vec![stack(7, ItemType::Item, 1)]));
    assert!(matches!(&steps[3], BarterStep::EmitSale(0, 0)));
    let p = plan(1, &stall_building(false), Some(order(vec![], vec![], 5)), &kinds(vec![], vec![]), &None, &no_knowledge(), false).unwrap();
    assert_eq!(p.shop, ShopTrade::Stall { item_index: 0, cargo_index: 1, claimed: false });
    assert_eq!(p.remaining_stock, Some(4));
}

#[test]
fn stall_settlement_stops_at_refused_scaling() {
    let trade = order(vec![stack(5, ItemType::Item, 1)], vec![stack(9, ItemType::Cargo, 1)], i32::MAX);
    let k = kinds(vec![plain()], vec![durable()]);
    let steps = stall_settlement(&trade, &k, false, &stall_state(true, true, 0, 0), 1001);
    assert_eq!(steps.len(), 5);
    assert!(matches!(&steps[3], BarterStep::RemoveFromStall(StallInventory::Cargo, _, _)));
    assert!(matches!(&steps[4], BarterStep::Fail(BarterError::IrrealisticAmount)));
}

#[test]
fn shop_without_inventories_needs_an_npc() {
    let trade = order(vec![stack(5, ItemType::Item, 1)], vec![stack(7, ItemType::Item, 1)], i32::MAX);
    let k = kinds(vec![plain()], vec![plain()]);
    let p = plan(1, &ShopSite::Missing, Some(trade), &k, &None, &no_knowledge(), false).unwrap();
    assert_eq!(p.shop, ShopTrade::Unavailable);
    assert_eq!(p.remaining_stock, None);
    assert_eq!(BarterError::OfferUnavailable.message(), "The offered items are not available");
    let trade = order(vec![stack(5, ItemType::Item, 1)], vec![stack(7, ItemType::Item, 1)], 3);
    let p = plan(1, &ShopSite::Missing, Some(trade), &k, &None, &no_knowledge(), true).unwrap();
    assert_eq!(p.shop, ShopTrade::Npc);
    assert_eq!(p.remaining_stock, Some(2));
}

#[test]
fn durable_items_are_handed_out_one_by_one() {
    let trade = order(vec![stack(5, ItemType::Item, 2)], vec![stack(7, ItemType::Item, 1)], i32::MAX);
    let k = kinds(vec![durable()], vec![plain()]);
    let p = plan(2, &ShopSite::Missing, Some(trade), &k, &None, &no_knowledge(), true).unwrap();
    let single = ItemStack { item_id: 5, item_type: ItemType::Item, quantity: 1, durability: Some(100) };
    assert_eq!(p.offered_item_stacks, vec![single; 4]);
}

#[test]
fn trade_checks_in_order() {
    let k = kinds(vec![plain()], vec![plain()]);
    let basic = || Some(order(vec![stack(5, ItemType::Item, 1)], vec![stack(7, ItemType::Item, 1)], 2));
    let stall = false;
    let r = reduce(SHOP, 1, true, &stall_building(false), &basic(), &k, &None, &no_knowledge(), stall, &stall_state(true, true, 0, 0));
    assert_eq!(error_text(r), "Cannot execute a trade order while in combat");
    assert_eq!(error_text(plan(0, &stall_building(false), basic(), &k, &None, &no_knowledge(), stall)), "Invalid amount");
    let far = ShopSite::Building { distance: 6, functions: Vec::new(), claimed: false };
    assert_eq!(error_text(plan(1, &far, basic(), &k, &None, &no_knowledge(), stall)), "Too far");
    let hidden = ShopSite::Deployable { hidden: true, distance: 0, storage: 1, stockpile: 1 };
    assert_eq!(
        error_text(plan(1, &hidden, basic(), &k, &None, &no_knowledge(), stall)),
        "Cannot interact with a hidden deployable."
    );
    let far_deployable = ShopSite::Deployable { hidden: false, distance: 6, storage: 1, stockpile: 1 };
    assert_eq!(error_text(plan(1, &far_deployable, basic(), &k, &None, &no_knowledge(), stall)), "Too far");
    assert_eq!(
        error_text(plan(1, &stall_building(false), None, &k, &None, &no_knowledge(), stall)),
        "Trade order could not be found!"
    );
    let mut elsewhere = basic().unwrap();
    elsewhere.shop_entity_id = SHOP + 1;
    assert_eq!(
        error_text(plan(1, &stall_building(false), Some(elsewhere), &k, &None, &no_knowledge(), stall)),
        "This trade order can't be accepted here"
    );
    assert_eq!(
        error_text(plan(3, &stall_building(false), basic(), &k, &None, &no_knowledge(), stall)),
        "No more stock available for this trade order!"
    );
    assert!(plan(2, &stall_building(false), basic(), &k, &None, &no_knowledge(), stall).is_ok());
}

#[test]
fn deployable_shop_uses_its_own_inventories() {
    let k = kinds(vec![plain()], vec![plain()]);
    let trade = order(vec![stack(5, ItemType::Item, 1)], vec![stack(7, ItemType::Item, 1)], i32::MAX);
    let deployable = ShopSite::Deployable { hidden: false, distance: 5, storage: 4, stockpile: 2 };
    let p = plan(1, &deployable, Some(trade), &k, &None, &no_knowledge(), false).unwrap();
    assert_eq!(p.shop, ShopTrade::Stall { item_index: 0, cargo_index: 0, claimed: false });
    let storage_only = ShopSite::Deployable { hidden: false, distance: 0, storage: 4, stockpile: 0 };
    let trade = order(vec![stack(5, ItemType::Item, 1)], vec![stack(7, ItemType::Item, 1)], i32::MAX);
    let p = plan(1, &storage_only, Some(trade), &k, &None, &no_knowledge(), false).unwrap();
    assert_eq!(p.shop, ShopTrade::Unavailable);
}

#[test]
fn durable_trades_are_limited() {
    let npc = true;
    let offered = order(vec![stack(5, ItemType::Item, 1)], vec![stack(7, ItemType::Item, 1)], i32::MAX);
    let k = kinds(vec![durable()], vec![plain()]);
    assert_eq!(
        error_text(plan(1001, &ShopSite::Missing, Some(offered), &k, &None, &no_knowledge(), npc)),
        "Irrealistic amount involving items with durability"
    );
    // an offered durable item with no copies to hand out is not refused
    let none_offered = order(vec![stack(5, ItemType::Item, 0)], vec![stack(7, ItemType::Item, 1)], i32::MAX);
    assert!(plan(1001, &ShopSite::Missing, Some(none_offered), &k, &None, &no_knowledge(), npc).is_ok());
    // a required durable item is refused whatever its quantity
    let required = order(vec![stack(5, ItemType::Item, 1)], vec![stack(7, ItemType::Item, 0)], i32::MAX);
    let k = kinds(vec![plain()], vec![durable()]);
    assert!(plan(1001, &ShopSite::Missing, Some(required), &k, &None, &no_knowledge(), npc).is_err());
}

#[test]
fn known_rewards_are_not_traded_again() {
    let npc = true;
    let trade = order(vec![stack(5, ItemType::Item, 1)], Vec::new(), i32::MAX);
    let k = kinds(vec![ItemKind { durability: None, known_reward: true }], Vec::new());
    assert_eq!(
        error_text(plan(1, &ShopSite::Missing, Some(trade), &k, &None, &no_knowledge(), npc)),
        "You already possess knowledge of all traded rewards"
    );
    let trade = order(vec![stack(5, ItemType::Item, 1), stack(6, ItemType::Item, 1)], Vec::new(), i32::MAX);
    let k = kinds(vec![ItemKind { durability: None, known_reward: true }, plain()], Vec::new());
    assert!(plan(1, &ShopSite::Missing, Some(trade), &k, &None, &no_knowledge(), npc).is_ok());
}

fn traveler(achievements: Vec<AchievementCheck>, levels: Vec<LevelCheck>, required: Vec<i32>, blocking: Vec<i32>) -> Option<TravelerTradeOrder> {
    Some(TravelerTradeOrder {
        offer_items: vec![stack(5, ItemType::Item, 1)],
        offer_kinds: vec![plain()],
        required_items: vec![stack(7, ItemType::Item, 2)],
        required_kinds: vec![plain()],
        achievements,
        levels,
        required_knowledges: required,
        blocking_knowledges: blocking,
    })
}

fn traveler_order() -> Option<TradeOrderState> {
    let mut o = order(vec![stack(50, ItemType::Item, 1)], vec![stack(70, ItemType::Item, 1)], i32::MAX);
    o.traveler_trade_order_id = Some(12);
    Some(o)
}

#[test]
fn traveler_requirements_are_checked() {
    let npc = true;
    let k = kinds(vec![plain()], vec![plain()]);
    let met = AchievementCheck { met: true, name: None };
    let unmet = AchievementCheck { met: false, name: Some("Explorer".to_string()) };
    let t = traveler(vec![met, unmet], Vec::new(), Vec::new(), Vec::new());
    assert_eq!(
        error_text(plan(1, &ShopSite::Missing, traveler_order(), &k, &t, &no_knowledge(), npc)),
        "You must have completed achievement Explorer to do this trade"
    );
    let t = traveler(vec![AchievementCheck { met: false, name: None }], Vec::new(), Vec::new(), Vec::new());
    assert_eq!(
        error_text(plan(1, &ShopSite::Missing, traveler_order(), &k, &t, &no_knowledge(), npc)),
        "Required achievement does not exist"
    );
    let low = LevelCheck { level: 5, met: false, skill_name: Some("Forestry".to_string()) };
    let t = traveler(Vec::new(), vec![low], Vec::new(), Vec::new());
    assert_eq!(
        error_text(plan(1, &ShopSite::Missing, traveler_order(), &k, &t, &no_knowledge(), npc)),
        "You must have level 5 or higher in Forestry to do this trade"
    );
    let t = traveler(Vec::new(), vec![LevelCheck { level: 5, met: false, skill_name: None }], Vec::new(), Vec::new());
    assert_eq!(
        error_text(plan(1, &ShopSite::Missing, traveler_order(), &k, &t, &no_knowledge(), npc)),
        "Required skill does not exist."
    );
    let entries = vec![KnowledgeEntry { id: 3, acquired: false }, KnowledgeEntry { id: 4, acquired: true }];
    let t = traveler(Vec::new(), Vec::new(), vec![3], Vec::new());
    assert_eq!(
        error_text(plan(1, &ShopSite::Missing, traveler_order(), &k, &t, &entries, npc)),
        "You don't have the necessary knowledge to accept this trade order"
    );
    let t = traveler(Vec::new(), Vec::new(), vec![3, 4], vec![4]);
    assert_eq!(
        error_text(plan(1, &ShopSite::Missing, traveler_order(), &k, &t, &entries, npc)),
        "You already know everything this trade order has to offer"
    );
    let t = traveler(Vec::new(), Vec::new(), vec![4], vec![3, 4]);
    let p = plan(2, &ShopSite::Missing, traveler_order(), &k, &t, &entries, npc).unwrap();
    assert_eq!(p.required_item_stacks, vec![stack(7, ItemType::Item, 4)]);
    assert_eq!(p.offered_item_stacks, vec![stack(5, ItemType::Item, 2)]);
}

#[test]
fn unknown_traveler_order_trades_nothing() {
    let npc = true;
    let k = kinds(vec![plain()], vec![plain()]);
    let p = plan(1, &ShopSite::Missing, traveler_order(), &k, &None, &no_knowledge(), npc).unwrap();
    assert!(p.required_item_stacks.is_empty());
    assert!(p.offered_item_stacks.is_empty());
}

#[test]
fn barter_error_messages() {
    let cases = [
        (BarterError::StallLacksGoodsOrFunds, "Stall lacks goods or funds"),
        (BarterError::StallLacksGoods, "Stall lacks goods"),
        (BarterError::StallFull, "Stall is full"),
        (BarterError::StallCannotHoldMore, "Stall cannot hold more items"),
        (BarterError::BuildingLacksGoods, "Building inventory lacks goods"),
        (BarterError::StockpileFull, "Building stockpile is full"),
        (BarterError::VendorLacksFunds, "Vendor does not have enough funds for this transaction"),
        (BarterError::LevelRequired(-3, "Mining".to_string()), "You must have level -3 or higher in Mining to do this trade"),
    ];
    for (e, text) in cases {
        assert_eq!(e.message(), text);
    }
}

#[test]
fn vendor_lacking_funds_ends_the_trade() {
    let trade = order(vec![stack(MARKET_MODE_CURRENCY_ID, ItemType::Item, 3)], vec![stack(7, ItemType::Item, 1)], 10);
    let k = kinds(vec![plain()], vec![plain()]);
    let steps = stall_settlement(&trade, &k, true, &stall_state(true, true, 1, 4), 2);
    assert_eq!(steps.len(), 2);
    assert!(matches!(&steps[0], BarterStep::RemoveFromStall(StallInventory::Items, v, BarterError::StallLacksGoods)
        if v.is_empty()));
    assert!(matches!(&steps[1], BarterStep::Fail(BarterError::VendorLacksFunds)));
    assert_eq!(BarterError::VendorLacksFunds.message(), "Vendor does not have enough funds for this transaction");
    let steps = stall_settlement(&trade, &k, true, &stall_state(true, true, 1, 5), 2);
    assert!(matches!(&steps[1], BarterStep::PayCoins(CoinPayment { from_storage: Some(1), from_treasury: 5 })));
    assert!(matches!(steps.last(), Some(BarterStep::EmitSale(0, 5))));
}

#[test]
fn reduce_plans_the_stall_side_too() {
    let trade = order(vec![stack(MARKET_MODE_CURRENCY_ID, ItemType::Item, 2)], vec![stack(MARKET_MODE_CURRENCY_ID, ItemType::Item, 5)], 10);
    let k = kinds(vec![plain()], vec![plain()]);
    let p = reduce(SHOP, 3, false, &stall_building(true), &Some(trade), &k, &None, &no_knowledge(), false, &stall_state(true, false, 0, 100))
        .unwrap();
    assert_eq!(p.stall_steps.len(), 6);
    assert!(matches!(&p.stall_steps[1], BarterStep::PayCoins(CoinPayment { from_storage: None, from_treasury: 6 })));
    assert!(matches!(&p.stall_steps[3], BarterStep::DepositToTreasury(15)));
    assert!(matches!(&p.stall_steps[5], BarterStep::EmitSale(15, 6)));
    let npc = reduce(SHOP, 3, false, &ShopSite::Missing, &Some(order(vec![], vec![], 10)), &kinds(vec![], vec![]), &None, &no_knowledge(), true, &stall_state(false, false, 0, 0))
        .unwrap();
    assert!(npc.stall_steps.is_empty());
}

#[test]
fn early_refusals_come_before_any_scaling() {
    let huge = Some(order(vec![stack(5, ItemType::Item, 3)], vec![stack(7, ItemType::Item, 1_000_000)], 10));
    let k = kinds(vec![plain()], vec![plain()]);
    let r = reduce(SHOP, 1_000_000_000, true, &stall_building(true), &huge, &k, &None, &no_knowledge(), false, &stall_state(true, true, 0, 0));
    assert_eq!(error_text(r), "Cannot execute a trade order while in combat");
    assert_eq!(
        error_text(plan(1_000_000_000, &stall_building(true), huge, &k, &None, &no_knowledge(), false)),
        "No more stock available for this trade order!"
    );
    let durable_first = vec![stack(5, ItemType::Item, 1), stack(MARKET_MODE_CURRENCY_ID, ItemType::Item, 3_000_000)];
    assert!(matches!(
        scale_item_stacks(&durable_first, &vec![Some(100), None], 1001),
        Err(BarterError::IrrealisticAmount)
    ));
}

#[test]
fn scaling_multiplies_each_items_units() {
    let stacks = vec![stack(5, ItemType::Item, 2), stack(6, ItemType::Item, 1), stack(5, ItemType::Item, 3)];
    let scaled = scale_item_stacks(&stacks, &vec![None, None, Some(40)], 2).unwrap();
    let units = |id: i32| -> i32 { scaled.iter().filter(|s| s.item_id == id).map(|s| s.quantity).sum() };
    assert_eq!(units(5), 10);
    assert_eq!(units(6), 2);
    assert_eq!(scaled.len(), 8);
}
