use bitcraft_game::items::{ItemStack, ItemType};
use bitcraft_game::stall_events::{net_item_change, BarterStallInventoryChangeReason, BarterStallInventoryEvent};

fn stack(item_id: i32, item_type: ItemType, quantity: i32, durability: Option<i32>) -> ItemStack {
    ItemStack { item_id, item_type, quantity, durability }
}

#[test]
fn net_item_change_nets_per_item() {
    let items_before = vec![
        stack(1, ItemType::Item, 50, None),
        stack(5, ItemType::Item, 2, Some(80)),
        stack(5, ItemType::Item, 1, Some(30)),
        stack(9, ItemType::Item, 4, None),
    ];
    let items_after = vec![stack(1, ItemType::Item, 44, None), stack(7, ItemType::Item, 2, None), stack(9, ItemType::Item, 4, None)];
    let cargo_before = vec![stack(5, ItemType::Cargo, 3, None)];
    let cargo_after = vec![stack(5, ItemType::Cargo, 5, None)];
    let changes = vec![(items_before, items_after), (cargo_before, cargo_after)];
    let (added, removed) = net_item_change(&changes);
    assert_eq!(added, vec![stack(7, ItemType::Item, 2, None), stack(5, ItemType::Cargo, 2, None)]);
    assert_eq!(removed, vec![stack(1, ItemType::Item, 6, None), stack(5, ItemType::Item, 3, None)]);
}

#[test]
fn net_item_change_of_nothing_is_empty() {
    let same = vec![stack(3, ItemType::Item, 4, None)];
    let (added, removed) = net_item_change(&vec![(same.clone(), same)]);
    assert!(added.is_empty());
    assert!(removed.is_empty());
}

#[test]
fn emit_sale_only_for_barter_stalls() {
    let changes = vec![(vec![stack(2, ItemType::Item, 3, None)], vec![stack(1, ItemType::Item, 10, None)])];
    assert!(BarterStallInventoryEvent::emit_sale(None, 1, 2, 3, 4, &changes, 5, 6, 7).is_none());
    let ev = BarterStallInventoryEvent::emit_sale(Some(0), 1, 2, 3, 4, &changes, 5, 6, 7).unwrap();
    assert_eq!(ev.claim_entity_id, 0);
    assert_eq!(ev.actor_entity_id, 1);
    assert_eq!(ev.shop_entity_id, 2);
    assert_eq!(ev.trade_order_entity_id, Some(3));
    assert_eq!(ev.trade_amount, Some(4));
    assert_eq!(ev.reason, BarterStallInventoryChangeReason::Sale);
    assert_eq!(ev.added_items, vec![stack(1, ItemType::Item, 10, None)]);
    assert_eq!(ev.removed_items, vec![stack(2, ItemType::Item, 3, None)]);
    assert_eq!((ev.treasury_coins_added, ev.treasury_coins_removed, ev.timestamp), (5, 6, 7));
}

fn sorted(mut v: Vec<ItemStack>) -> Vec<ItemStack> {
    v.sort_by_key(|s| (s.item_id, s.quantity));
    v
}

#[test]
fn net_item_change_swaps_with_before_and_after() {
    let x = vec![stack(1, ItemType::Item, 5, None)];
    let y = vec![stack(1, ItemType::Item, 2, None), stack(4, ItemType::Item, 3, None)];
    let (added, removed) = net_item_change(&vec![(x.clone(), y.clone())]);
    let (added_back, removed_back) = net_item_change(&vec![(y, x)]);
    assert_eq!(added, vec![stack(4, ItemType::Item, 3, None)]);
    assert_eq!(removed, vec![stack(1, ItemType::Item, 3, None)]);
    assert_eq!(sorted(added_back), sorted(removed));
    assert_eq!(sorted(removed_back), sorted(added));
}

#[test]
fn net_item_change_ignores_how_changes_are_split_or_ordered() {
    let x = vec![stack(1, ItemType::Item, 5, None)];
    let y = vec![stack(2, ItemType::Item, 7, None)];
    let z = vec![stack(1, ItemType::Item, 1, None), stack(3, ItemType::Item, 2, None)];
    let (a2, r2) = net_item_change(&vec![(x.clone(), y.clone()), (y.clone(), z.clone())]);
    let (a1, r1) = net_item_change(&vec![(x.clone(), z.clone())]);
    assert_eq!(sorted(a2), sorted(a1.clone()));
    assert_eq!(sorted(r2), sorted(r1.clone()));
    let (ao, ro) = net_item_change(&vec![(y.clone(), z), (x, y)]);
    assert_eq!(sorted(ao), sorted(a1));
    assert_eq!(sorted(ro), sorted(r1));
}
