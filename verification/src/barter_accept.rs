use vstd::prelude::*;

use crate::barter::{
    extract_coins, scale_item_stacks, scaled_stacks, has_unit_stack, scale_fits, spec_extract_coins, BarterError,
    MAX_DURABILITY_TRADE_AMOUNT, SHOP_REACH,
};
use crate::items::{ItemStack, ItemType};

verus! {

/// A feature of a building; it holds an inventory when it has storage or
/// cargo slots.
#[derive(Clone, Copy, Debug, PartialEq, Eq, Structural)]
pub struct BuildingFunction {
    pub storage_slots: i32,
    pub cargo_slots: i32,
}

/// The shop a trade order is accepted at, as seen from the player.
#[derive(Debug)]
pub enum ShopSite {
    /// A shop building, at `distance` from the player; `claimed` when the
    /// claim it belongs to exists.
    Building { distance: i32, functions: Vec<BuildingFunction>, claimed: bool },
    /// A shop deployable, at `distance` from the player, with its storage
    /// and stockpile sizes.
    Deployable { hidden: bool, distance: i32, storage: i32, stockpile: i32 },
    /// Neither (a traveler's shop).
    Missing,
}

/// What the shop offers the trade from.
#[derive(Clone, Copy, Debug, PartialEq, Eq, Structural)]
pub struct ShopAccess {
    /// Index of the shop's item inventory, if it has one.
    pub item_index: Option<usize>,
    /// Index of the shop's cargo inventory, if it has one.
    pub cargo_index: Option<usize>,
    /// The shop belongs to an existing claim.
    pub claimed: bool,
}

/// A trade order offered by a shop.
#[derive(Debug)]
pub struct TradeOrderState {
    pub entity_id: u64,
    pub shop_entity_id: u64,
    /// Times the order can still be accepted; `i32::MAX` for unlimited.
    pub remaining_stock: i32,
    pub offer_items: Vec<ItemStack>,
    pub required_items: Vec<ItemStack>,
    pub traveler_trade_order_id: Option<i32>,
}

/// What the game knows of an item's kind.
#[derive(Clone, Copy, Debug, PartialEq, Eq, Structural)]
pub struct ItemKind {
    /// Durability a fresh single item of this kind carries.
    pub durability: Option<i32>,
    /// The player already collected this reward, and it is collected
    /// automatically.
    pub known_reward: bool,
}

/// Position, among a building's functions that hold an inventory, of the
/// first one at or after `i` with storage slots (or cargo slots, for
/// `cargo`); `seen` inventories were passed before `i`.
pub open spec fn inventory_position(fs: Seq<BuildingFunction>, i: int, seen: int, cargo: bool) -> Option<int>
    decreases fs.len() - i,
{
    if 0 <= i < fs.len() {
        let f = fs[i];
        if (if cargo {
            f.cargo_slots > 0
        } else {
            f.storage_slots > 0
        }) {
            Some(seen)
        } else if f.storage_slots > 0 || f.cargo_slots > 0 {
            inventory_position(fs, i + 1, seen + 1, cargo)
        } else {
            inventory_position(fs, i + 1, seen, cargo)
        }
    } else {
        None
    }
}

pub open spec fn as_index(p: Option<int>) -> Option<usize> {
    match p {
        Some(n) => Some(n as usize),
        None => None,
    }
}

/// Indices of a building's item and cargo inventories. The inventories are
/// created in the order of the building's inventory functions; a function
/// can hold both.
pub fn inventory_indices(functions: &Vec<BuildingFunction>) -> (r: (Option<usize>, Option<usize>))
    ensures
        r.0 == as_index(inventory_position(functions@, 0, 0, false)),
        r.1 == as_index(inventory_position(functions@, 0, 0, true)),
{
    let mut item_index: Option<usize> = None;
    let mut cargo_index: Option<usize> = None;
    let mut seen: usize = 0;
    let n = functions.len();
    let mut i: usize = 0;
    while i < n
        invariant
            n == functions@.len(),
            i <= n,
            seen <= i,
            item_index is None ==> inventory_position(functions@, 0, 0, false) == inventory_position(
                functions@,
                i as int,
                seen as int,
                false,
            ),
            item_index is Some ==> as_index(inventory_position(functions@, 0, 0, false)) == item_index,
            cargo_index is None ==> inventory_position(functions@, 0, 0, true) == inventory_position(
                functions@,
                i as int,
                seen as int,
                true,
            ),
            cargo_index is Some ==> as_index(inventory_position(functions@, 0, 0, true)) == cargo_index,
        decreases n - i,
    {
        let f = functions[i];
        if f.storage_slots > 0 || f.cargo_slots > 0 {
            if item_index.is_none() && f.storage_slots > 0 {
                item_index = Some(seen);
            }
            if cargo_index.is_none() && f.cargo_slots > 0 {
                cargo_index = Some(seen);
            }
            seen = seen + 1;
        }
        i = i + 1;
    }
    (item_index, cargo_index)
}

/// The checks of the player and the shop, in order, and what the shop
/// offers the trade from.
pub open spec fn spec_check_shop(amount: i32, in_combat: bool, shop: ShopSite) -> Result<ShopAccess, BarterError> {
    if in_combat {
        Err(BarterError::InCombat)
    } else if amount <= 0 {
        Err(BarterError::InvalidAmount)
    } else {
        match shop {
            ShopSite::Building { distance, functions, claimed } => if distance > SHOP_REACH {
                Err(BarterError::TooFar)
            } else {
                Ok(
                    ShopAccess {
                        item_index: as_index(inventory_position(functions@, 0, 0, false)),
                        cargo_index: as_index(inventory_position(functions@, 0, 0, true)),
                        claimed,
                    },
                )
            },
            ShopSite::Deployable { hidden, distance, storage, stockpile } => if hidden {
                Err(BarterError::HiddenDeployable)
            } else if distance > SHOP_REACH {
                Err(BarterError::TooFar)
            } else {
                Ok(
                    ShopAccess {
                        item_index: if storage > 0 {
                            Some(0)
                        } else {
                            None
                        },
                        cargo_index: if stockpile > 0 {
                            Some(0)
                        } else {
                            None
                        },
                        claimed: false,
                    },
                )
            },
            ShopSite::Missing => Ok(ShopAccess { item_index: None, cargo_index: None, claimed: false }),
        }
    }
}

fn check_shop(amount: i32, in_combat: bool, shop: &ShopSite) -> (r: Result<ShopAccess, BarterError>)
    ensures
        r == spec_check_shop(amount, in_combat, *shop),
{
    if in_combat {
        return Err(BarterError::InCombat);
    }
    if amount <= 0 {
        return Err(BarterError::InvalidAmount);
    }
    match shop {
        ShopSite::Building { distance, functions, claimed } => {
            if *distance > SHOP_REACH {
                return Err(BarterError::TooFar);
            }
            let (item_index, cargo_index) = inventory_indices(functions);
            Ok(ShopAccess { item_index, cargo_index, claimed: *claimed })
        },
        ShopSite::Deployable { hidden, distance, storage, stockpile } => {
            if *hidden {
                return Err(BarterError::HiddenDeployable);
            }
            if *distance > SHOP_REACH {
                return Err(BarterError::TooFar);
            }
            let item_index = if *storage > 0 {
                Some(0)
            } else {
                None
            };
            let cargo_index = if *stockpile > 0 {
                Some(0)
            } else {
                None
            };
            Ok(ShopAccess { item_index, cargo_index, claimed: false })
        },
        ShopSite::Missing => Ok(ShopAccess { item_index: None, cargo_index: None, claimed: false }),
    }
}

/// The checks of the trade order, in order.
pub open spec fn spec_order_error(order: Option<TradeOrderState>, shop_entity_id: u64, amount: i32) -> Option<
    BarterError,
> {
    match order {
        None => Some(BarterError::TradeOrderNotFound),
        Some(o) => if o.shop_entity_id != shop_entity_id {
            Some(BarterError::WrongShop)
        } else if o.remaining_stock != i32::MAX && o.remaining_stock < amount {
            Some(BarterError::OutOfStock)
        } else {
            None
        },
    }
}

/// Whether the player has completed a required achievement; `name` is the
/// achievement's name, when it exists.
#[derive(Debug)]
pub struct AchievementCheck {
    pub met: bool,
    pub name: Option<String>,
}

/// Whether the player has a required skill level; `skill_name` is the
/// skill's name, when it exists.
#[derive(Debug)]
pub struct LevelCheck {
    pub level: i32,
    pub met: bool,
    pub skill_name: Option<String>,
}

/// A piece of knowledge of the player.
#[derive(Clone, Copy, Debug, PartialEq, Eq, Structural)]
pub struct KnowledgeEntry {
    pub id: i32,
    pub acquired: bool,
}

/// A traveler's trade order, with the kinds of its items (`offer_kinds[i]`
/// is the kind of `offer_items[i]`, and likewise for required items) and
/// the player's standing on its requirements.
#[derive(Debug)]
pub struct TravelerTradeOrder {
    pub offer_items: Vec<ItemStack>,
    pub offer_kinds: Vec<ItemKind>,
    pub required_items: Vec<ItemStack>,
    pub required_kinds: Vec<ItemKind>,
    pub achievements: Vec<AchievementCheck>,
    pub levels: Vec<LevelCheck>,
    pub required_knowledges: Vec<i32>,
    pub blocking_knowledges: Vec<i32>,
}

/// The error of the first achievement at or after `i` that the player lacks.
pub open spec fn first_achievement_error(checks: Seq<AchievementCheck>, i: int) -> Option<BarterError>
    decreases checks.len() - i,
{
    if 0 <= i < checks.len() {
        if !checks[i].met {
            Some(
                match checks[i].name {
                    Some(n) => BarterError::AchievementRequired(n),
                    None => BarterError::AchievementMissing,
                },
            )
        } else {
            first_achievement_error(checks, i + 1)
        }
    } else {
        None
    }
}

/// The error of the first skill level at or after `i` that the player lacks.
pub open spec fn first_level_error(checks: Seq<LevelCheck>, i: int) -> Option<BarterError>
    decreases checks.len() - i,
{
    if 0 <= i < checks.len() {
        if !checks[i].met {
            Some(
                match checks[i].skill_name {
                    Some(n) => BarterError::LevelRequired(checks[i].level, n),
                    None => BarterError::SkillMissing,
                },
            )
        } else {
            first_level_error(checks, i + 1)
        }
    } else {
        None
    }
}

fn check_achievements(checks: &Vec<AchievementCheck>) -> (r: Option<BarterError>)
    ensures
        r == first_achievement_error(checks@, 0),
{
    let n = checks.len();
    let mut i: usize = 0;
    while i < n
        invariant
            n == checks@.len(),
            i <= n,
            first_achievement_error(checks@, 0) == first_achievement_error(checks@, i as int),
        decreases n - i,
    {
        let c = &checks[i];
        if !c.met {
            return match &c.name {
                Some(name) => Some(BarterError::AchievementRequired(name.clone())),
                None => Some(BarterError::AchievementMissing),
            };
        }
        i = i + 1;
    }
    None
}

fn check_levels(checks: &Vec<LevelCheck>) -> (r: Option<BarterError>)
    ensures
        r == first_level_error(checks@, 0),
{
    let n = checks.len();
    let mut i: usize = 0;
    while i < n
        invariant
            n == checks@.len(),
            i <= n,
            first_level_error(checks@, 0) == first_level_error(checks@, i as int),
        decreases n - i,
    {
        let c = &checks[i];
        if !c.met {
            return match &c.skill_name {
                Some(name) => Some(BarterError::LevelRequired(c.level, name.clone())),
                None => Some(BarterError::SkillMissing),
            };
        }
        i = i + 1;
    }
    None
}

/// Whether the player has acquired knowledge `id`.
pub open spec fn knows(entries: Seq<KnowledgeEntry>, id: i32) -> bool {
    exists|j: int| 0 <= j < entries.len() && (#[trigger] entries[j]).id == id && entries[j].acquired
}

/// The knowledge checks of a traveler's trade order: the player must know
/// at least one of the required pieces, and must not already know all of
/// the blocking ones.
pub open spec fn spec_knowledge_error(required: Seq<i32>, blocking: Seq<i32>, entries: Seq<KnowledgeEntry>) -> Option<
    BarterError,
> {
    if required.len() > 0 && !(exists|i: int| 0 <= i < required.len() && knows(entries, #[trigger] required[i])) {
        Some(BarterError::KnowledgeMissing)
    } else if blocking.len() > 0 && (forall|i: int| 0 <= i < blocking.len() ==> knows(entries, #[trigger] blocking[i])) {
        Some(BarterError::KnowledgeComplete)
    } else {
        None
    }
}

fn player_knows(entries: &Vec<KnowledgeEntry>, id: i32) -> (r: bool)
    ensures
        r == knows(entries@, id),
{
    let n = entries.len();
    let mut j: usize = 0;
    while j < n
        invariant
            n == entries@.len(),
            j <= n,
            forall|t: int| 0 <= t < j ==> !((#[trigger] entries@[t]).id == id && entries@[t].acquired),
        decreases n - j,
    {
        if entries[j].id == id && entries[j].acquired {
            return true;
        }
        j = j + 1;
    }
    false
}

fn check_knowledge(required: &Vec<i32>, blocking: &Vec<i32>, entries: &Vec<KnowledgeEntry>) -> (r: Option<BarterError>)
    ensures
        r == spec_knowledge_error(required@, blocking@, entries@),
{
    if required.len() > 0 {
        let mut some = false;
        let n = required.len();
        let mut i: usize = 0;
        while i < n
            invariant
                n == required@.len(),
                i <= n,
                some <==> exists|t: int| 0 <= t < i && knows(entries@, #[trigger] required@[t]),
            decreases n - i,
        {
            let k = player_knows(entries, required[i]);
            some = some || k;
            i = i + 1;
        }
        if !some {
            return Some(BarterError::KnowledgeMissing);
        }
    }
    if blocking.len() > 0 {
        let mut all = true;
        let n = blocking.len();
        let mut i: usize = 0;
        while i < n
            invariant
                n == blocking@.len(),
                i <= n,
                all <==> forall|t: int| 0 <= t < i ==> knows(entries@, #[trigger] blocking@[t]),
            decreases n - i,
        {
            let k = player_knows(entries, blocking[i]);
            all = all && k;
            i = i + 1;
        }
        if all {
            return Some(BarterError::KnowledgeComplete);
        }
    }
    None
}

/// A trade item as the player gets or gives it for `amount` trades: single
/// fresh items of its kind when the kind carries durability, else one
/// fresh stack of `amount` times its quantity.
pub open spec fn converted_stack(s: ItemStack, kind: ItemKind, amount: int) -> Seq<ItemStack> {
    let fresh = ItemStack { item_id: s.item_id, item_type: s.item_type, quantity: 1, durability: kind.durability };
    if kind.durability is Some {
        Seq::new(
            (if s.quantity * amount > 0 {
                s.quantity * amount
            } else {
                0
            }) as nat,
            |i: int| fresh,
        )
    } else {
        seq![ItemStack { quantity: (s.quantity * amount) as i32, ..fresh }]
    }
}

/// The trade items as the player gets or gives them, item by item, in order.
pub open spec fn converted_stacks(items: Seq<ItemStack>, kinds: Seq<ItemKind>, amount: int) -> Seq<ItemStack>
    decreases items.len(),
{
    if items.len() == 0 {
        Seq::empty()
    } else {
        converted_stacks(items.drop_last(), kinds, amount) + converted_stack(
            items.last(),
            kinds[items.len() - 1],
            amount,
        )
    }
}

/// Whether converting the trade items is refused: items with durability
/// are handed out one by one, which is refused for more than
/// `MAX_DURABILITY_TRADE_AMOUNT` trades; with `per_copy`, only when at least
/// one copy would be handed out.
pub open spec fn conversion_refused(items: Seq<ItemStack>, kinds: Seq<ItemKind>, amount: int, per_copy: bool) -> bool {
    amount > MAX_DURABILITY_TRADE_AMOUNT && exists|i: int|
        0 <= i < items.len() && (#[trigger] kinds[i]).durability is Some && (!per_copy || items[i].quantity
            * amount > 0)
}

/// Whether converting the trade items multiplies the quantity of item `i`:
/// it does unless the conversion is refused before that item, or, without
/// `per_copy`, at that item.
pub open spec fn conversion_reaches(items: Seq<ItemStack>, kinds: Seq<ItemKind>, amount: int, per_copy: bool, i: int) -> bool {
    &&& !conversion_refused(items.take(i), kinds, amount, per_copy)
    &&& (per_copy || !(amount > MAX_DURABILITY_TRADE_AMOUNT && kinds[i].durability is Some))
}

/// Every quantity that converting the trade items multiplies, times
/// `amount`, fits in an `i32`.
pub open spec fn conversion_fits(items: Seq<ItemStack>, kinds: Seq<ItemKind>, amount: int, per_copy: bool) -> bool {
    forall|i: int|
        0 <= i < items.len() && conversion_reaches(items, kinds, amount, per_copy, i) ==> i32::MIN <= (
        #[trigger] items[i]).quantity * amount <= i32::MAX
}

/// Whether trade item `i` yields at least one stack.
pub open spec fn delivers(items: Seq<ItemStack>, kinds: Seq<ItemKind>, amount: int, i: int) -> bool {
    kinds[i].durability is None || items[i].quantity * amount > 0
}

/// Whether the trade hands out something, and only rewards that the player
/// already collected and that are collected automatically.
pub open spec fn only_known_rewards(items: Seq<ItemStack>, kinds: Seq<ItemKind>, amount: int) -> bool {
    &&& exists|i: int| 0 <= i < items.len() && #[trigger] delivers(items, kinds, amount, i)
    &&& forall|i: int| 0 <= i < items.len() && #[trigger] delivers(items, kinds, amount, i) ==> kinds[i].known_reward
}

/// Converts trade items into the stacks the player gets or gives for
/// `amount` trades.
fn convert_trade_items(items: &Vec<ItemStack>, kinds: &Vec<ItemKind>, amount: i32, per_copy: bool) -> (r: Result<
    Vec<ItemStack>,
    BarterError,
>)
    requires
        kinds@.len() == items@.len(),
        conversion_fits(items@, kinds@, amount as int, per_copy),
    ensures
        r is Err <==> conversion_refused(items@, kinds@, amount as int, per_copy),
        r matches Err(e) ==> e is IrrealisticAmount,
        r matches Ok(v) ==> v@ == converted_stacks(items@, kinds@, amount as int),
{
    let mut out: Vec<ItemStack> = Vec::new();
    let n = items.len();
    let mut i: usize = 0;
    while i < n
        invariant
            n == items@.len(),
            n == kinds@.len(),
            i <= n,
            conversion_fits(items@, kinds@, amount as int, per_copy),
            out@ == converted_stacks(items@.take(i as int), kinds@, amount as int),
            !conversion_refused(items@.take(i as int), kinds@, amount as int, per_copy),
        decreases n - i,
    {
        let s = items[i];
        let kind = kinds[i];
        let ghost prefix = items@.take(i as int);
        let ghost next = items@.take(i + 1);
        proof {
            assert(next.drop_last() =~= prefix);
            assert(next.last() == s);
        }
        let fresh = ItemStack { item_id: s.item_id, item_type: s.item_type, quantity: 1, durability: kind.durability };
        if kind.durability.is_some() && !per_copy && amount > MAX_DURABILITY_TRADE_AMOUNT {
            proof {
                assert(kinds@[i as int].durability is Some);
            }
            return Err(BarterError::IrrealisticAmount);
        }
        proof {
            assert(conversion_reaches(items@, kinds@, amount as int, per_copy, i as int));
            assert(i32::MIN <= items@[i as int].quantity * amount <= i32::MAX);
        }
        let count = s.quantity * amount;
        if kind.durability.is_some() {
            if amount > MAX_DURABILITY_TRADE_AMOUNT && (!per_copy || count > 0) {
                proof {
                    assert(kinds@[i as int].durability is Some && (!per_copy || items@[i as int].quantity * amount > 0));
                }
                return Err(BarterError::IrrealisticAmount);
            }
            let ghost base = out@;
            let mut c: i32 = 0;
            while c < count
                invariant
                    0 <= c,
                    count > 0 ==> c <= count,
                    count <= 0 ==> c == 0,
                    out@ == base + Seq::new(c as nat, |j: int| fresh),
                decreases count - c,
            {
                out.push(fresh);
                c = c + 1;
                proof {
                    assert(out@ =~= base + Seq::new(c as nat, |j: int| fresh));
                }
            }
            proof {
                assert(converted_stack(s, kind, amount as int) =~= Seq::new(c as nat, |j: int| fresh));
            }
        } else {
            out.push(ItemStack { quantity: count, ..fresh });
        }
        proof {
            assert(out@ =~= converted_stacks(next, kinds@, amount as int));
            assert(!conversion_refused(next, kinds@, amount as int, per_copy)) by {
                if conversion_refused(next, kinds@, amount as int, per_copy) {
                    let j = choose|j: int|
                        0 <= j < next.len() && (#[trigger] kinds@[j]).durability is Some && (!per_copy
                            || next[j].quantity * amount > 0);
                    if j < i {
                        assert(prefix[j] == next[j]);
                    }
                }
            }
        }
        i = i + 1;
    }
    proof {
        assert(items@.take(n as int) =~= items@);
    }
    Ok(out)
}

/// Whether the trade hands out something, and only rewards that the player
/// already collected and that are collected automatically.
fn offers_only_known_rewards(items: &Vec<ItemStack>, kinds: &Vec<ItemKind>, amount: i32) -> (r: bool)
    requires
        kinds@.len() == items@.len(),
    ensures
        r == only_known_rewards(items@, kinds@, amount as int),
{
    let mut any = false;
    let mut all = true;
    let n = items.len();
    let mut i: usize = 0;
    while i < n
        invariant
            n == items@.len(),
            n == kinds@.len(),
            i <= n,
            any <==> exists|t: int| 0 <= t < i && #[trigger] delivers(items@, kinds@, amount as int, t),
            all <==> forall|t: int|
                0 <= t < i && #[trigger] delivers(items@, kinds@, amount as int, t) ==> kinds@[t].known_reward,
        decreases n - i,
    {
        let q = items[i].quantity as i64;
        let a = amount as i64;
        proof {
            assert(-0x4000_0000_0000_0000 <= q * a <= 0x4000_0000_0000_0000) by (nonlinear_arith)
                requires
                    -0x8000_0000 <= q <= 0x8000_0000,
                    -0x8000_0000 <= a <= 0x8000_0000,
            ;
        }
        let count = q * a;
        let d = kinds[i].durability.is_none() || count > 0;
        proof {
            assert(d == delivers(items@, kinds@, amount as int, i as int));
        }
        if d {
            any = true;
            all = all && kinds[i].known_reward;
        }
        i = i + 1;
    }
    any && all
}

/// Which of a shop's inventories a step works on.
#[derive(Clone, Copy, Debug, PartialEq, Eq, Structural)]
pub enum StallInventory {
    Items,
    Cargo,
}

/// One step of a trade on a shop's own inventories. The steps run in order;
/// the first one that fails ends the trade with its error, and then none of
/// the trade's writes stand.
#[derive(Debug)]
pub enum BarterStep {
    /// Take these stacks from the shop's inventory; fails with the error
    /// when the inventory lacks them.
    RemoveFromStall(StallInventory, Vec<ItemStack>, BarterError),
    /// Pay coins out of the shop: these from its storage, the rest from the
    /// claim's treasury (see `pay_coins`).
    PayCoins(CoinPayment),
    /// Put these stacks in the shop's inventory; fails with the error when
    /// they do not fit.
    AddToStall(StallInventory, Vec<ItemStack>, BarterError),
    /// Add this many coins to the claim's treasury.
    DepositToTreasury(u32),
    /// Check that this cargo can go in the shop's cargo inventory.
    ValidateCargo(ItemStack),
    /// Store the shop's inventory and note its change for the sale event.
    RecordChange(StallInventory),
    /// Emit the sale event, with these coins added to and removed from the
    /// claim's treasury.
    EmitSale(i32, i32),
    /// The trade fails with this error.
    Fail(BarterError),
}

pub ghost enum BarterStepView {
    RemoveFromStall(StallInventory, Seq<ItemStack>, BarterError),
    PayCoins(CoinPayment),
    AddToStall(StallInventory, Seq<ItemStack>, BarterError),
    DepositToTreasury(u32),
    ValidateCargo(ItemStack),
    RecordChange(StallInventory),
    EmitSale(i32, i32),
    Fail(BarterError),
}

impl View for BarterStep {
    type V = BarterStepView;

    open spec fn view(&self) -> BarterStepView {
        match self {
            BarterStep::RemoveFromStall(i, v, e) => BarterStepView::RemoveFromStall(*i, v@, *e),
            BarterStep::PayCoins(c) => BarterStepView::PayCoins(*c),
            BarterStep::AddToStall(i, v, e) => BarterStepView::AddToStall(*i, v@, *e),
            BarterStep::DepositToTreasury(c) => BarterStepView::DepositToTreasury(*c),
            BarterStep::ValidateCargo(s) => BarterStepView::ValidateCargo(*s),
            BarterStep::RecordChange(i) => BarterStepView::RecordChange(*i),
            BarterStep::EmitSale(a, r) => BarterStepView::EmitSale(*a, *r),
            BarterStep::Fail(e) => BarterStepView::Fail(*e),
        }
    }
}

pub open spec fn steps_view(steps: Seq<BarterStep>) -> Seq<BarterStepView> {
    steps.map_values(|s: BarterStep| s@)
}

/// The trade items of one type, with the durability a fresh single item of
/// each carries.
pub open spec fn items_of_type(items: Seq<ItemStack>, kinds: Seq<ItemKind>, t: ItemType) -> (Seq<ItemStack>, Seq<
    Option<i32>,
>)
    decreases items.len(),
{
    if items.len() == 0 {
        (Seq::empty(), Seq::empty())
    } else {
        let rest = items_of_type(items.drop_last(), kinds, t);
        if items.last().item_type == t {
            (rest.0.push(items.last()), rest.1.push(kinds[items.len() - 1].durability))
        } else {
            rest
        }
    }
}

fn split_items(items: &Vec<ItemStack>, kinds: &Vec<ItemKind>, t: ItemType) -> (r: (Vec<ItemStack>, Vec<Option<i32>>))
    requires
        kinds@.len() == items@.len(),
    ensures
        (r.0@, r.1@) == items_of_type(items@, kinds@, t),
        r.0@.len() == r.1@.len(),
        forall|j: int| 0 <= j < r.0@.len() ==> items@.contains(#[trigger] r.0@[j]),
{
    let mut picked: Vec<ItemStack> = Vec::new();
    let mut picked_kinds: Vec<Option<i32>> = Vec::new();
    let n = items.len();
    let mut i: usize = 0;
    while i < n
        invariant
            n == items@.len(),
            n == kinds@.len(),
            i <= n,
            (picked@, picked_kinds@) == items_of_type(items@.take(i as int), kinds@, t),
            picked@.len() == picked_kinds@.len(),
            forall|j: int| 0 <= j < picked@.len() ==> items@.contains(#[trigger] picked@[j]),
        decreases n - i,
    {
        let s = items[i];
        proof {
            let next = items@.take(i + 1);
            assert(next.drop_last() =~= items@.take(i as int));
            assert(next.last() == s);
        }
        if s.item_type == t {
            picked.push(s);
            picked_kinds.push(kinds[i].durability);
            proof {
                assert(items@[i as int] == s);
            }
        }
        i = i + 1;
    }
    proof {
        assert(items@.take(n as int) =~= items@);
    }
    (picked, picked_kinds)
}

/// Whether scaling the stacks of a trade order is refused.
pub open spec fn scale_refused(stacks: Seq<ItemStack>, kinds: Seq<Option<i32>>, amount: int) -> bool {
    amount > MAX_DURABILITY_TRADE_AMOUNT && has_unit_stack(stacks, kinds)
}

pub open spec fn ends_in_failure(steps: Seq<BarterStepView>) -> bool {
    steps.len() > 0 && steps.last() is Fail
}

/// The first steps on the shop's item inventory: the offered items leave
/// it. For a claimed shop, coins are paid from `stall_coins`, the coins in
/// the shop's storage beside the offered goods, then from the claim's
/// `treasury`.
pub open spec fn spec_item_removal(
    order: TradeOrderState,
    kinds: OrderKinds,
    claimed: bool,
    amount: int,
    stall_coins: i32,
    treasury: u32,
) -> Seq<BarterStepView> {
    let off = items_of_type(order.offer_items@, kinds.offer@, ItemType::Item);
    if scale_refused(off.0, off.1, amount) {
        seq![BarterStepView::Fail(BarterError::IrrealisticAmount)]
    } else {
        let removed = scaled_stacks(off.0, off.1, amount);
        if !claimed {
            seq![BarterStepView::RemoveFromStall(StallInventory::Items, removed, BarterError::StallLacksGoodsOrFunds)]
        } else {
            let (coins, rest) = spec_extract_coins(removed);
            seq![BarterStepView::RemoveFromStall(StallInventory::Items, rest, BarterError::StallLacksGoods)] + if coins
                > 0 {
                match spec_pay_coins(coins as i32, stall_coins, treasury) {
                    Ok(p) => seq![BarterStepView::PayCoins(p)],
                    Err(e) => seq![BarterStepView::Fail(e)],
                }
            } else {
                Seq::empty()
            }
        }
    }
}

/// The steps on the shop's item inventory: the offered items leave it (see
/// `spec_item_removal`) and the required items come in. For a claimed shop,
/// coins received go to the claim's treasury.
pub open spec fn spec_item_settlement(
    order: TradeOrderState,
    kinds: OrderKinds,
    claimed: bool,
    amount: int,
    stall_coins: i32,
    treasury: u32,
) -> Seq<BarterStepView> {
    let remove_steps = spec_item_removal(order, kinds, claimed, amount, stall_coins, treasury);
    if ends_in_failure(remove_steps) {
        remove_steps
    } else {
        let req = items_of_type(order.required_items@, kinds.required@, ItemType::Item);
        if scale_refused(req.0, req.1, amount) {
            remove_steps + seq![BarterStepView::Fail(BarterError::IrrealisticAmount)]
        } else {
            let gained = scaled_stacks(req.0, req.1, amount);
            let add_steps = if !claimed {
                seq![BarterStepView::AddToStall(StallInventory::Items, gained, BarterError::StallFull)]
            } else {
                let (coins, rest) = spec_extract_coins(gained);
                seq![BarterStepView::AddToStall(StallInventory::Items, rest, BarterError::StallCannotHoldMore)]
                    + if (coins as u32) > 0 {
                    seq![BarterStepView::DepositToTreasury(coins as u32)]
                } else {
                    Seq::empty()
                }
            };
            remove_steps + add_steps + seq![BarterStepView::RecordChange(StallInventory::Items)]
        }
    }
}

/// Coins a trade on the shop's item inventory adds to the claim's treasury.
pub open spec fn spec_treasury_added(order: TradeOrderState, kinds: OrderKinds, claimed: bool, amount: int) -> i32 {
    let req = items_of_type(order.required_items@, kinds.required@, ItemType::Item);
    if claimed && !scale_refused(req.0, req.1, amount) {
        let coins = spec_extract_coins(scaled_stacks(req.0, req.1, amount)).0;
        if (coins as u32) > 0 {
            coins as i32
        } else {
            0
        }
    } else {
        0
    }
}

/// Coins a trade on the shop's item inventory takes from the claim's
/// treasury.
pub open spec fn spec_treasury_removed(
    order: TradeOrderState,
    kinds: OrderKinds,
    claimed: bool,
    amount: int,
    stall_coins: i32,
    treasury: u32,
) -> i32 {
    let off = items_of_type(order.offer_items@, kinds.offer@, ItemType::Item);
    if claimed && !scale_refused(off.0, off.1, amount) {
        let coins = spec_extract_coins(scaled_stacks(off.0, off.1, amount)).0;
        if coins > 0 {
            match spec_pay_coins(coins as i32, stall_coins, treasury) {
                Ok(p) => p.from_treasury as i32,
                Err(_) => 0,
            }
        } else {
            0
        }
    } else {
        0
    }
}

/// The steps on the shop's cargo inventory: the offered cargo leaves it and
/// the required cargo comes in, each checked first.
pub open spec fn spec_cargo_settlement(order: TradeOrderState, kinds: OrderKinds, amount: int) -> Seq<BarterStepView> {
    let off = items_of_type(order.offer_items@, kinds.offer@, ItemType::Cargo);
    if scale_refused(off.0, off.1, amount) {
        seq![BarterStepView::Fail(BarterError::IrrealisticAmount)]
    } else {
        let removed = scaled_stacks(off.0, off.1, amount);
        let remove_steps = seq![
            BarterStepView::RemoveFromStall(StallInventory::Cargo, removed, BarterError::BuildingLacksGoods),
        ];
        let req = items_of_type(order.required_items@, kinds.required@, ItemType::Cargo);
        if scale_refused(req.0, req.1, amount) {
            remove_steps + seq![BarterStepView::Fail(BarterError::IrrealisticAmount)]
        } else {
            let gained = scaled_stacks(req.0, req.1, amount);
            remove_steps + Seq::new(gained.len(), |i: int| BarterStepView::ValidateCargo(gained[i])) + seq![
                BarterStepView::AddToStall(StallInventory::Cargo, gained, BarterError::StockpileFull),
                BarterStepView::RecordChange(StallInventory::Cargo),
            ]
        }
    }
}

/// The steps on the shop's own inventories, ending with the sale event.
#[verifier::opaque]
pub open spec fn spec_stall_steps(
    order: TradeOrderState,
    kinds: OrderKinds,
    claimed: bool,
    stall: StallState,
    amount: int,
) -> Seq<BarterStepView> {
    let items = if stall.item_inventory {
        spec_item_settlement(order, kinds, claimed, amount, stall.coins, stall.treasury)
    } else {
        Seq::empty()
    };
    if ends_in_failure(items) {
        items
    } else {
        let cargo = if stall.cargo_inventory {
            spec_cargo_settlement(order, kinds, amount)
        } else {
            Seq::empty()
        };
        if ends_in_failure(cargo) {
            items + cargo
        } else {
            let (added, removed) = if stall.item_inventory {
                (
                    spec_treasury_added(order, kinds, claimed, amount),
                    spec_treasury_removed(order, kinds, claimed, amount, stall.coins, stall.treasury),
                )
            } else {
                (0i32, 0i32)
            };
            items + cargo + seq![BarterStepView::EmitSale(added, removed)]
        }
    }
}

/// What the server reads of a shop's own side before a trade: whether its
/// item and cargo inventories exist, the coins in its item storage beside
/// the offered goods it hands over, and its claim's treasury (0 when it has
/// no claim).
#[derive(Clone, Copy, Debug, PartialEq, Eq, Structural)]
pub struct StallState {
    pub item_inventory: bool,
    pub cargo_inventory: bool,
    pub coins: i32,
    pub treasury: u32,
}

/// Every quantity that the steps on the shop's own inventories multiply,
/// times `amount`, fits in an `i32`.
pub open spec fn stall_fits(order: TradeOrderState, kinds: OrderKinds, claimed: bool, stall: StallState, amount: int) -> bool {
    let off_items = items_of_type(order.offer_items@, kinds.offer@, ItemType::Item);
    let req_items = items_of_type(order.required_items@, kinds.required@, ItemType::Item);
    let off_cargo = items_of_type(order.offer_items@, kinds.offer@, ItemType::Cargo);
    let req_cargo = items_of_type(order.required_items@, kinds.required@, ItemType::Cargo);
    &&& stall.item_inventory ==> {
        &&& scale_fits(off_items.0, off_items.1, amount)
        &&& !ends_in_failure(spec_item_removal(order, kinds, claimed, amount, stall.coins, stall.treasury))
            ==> scale_fits(req_items.0, req_items.1, amount)
    }
    &&& stall.cargo_inventory && !(stall.item_inventory && ends_in_failure(
        spec_item_settlement(order, kinds, claimed, amount, stall.coins, stall.treasury),
    )) ==> {
        &&& scale_fits(off_cargo.0, off_cargo.1, amount)
        &&& !scale_refused(off_cargo.0, off_cargo.1, amount) ==> scale_fits(req_cargo.0, req_cargo.1, amount)
    }
}

/// The kinds of a trade order's items: `offer[i]` is the kind of
/// `offer_items[i]`, and likewise for required items.
#[derive(Debug)]
pub struct OrderKinds {
    pub offer: Vec<ItemKind>,
    pub required: Vec<ItemKind>,
}

/// Coins paid out of a claimed shop: from its storage first, then from the
/// claim's treasury.
#[derive(Clone, Copy, Debug, PartialEq, Eq, Structural)]
pub struct CoinPayment {
    /// Coins removed from the shop's storage, if any are taken from it.
    pub from_storage: Option<i32>,
    pub from_treasury: u32,
}

pub open spec fn spec_pay_coins(coins: i32, stall_coins: i32, treasury: u32) -> Result<CoinPayment, BarterError> {
    let payment = if stall_coins > 0 {
        if stall_coins >= coins {
            CoinPayment { from_storage: Some(coins), from_treasury: 0 }
        } else {
            CoinPayment { from_storage: Some(stall_coins), from_treasury: (coins - stall_coins) as u32 }
        }
    } else {
        CoinPayment { from_storage: None, from_treasury: coins as u32 }
    };
    if payment.from_treasury > 0 && treasury < payment.from_treasury {
        Err(BarterError::VendorLacksFunds)
    } else {
        Ok(payment)
    }
}

/// Pays `coins` out of a claimed shop that holds `stall_coins` in storage,
/// the rest from the claim's `treasury`; refused when the treasury cannot
/// cover the rest.
pub fn pay_coins(coins: i32, stall_coins: i32, treasury: u32) -> (r: Result<CoinPayment, BarterError>)
    requires
        coins > 0,
    ensures
        r == spec_pay_coins(coins, stall_coins, treasury),
{
    let mut from_treasury: u32 = 0;
    let mut from_storage: Option<i32> = None;
    if stall_coins > 0 {
        if stall_coins >= coins {
            from_storage = Some(coins);
        } else {
            from_treasury = (coins - stall_coins) as u32;
            from_storage = Some(stall_coins);
        }
    } else {
        from_treasury = coins as u32;
    }
    if from_treasury > 0 && treasury < from_treasury {
        return Err(BarterError::VendorLacksFunds);
    }
    Ok(CoinPayment { from_storage, from_treasury })
}

fn push_step(steps: &mut Vec<BarterStep>, step: BarterStep)
    ensures
        steps_view(final(steps)@) == steps_view(old(steps)@).push(step@),
{
    let ghost before = steps@;
    steps.push(step);
    proof {
        assert(steps_view(steps@) =~= steps_view(before).push(step@));
    }
}

fn scale_of_type(
    items: &Vec<ItemStack>,
    kinds: &Vec<ItemKind>,
    t: ItemType,
    amount: i32,
) -> (r: Option<Vec<ItemStack>>)
    requires
        kinds@.len() == items@.len(),
        scale_fits(items_of_type(items@, kinds@, t).0, items_of_type(items@, kinds@, t).1, amount as int),
    ensures
        ({
            let split = items_of_type(items@, kinds@, t);
            &&& r is None <==> scale_refused(split.0, split.1, amount as int)
            &&& r matches Some(v) ==> v@ == scaled_stacks(split.0, split.1, amount as int)
        }),
{
    let (picked, picked_kinds) = split_items(items, kinds, t);
    match scale_item_stacks(&picked, &picked_kinds, amount) {
        Ok(v) => Some(v),
        Err(_) => None,
    }
}

/// Kinds that match a trade order's items, one for one.
pub open spec fn kinds_match(order: TradeOrderState, kinds: OrderKinds) -> bool {
    &&& kinds.offer@.len() == order.offer_items@.len()
    &&& kinds.required@.len() == order.required_items@.len()
}

fn item_settlement(
    order: &TradeOrderState,
    kinds: &OrderKinds,
    claimed: bool,
    amount: i32,
    stall_coins: i32,
    treasury: u32,
    steps: &mut Vec<BarterStep>,
) -> (r: (bool, i32, i32))
    requires
        kinds_match(*order, *kinds),
        scale_fits(
            items_of_type(order.offer_items@, kinds.offer@, ItemType::Item).0,
            items_of_type(order.offer_items@, kinds.offer@, ItemType::Item).1,
            amount as int,
        ),
        !ends_in_failure(spec_item_removal(*order, *kinds, claimed, amount as int, stall_coins, treasury)) ==> scale_fits(
            items_of_type(order.required_items@, kinds.required@, ItemType::Item).0,
            items_of_type(order.required_items@, kinds.required@, ItemType::Item).1,
            amount as int,
        ),
    ensures
        steps_view(final(steps)@) == steps_view(old(steps)@) + spec_item_settlement(
            *order,
            *kinds,
            claimed,
            amount as int,
            stall_coins,
            treasury,
        ),
        r.0 == ends_in_failure(spec_item_settlement(*order, *kinds, claimed, amount as int, stall_coins, treasury)),
        !r.0 ==> r.1 == spec_treasury_added(*order, *kinds, claimed, amount as int),
        !r.0 ==> r.2 == spec_treasury_removed(*order, *kinds, claimed, amount as int, stall_coins, treasury),
{
    let ghost spec = spec_item_settlement(*order, *kinds, claimed, amount as int, stall_coins, treasury);
    let ghost removal = spec_item_removal(*order, *kinds, claimed, amount as int, stall_coins, treasury);
    let ghost before = steps_view(steps@);
    let removed = match scale_of_type(&order.offer_items, &kinds.offer, ItemType::Item, amount) {
        Some(v) => v,
        None => {
            push_step(steps, BarterStep::Fail(BarterError::IrrealisticAmount));
            return (true, 0, 0);
        },
    };
    let mut removed = removed;
    let mut taken: i32 = 0;
    if !claimed {
        push_step(steps, BarterStep::RemoveFromStall(StallInventory::Items, removed, BarterError::StallLacksGoodsOrFunds));
    } else {
        let coins = extract_coins(&mut removed);
        push_step(steps, BarterStep::RemoveFromStall(StallInventory::Items, removed, BarterError::StallLacksGoods));
        if coins > 0 {
            match pay_coins(coins, stall_coins, treasury) {
                Ok(p) => {
                    push_step(steps, BarterStep::PayCoins(p));
                    taken = p.from_treasury as i32;
                },
                Err(e) => {
                    push_step(steps, BarterStep::Fail(e));
                    proof {
                        assert(steps_view(steps@) =~= before + spec);
                    }
                    return (true, 0, 0);
                },
            }
        }
    }
    proof {
        assert(steps_view(steps@) =~= before + removal);
        assert(!ends_in_failure(removal));
    }
    let gained = match scale_of_type(&order.required_items, &kinds.required, ItemType::Item, amount) {
        Some(v) => v,
        None => {
            push_step(steps, BarterStep::Fail(BarterError::IrrealisticAmount));
            proof {
                assert(steps_view(steps@) =~= before + spec);
            }
            return (true, 0, 0);
        },
    };
    let mut gained = gained;
    let mut added: i32 = 0;
    if !claimed {
        push_step(steps, BarterStep::AddToStall(StallInventory::Items, gained, BarterError::StallFull));
    } else {
        let coins = extract_coins(&mut gained);
        push_step(steps, BarterStep::AddToStall(StallInventory::Items, gained, BarterError::StallCannotHoldMore));
        let deposit = coins as u32;
        if deposit > 0 {
            push_step(steps, BarterStep::DepositToTreasury(deposit));
            added = coins;
        }
    }
    push_step(steps, BarterStep::RecordChange(StallInventory::Items));
    proof {
        assert(steps_view(steps@) =~= before + spec);
    }
    (false, added, taken)
}

fn cargo_settlement(order: &TradeOrderState, kinds: &OrderKinds, amount: i32, steps: &mut Vec<BarterStep>) -> (failed: bool)
    requires
        kinds_match(*order, *kinds),
        scale_fits(
            items_of_type(order.offer_items@, kinds.offer@, ItemType::Cargo).0,
            items_of_type(order.offer_items@, kinds.offer@, ItemType::Cargo).1,
            amount as int,
        ),
        !scale_refused(
            items_of_type(order.offer_items@, kinds.offer@, ItemType::Cargo).0,
            items_of_type(order.offer_items@, kinds.offer@, ItemType::Cargo).1,
            amount as int,
        ) ==> scale_fits(
            items_of_type(order.required_items@, kinds.required@, ItemType::Cargo).0,
            items_of_type(order.required_items@, kinds.required@, ItemType::Cargo).1,
            amount as int,
        ),
    ensures
        steps_view(final(steps)@) == steps_view(old(steps)@) + spec_cargo_settlement(*order, *kinds, amount as int),
        failed == ends_in_failure(spec_cargo_settlement(*order, *kinds, amount as int)),
{
    let ghost spec = spec_cargo_settlement(*order, *kinds, amount as int);
    let ghost before = steps_view(steps@);
    let removed = match scale_of_type(&order.offer_items, &kinds.offer, ItemType::Cargo, amount) {
        Some(v) => v,
        None => {
            push_step(steps, BarterStep::Fail(BarterError::IrrealisticAmount));
            return true;
        },
    };
    let ghost rv = removed@;
    push_step(steps, BarterStep::RemoveFromStall(StallInventory::Cargo, removed, BarterError::BuildingLacksGoods));
    let ghost remove_steps = seq![BarterStepView::RemoveFromStall(StallInventory::Cargo, rv, BarterError::BuildingLacksGoods)];
    let gained = match scale_of_type(&order.required_items, &kinds.required, ItemType::Cargo, amount) {
        Some(v) => v,
        None => {
            push_step(steps, BarterStep::Fail(BarterError::IrrealisticAmount));
            proof {
                assert(spec == remove_steps + seq![BarterStepView::Fail(BarterError::IrrealisticAmount)]);
                assert(steps_view(steps@) =~= before + spec);
            }
            return true;
        },
    };
    let ghost gv = gained@;
    let ghost checks = Seq::new(gv.len(), |i: int| BarterStepView::ValidateCargo(gv[i]));
    let n = gained.len();
    let mut i: usize = 0;
    while i < n
        invariant
            n == gained@.len(),
            gv == gained@,
            i <= n,
            steps_view(steps@) == before + remove_steps + checks.take(i as int),
            checks == Seq::new(gv.len(), |i: int| BarterStepView::ValidateCargo(gv[i])),
        decreases n - i,
    {
        push_step(steps, BarterStep::ValidateCargo(gained[i]));
        proof {
            assert(checks.take(i + 1) =~= checks.take(i as int).push(BarterStepView::ValidateCargo(gv[i as int])));
        }
        i = i + 1;
    }
    proof {
        assert(checks.take(n as int) =~= checks);
    }
    push_step(steps, BarterStep::AddToStall(StallInventory::Cargo, gained, BarterError::StockpileFull));
    push_step(steps, BarterStep::RecordChange(StallInventory::Cargo));
    proof {
        assert(spec == remove_steps + checks + seq![
            BarterStepView::AddToStall(StallInventory::Cargo, gv, BarterError::StockpileFull),
            BarterStepView::RecordChange(StallInventory::Cargo),
        ]);
        assert(steps_view(steps@) =~= before + spec);
    }
    false
}

/// The steps on a shop's own inventories for a trade order accepted
/// `amount` times; `claimed` tells whether the shop belongs to an existing
/// claim.
pub fn stall_settlement(
    order: &TradeOrderState,
    kinds: &OrderKinds,
    claimed: bool,
    stall: &StallState,
    amount: i32,
) -> (steps: Vec<BarterStep>)
    requires
        kinds_match(*order, *kinds),
        stall_fits(*order, *kinds, claimed, *stall, amount as int),
    ensures
        steps_view(steps@) == spec_stall_steps(*order, *kinds, claimed, *stall, amount as int),
{
    reveal(spec_stall_steps);
    let mut steps: Vec<BarterStep> = Vec::new();
    let ghost before = steps_view(steps@);
    proof {
        assert(before =~= Seq::<BarterStepView>::empty());
    }
    let mut added: i32 = 0;
    let mut removed: i32 = 0;
    if stall.item_inventory {
        let (failed, a, r) = item_settlement(order, kinds, claimed, amount, stall.coins, stall.treasury, &mut steps);
        if failed {
            proof {
                assert(steps_view(steps@) =~= spec_stall_steps(*order, *kinds, claimed, *stall, amount as int));
            }
            return steps;
        }
        added = a;
        removed = r;
    }
    if stall.cargo_inventory {
        let failed = cargo_settlement(order, kinds, amount, &mut steps);
        if failed {
            proof {
                assert(steps_view(steps@) =~= spec_stall_steps(*order, *kinds, claimed, *stall, amount as int));
            }
            return steps;
        }
    }
    push_step(&mut steps, BarterStep::EmitSale(added, removed));
    proof {
        assert(steps_view(steps@) =~= spec_stall_steps(*order, *kinds, claimed, *stall, amount as int));
    }
    steps
}

/// The player's side of a trade: the stacks the player gets, the stacks
/// the player gives, and whether everything the player gets is a reward
/// already collected automatically. A traveler's trade order first checks
/// the player's achievements, skill levels and knowledge; when the
/// traveler's trade order is unknown, nothing changes hands.
#[verifier::opaque]
pub open spec fn spec_player_stacks(
    order: TradeOrderState,
    kinds: OrderKinds,
    traveler: Option<TravelerTradeOrder>,
    knowledge: Seq<KnowledgeEntry>,
    amount: int,
) -> Result<(Seq<ItemStack>, Seq<ItemStack>, bool), BarterError> {
    if order.traveler_trade_order_id is Some {
        match traveler {
            None => Ok((Seq::empty(), Seq::empty(), false)),
            Some(t) => if first_achievement_error(t.achievements@, 0) is Some {
                Err(first_achievement_error(t.achievements@, 0).unwrap())
            } else if first_level_error(t.levels@, 0) is Some {
                Err(first_level_error(t.levels@, 0).unwrap())
            } else if spec_knowledge_error(t.required_knowledges@, t.blocking_knowledges@, knowledge) is Some {
                Err(spec_knowledge_error(t.required_knowledges@, t.blocking_knowledges@, knowledge).unwrap())
            } else if conversion_refused(t.offer_items@, t.offer_kinds@, amount, false) || conversion_refused(
                t.required_items@,
                t.required_kinds@,
                amount,
                false,
            ) {
                Err(BarterError::IrrealisticAmount)
            } else {
                Ok(
                    (
                        converted_stacks(t.offer_items@, t.offer_kinds@, amount),
                        converted_stacks(t.required_items@, t.required_kinds@, amount),
                        only_known_rewards(t.offer_items@, t.offer_kinds@, amount),
                    ),
                )
            },
        }
    } else if conversion_refused(order.offer_items@, kinds.offer@, amount, true) || conversion_refused(
        order.required_items@,
        kinds.required@,
        amount,
        false,
    ) {
        Err(BarterError::IrrealisticAmount)
    } else {
        Ok(
            (
                converted_stacks(order.offer_items@, kinds.offer@, amount),
                converted_stacks(order.required_items@, kinds.required@, amount),
                only_known_rewards(order.offer_items@, kinds.offer@, amount),
            ),
        )
    }
}

/// Kinds that match a traveler's trade order's items, one for one.
pub open spec fn traveler_kinds_match(t: TravelerTradeOrder) -> bool {
    &&& t.offer_kinds@.len() == t.offer_items@.len()
    &&& t.required_kinds@.len() == t.required_items@.len()
}

/// Every quantity that working out the player's side multiplies, times
/// `amount`, fits in an `i32`: the offered items, then, unless those are
/// refused, the required items, and for a traveler's trade order only once
/// the player passes its checks.
pub open spec fn player_fits(
    order: TradeOrderState,
    kinds: OrderKinds,
    traveler: Option<TravelerTradeOrder>,
    knowledge: Seq<KnowledgeEntry>,
    amount: int,
) -> bool {
    if order.traveler_trade_order_id is Some {
        match traveler {
            None => true,
            Some(t) => (first_achievement_error(t.achievements@, 0) is None && first_level_error(t.levels@, 0) is None
                && spec_knowledge_error(t.required_knowledges@, t.blocking_knowledges@, knowledge) is None) ==> {
                &&& conversion_fits(t.offer_items@, t.offer_kinds@, amount, false)
                &&& !conversion_refused(t.offer_items@, t.offer_kinds@, amount, false) ==> conversion_fits(
                    t.required_items@,
                    t.required_kinds@,
                    amount,
                    false,
                )
            },
        }
    } else {
        &&& conversion_fits(order.offer_items@, kinds.offer@, amount, true)
        &&& !conversion_refused(order.offer_items@, kinds.offer@, amount, true) ==> conversion_fits(
            order.required_items@,
            kinds.required@,
            amount,
            false,
        )
    }
}

fn player_stacks(
    order: &TradeOrderState,
    kinds: &OrderKinds,
    traveler: &Option<TravelerTradeOrder>,
    knowledge: &Vec<KnowledgeEntry>,
    amount: i32,
) -> (r: Result<(Vec<ItemStack>, Vec<ItemStack>, bool), BarterError>)
    requires
        kinds_match(*order, *kinds),
        *traveler matches Some(t) ==> traveler_kinds_match(t),
        player_fits(*order, *kinds, *traveler, knowledge@, amount as int),
    ensures
        match r {
            Ok((offered, required, known)) => spec_player_stacks(*order, *kinds, *traveler, knowledge@, amount as int)
                == Ok::<(Seq<ItemStack>, Seq<ItemStack>, bool), BarterError>((offered@, required@, known)),
            Err(e) => spec_player_stacks(*order, *kinds, *traveler, knowledge@, amount as int) == Err::<
                (Seq<ItemStack>, Seq<ItemStack>, bool),
                BarterError,
            >(e),
        },
{
    reveal(spec_player_stacks);
    if order.traveler_trade_order_id.is_some() {
        match traveler {
            None => Ok((Vec::new(), Vec::new(), false)),
            Some(t) => {
                if let Some(e) = check_achievements(&t.achievements) {
                    return Err(e);
                }
                if let Some(e) = check_levels(&t.levels) {
                    return Err(e);
                }
                if let Some(e) = check_knowledge(&t.required_knowledges, &t.blocking_knowledges, knowledge) {
                    return Err(e);
                }
                let offered = convert_trade_items(&t.offer_items, &t.offer_kinds, amount, false)?;
                let required = convert_trade_items(&t.required_items, &t.required_kinds, amount, false)?;
                let known = offers_only_known_rewards(&t.offer_items, &t.offer_kinds, amount);
                Ok((offered, required, known))
            },
        }
    } else {
        let offered = convert_trade_items(&order.offer_items, &kinds.offer, amount, true)?;
        let required = convert_trade_items(&order.required_items, &kinds.required, amount, false)?;
        let known = offers_only_known_rewards(&order.offer_items, &kinds.offer, amount);
        Ok((offered, required, known))
    }
}

/// What the shop side of a trade is.
#[derive(Clone, Copy, Debug, PartialEq, Eq, Structural)]
pub enum ShopTrade {
    /// The shop trades from its own inventories (see `stall_settlement`),
    /// found at these indices among its inventories.
    Stall { item_index: usize, cargo_index: usize, claimed: bool },
    /// An NPC trades at the shop; its inventories are not touched.
    Npc,
    /// The shop has nothing to trade from: the trade fails with
    /// `BarterError::OfferUnavailable` once the player's side is done.
    Unavailable,
}

/// What accepting a trade order does, in this order: take
/// `required_item_stacks` from the player, give `offered_item_stacks` to the
/// player, trade on the shop's side, then store `remaining_stock` as the
/// order's stock when it is limited. The first step that fails ends the
/// trade, and then none of its writes stand.
#[derive(Debug)]
pub struct BarterPlan {
    pub required_item_stacks: Vec<ItemStack>,
    pub offered_item_stacks: Vec<ItemStack>,
    pub shop: ShopTrade,
    /// The steps on the shop's own inventories, when it trades from them
    /// (see `stall_settlement`); none otherwise.
    pub stall_steps: Vec<BarterStep>,
    pub remaining_stock: Option<i32>,
}

pub open spec fn spec_shop_trade(access: ShopAccess, npc_present: bool) -> ShopTrade {
    match (access.item_index, access.cargo_index) {
        (Some(i), Some(c)) => ShopTrade::Stall { item_index: i, cargo_index: c, claimed: access.claimed },
        _ => if npc_present {
            ShopTrade::Npc
        } else {
            ShopTrade::Unavailable
        },
    }
}

/// What accepting a trade order `amount` times at shop `shop_entity_id`
/// does (required stacks, offered stacks, shop side, stock stored after),
/// or the error it fails with before anything changes hands.
pub open spec fn spec_reduce(
    shop_entity_id: u64,
    amount: i32,
    in_combat: bool,
    shop: ShopSite,
    trade_order: Option<TradeOrderState>,
    order_kinds: OrderKinds,
    traveler: Option<TravelerTradeOrder>,
    knowledge: Seq<KnowledgeEntry>,
    npc_present: bool,
) -> Result<(Seq<ItemStack>, Seq<ItemStack>, ShopTrade, Option<i32>), BarterError> {
    match spec_check_shop(amount, in_combat, shop) {
        Err(e) => Err(e),
        Ok(access) => if spec_order_error(trade_order, shop_entity_id, amount) is Some {
            Err(spec_order_error(trade_order, shop_entity_id, amount).unwrap())
        } else {
            let order = trade_order.unwrap();
            match spec_player_stacks(order, order_kinds, traveler, knowledge, amount as int) {
                Err(e) => Err(e),
                Ok(stacks) => if stacks.0.len() > 0 && stacks.2 {
                    Err(BarterError::RewardsKnown)
                } else {
                    Ok(
                        (
                            stacks.1,
                            stacks.0,
                            spec_shop_trade(access, npc_present),
                            if order.remaining_stock == i32::MAX {
                                None
                            } else {
                                Some((order.remaining_stock - amount) as i32)
                            },
                        ),
                    )
                },
            }
        },
    }
}

/// The steps on the shop's own inventories for a shop side `trade`.
pub open spec fn spec_shop_steps(
    trade: ShopTrade,
    order: TradeOrderState,
    kinds: OrderKinds,
    stall: StallState,
    amount: int,
) -> Seq<BarterStepView> {
    match trade {
        ShopTrade::Stall { claimed, .. } => spec_stall_steps(order, kinds, claimed, stall, amount),
        _ => Seq::empty(),
    }
}

/// Every quantity that accepting the trade order multiplies, times
/// `amount`, fits in an `i32`: on the player's side once the shop and the
/// order pass their checks, and on the shop's side once the player's side
/// is worked out.
pub open spec fn reduce_fits(
    shop_entity_id: u64,
    amount: i32,
    in_combat: bool,
    shop: ShopSite,
    trade_order: Option<TradeOrderState>,
    order_kinds: OrderKinds,
    traveler: Option<TravelerTradeOrder>,
    knowledge: Seq<KnowledgeEntry>,
    npc_present: bool,
    stall: StallState,
) -> bool {
    &&& spec_check_shop(amount, in_combat, shop) is Ok && spec_order_error(trade_order, shop_entity_id, amount) is None
        ==> player_fits(trade_order.unwrap(), order_kinds, traveler, knowledge, amount as int)
    &&& spec_reduce(shop_entity_id, amount, in_combat, shop, trade_order, order_kinds, traveler, knowledge, npc_present)
        matches Ok(t) ==> (t.2 matches ShopTrade::Stall { claimed, .. } ==> stall_fits(
        trade_order.unwrap(),
        order_kinds,
        claimed,
        stall,
        amount as int,
    ))
}

/// Plans accepting a trade order `amount` times at shop `shop_entity_id`:
/// checks the player, the shop and the order, and works out what changes
/// hands, on the player's side and on the shop's own. `npc_present` tells
/// whether an NPC trades at the shop, and `stall` what the server read of
/// the shop's own side.
pub fn reduce(
    shop_entity_id: u64,
    amount: i32,
    in_combat: bool,
    shop: &ShopSite,
    trade_order: &Option<TradeOrderState>,
    order_kinds: &OrderKinds,
    traveler: &Option<TravelerTradeOrder>,
    knowledge: &Vec<KnowledgeEntry>,
    npc_present: bool,
    stall: &StallState,
) -> (r: Result<BarterPlan, BarterError>)
    requires
        *trade_order matches Some(o) ==> kinds_match(o, *order_kinds),
        *traveler matches Some(t) ==> traveler_kinds_match(t),
        reduce_fits(
            shop_entity_id,
            amount,
            in_combat,
            *shop,
            *trade_order,
            *order_kinds,
            *traveler,
            knowledge@,
            npc_present,
            *stall,
        ),
    ensures
        r matches Ok(plan) ==> ({
            let stock = trade_order.unwrap().remaining_stock;
            match plan.remaining_stock {
                Some(left) => stock != i32::MAX && left == stock - amount && 0 <= left < stock,
                None => stock == i32::MAX,
            }
        }),
        r matches Ok(plan) ==> steps_view(plan.stall_steps@) == spec_shop_steps(
            plan.shop,
            trade_order.unwrap(),
            *order_kinds,
            *stall,
            amount as int,
        ),
        match r {
            Ok(plan) => spec_reduce(
                shop_entity_id,
                amount,
                in_combat,
                *shop,
                *trade_order,
                *order_kinds,
                *traveler,
                knowledge@,
                npc_present,
            ) == Ok::<(Seq<ItemStack>, Seq<ItemStack>, ShopTrade, Option<i32>), BarterError>(
                (plan.required_item_stacks@, plan.offered_item_stacks@, plan.shop, plan.remaining_stock),
            ),
            Err(e) => spec_reduce(
                shop_entity_id,
                amount,
                in_combat,
                *shop,
                *trade_order,
                *order_kinds,
                *traveler,
                knowledge@,
                npc_present,
            ) == Err::<(Seq<ItemStack>, Seq<ItemStack>, ShopTrade, Option<i32>), BarterError>(e),
        },
{
    let access = check_shop(amount, in_combat, shop)?;
    let order = match trade_order {
        None => {
            return Err(BarterError::TradeOrderNotFound);
        },
        Some(o) => o,
    };
    if order.shop_entity_id != shop_entity_id {
        return Err(BarterError::WrongShop);
    }
    if order.remaining_stock != i32::MAX && order.remaining_stock < amount {
        return Err(BarterError::OutOfStock);
    }
    let (offered, required, known) = player_stacks(order, order_kinds, traveler, knowledge, amount)?;
    if offered.len() > 0 && known {
        return Err(BarterError::RewardsKnown);
    }
    let shop_trade = match (access.item_index, access.cargo_index) {
        (Some(i), Some(c)) => ShopTrade::Stall { item_index: i, cargo_index: c, claimed: access.claimed },
        _ => if npc_present {
            ShopTrade::Npc
        } else {
            ShopTrade::Unavailable
        },
    };
    let remaining_stock = if order.remaining_stock == i32::MAX {
        None
    } else {
        Some(order.remaining_stock - amount)
    };
    proof {
        assert(spec_reduce(
            shop_entity_id,
            amount,
            in_combat,
            *shop,
            *trade_order,
            *order_kinds,
            *traveler,
            knowledge@,
            npc_present,
        ) == Ok::<(Seq<ItemStack>, Seq<ItemStack>, ShopTrade, Option<i32>), BarterError>(
            (required@, offered@, shop_trade, remaining_stock),
        ));
    }
    let stall_steps = match shop_trade {
        ShopTrade::Stall { claimed, .. } => stall_settlement(order, order_kinds, claimed, stall, amount),
        _ => Vec::new(),
    };
    Ok(
        BarterPlan {
            required_item_stacks: required,
            offered_item_stacks: offered,
            shop: shop_trade,
            stall_steps,
            remaining_stock,
        },
    )
}

} // verus!
