use vstd::prelude::*;

use crate::items::{ItemStack, ItemType, HEX_COIN_ITEM_ID};

verus! {

/// Item id of the currency that barter stalls trade in.
pub const MARKET_MODE_CURRENCY_ID: i32 = HEX_COIN_ITEM_ID;

/// Largest trade amount for which items with durability are handed out one
/// by one.
pub const MAX_DURABILITY_TRADE_AMOUNT: i32 = 1000;

/// Largest distance from which a player can trade at a shop.
pub const SHOP_REACH: i32 = 5;

/// Why accepting a barter trade order fails.
#[derive(Debug)]
pub enum BarterError {
    InCombat,
    InvalidAmount,
    TooFar,
    HiddenDeployable,
    TradeOrderNotFound,
    WrongShop,
    OutOfStock,
    AchievementMissing,
    AchievementRequired(String),
    SkillMissing,
    LevelRequired(i32, String),
    KnowledgeMissing,
    KnowledgeComplete,
    IrrealisticAmount,
    RewardsKnown,
    StallLacksGoodsOrFunds,
    StallLacksGoods,
    VendorLacksFunds,
    StallFull,
    StallCannotHoldMore,
    BuildingLacksGoods,
    StockpileFull,
    OfferUnavailable,
}

/// The decimal digits of a non-negative number.
pub open spec fn digits_text(n: nat) -> Seq<char>
    decreases n,
{
    if n < 10 {
        seq![digit_char(n)]
    } else {
        digits_text(n / 10) + seq![digit_char(n % 10)]
    }
}

pub open spec fn digit_char(d: nat) -> char {
    if d == 0 {
        '0'
    } else if d == 1 {
        '1'
    } else if d == 2 {
        '2'
    } else if d == 3 {
        '3'
    } else if d == 4 {
        '4'
    } else if d == 5 {
        '5'
    } else if d == 6 {
        '6'
    } else if d == 7 {
        '7'
    } else if d == 8 {
        '8'
    } else {
        '9'
    }
}

/// The decimal text of a number.
pub open spec fn decimal_text(n: int) -> Seq<char> {
    if n < 0 {
        seq!['-'] + digits_text((-n) as nat)
    } else {
        digits_text(n as nat)
    }
}

fn digit_str(d: u64) -> (s: &'static str)
    requires
        d < 10,
    ensures
        s@ == seq![digit_char(d as nat)],
{
    if d == 0 {
        proof { reveal_strlit("0"); }
        "0"
    } else if d == 1 {
        proof { reveal_strlit("1"); }
        "1"
    } else if d == 2 {
        proof { reveal_strlit("2"); }
        "2"
    } else if d == 3 {
        proof { reveal_strlit("3"); }
        "3"
    } else if d == 4 {
        proof { reveal_strlit("4"); }
        "4"
    } else if d == 5 {
        proof { reveal_strlit("5"); }
        "5"
    } else if d == 6 {
        proof { reveal_strlit("6"); }
        "6"
    } else if d == 7 {
        proof { reveal_strlit("7"); }
        "7"
    } else if d == 8 {
        proof { reveal_strlit("8"); }
        "8"
    } else {
        proof { reveal_strlit("9"); }
        "9"
    }
}

fn append_digits(text: &mut String, n: u64)
    ensures
        final(text)@ == old(text)@ + digits_text(n as nat),
    decreases n,
{
    if n < 10 {
        text.append(digit_str(n));
    } else {
        append_digits(text, n / 10);
        text.append(digit_str(n % 10));
    }
}

/// The decimal text of a number.
pub fn decimal_string(n: i32) -> (s: String)
    ensures
        s@ == decimal_text(n as int),
{
    let mut text = String::new();
    if n < 0 {
        proof { reveal_strlit("-"); }
        text.append("-");
        let m: i64 = -(n as i64);
        append_digits(&mut text, m as u64);
    } else {
        append_digits(&mut text, n as u64);
    }
    text
}

impl BarterError {
    pub open spec fn spec_message(&self) -> Seq<char> {
        match self {
            BarterError::InCombat => "Cannot execute a trade order while in combat"@,
            BarterError::InvalidAmount => "Invalid amount"@,
            BarterError::TooFar => "Too far"@,
            BarterError::HiddenDeployable => "Cannot interact with a hidden deployable."@,
            BarterError::TradeOrderNotFound => "Trade order could not be found!"@,
            BarterError::WrongShop => "This trade order can't be accepted here"@,
            BarterError::OutOfStock => "No more stock available for this trade order!"@,
            BarterError::AchievementMissing => "Required achievement does not exist"@,
            BarterError::AchievementRequired(name) => "You must have completed achievement "@ + name@
                + " to do this trade"@,
            BarterError::SkillMissing => "Required skill does not exist."@,
            BarterError::LevelRequired(level, skill) => "You must have level "@ + decimal_text(*level as int)
                + " or higher in "@ + skill@ + " to do this trade"@,
            BarterError::KnowledgeMissing => "You don't have the necessary knowledge to accept this trade order"@,
            BarterError::KnowledgeComplete => "You already know everything this trade order has to offer"@,
            BarterError::IrrealisticAmount => "Irrealistic amount involving items with durability"@,
            BarterError::RewardsKnown => "You already possess knowledge of all traded rewards"@,
            BarterError::StallLacksGoodsOrFunds => "Stall lacks goods or funds"@,
            BarterError::StallLacksGoods => "Stall lacks goods"@,
            BarterError::VendorLacksFunds => "Vendor does not have enough funds for this transaction"@,
            BarterError::StallFull => "Stall is full"@,
            BarterError::StallCannotHoldMore => "Stall cannot hold more items"@,
            BarterError::BuildingLacksGoods => "Building inventory lacks goods"@,
            BarterError::StockpileFull => "Building stockpile is full"@,
            BarterError::OfferUnavailable => "The offered items are not available"@,
        }
    }

    /// The text shown to the player.
    pub fn message(&self) -> (msg: String)
        ensures
            msg@ == self.spec_message(),
    {
        match self {
            BarterError::AchievementRequired(name) => {
                let mut text = String::from_str("You must have completed achievement ");
                text.append(name.as_str());
                text.append(" to do this trade");
                text
            },
            BarterError::LevelRequired(level, skill) => {
                let mut text = String::from_str("You must have level ");
                let number = decimal_string(*level);
                text.append(number.as_str());
                text.append(" or higher in ");
                text.append(skill.as_str());
                text.append(" to do this trade");
                text
            },
            _ => {
                let text = match self {
                    BarterError::InCombat => "Cannot execute a trade order while in combat",
                    BarterError::InvalidAmount => "Invalid amount",
                    BarterError::TooFar => "Too far",
                    BarterError::HiddenDeployable => "Cannot interact with a hidden deployable.",
                    BarterError::TradeOrderNotFound => "Trade order could not be found!",
                    BarterError::WrongShop => "This trade order can't be accepted here",
                    BarterError::OutOfStock => "No more stock available for this trade order!",
                    BarterError::AchievementMissing => "Required achievement does not exist",
                    BarterError::SkillMissing => "Required skill does not exist.",
                    BarterError::KnowledgeMissing => "You don't have the necessary knowledge to accept this trade order",
                    BarterError::KnowledgeComplete => "You already know everything this trade order has to offer",
                    BarterError::IrrealisticAmount => "Irrealistic amount involving items with durability",
                    BarterError::RewardsKnown => "You already possess knowledge of all traded rewards",
                    BarterError::StallLacksGoodsOrFunds => "Stall lacks goods or funds",
                    BarterError::StallLacksGoods => "Stall lacks goods",
                    BarterError::VendorLacksFunds => "Vendor does not have enough funds for this transaction",
                    BarterError::StallFull => "Stall is full",
                    BarterError::StallCannotHoldMore => "Stall cannot hold more items",
                    BarterError::BuildingLacksGoods => "Building inventory lacks goods",
                    BarterError::StockpileFull => "Building stockpile is full",
                    _ => "The offered items are not available",
                };
                String::from_str(text)
            },
        }
    }
}

/// Whether a stack is the stall currency.
pub open spec fn is_market_currency(s: ItemStack) -> bool {
    s.item_type == ItemType::Item && s.item_id == MARKET_MODE_CURRENCY_ID
}

/// Index of the first stall currency stack of `stacks` at or after `i`.
pub open spec fn first_currency_index(stacks: Seq<ItemStack>, i: int) -> Option<int>
    decreases stacks.len() - i,
{
    if 0 <= i < stacks.len() {
        if is_market_currency(stacks[i]) {
            Some(i)
        } else {
            first_currency_index(stacks, i + 1)
        }
    } else {
        None
    }
}

/// The quantity of the first stall currency stack of `stacks` and the stacks
/// without it; 0 and the stacks unchanged when there is none.
pub open spec fn spec_extract_coins(stacks: Seq<ItemStack>) -> (int, Seq<ItemStack>) {
    match first_currency_index(stacks, 0) {
        Some(n) => (stacks[n].quantity as int, stacks.remove(n)),
        None => (0, stacks),
    }
}

/// Takes the first stack of the stall currency out of `item_stacks` and
/// returns its quantity; returns 0 and leaves the stacks alone when there is
/// none.
pub fn extract_coins(item_stacks: &mut Vec<ItemStack>) -> (coins: i32)
    ensures
        (coins as int, final(item_stacks)@) == spec_extract_coins(old(item_stacks)@),
{
    let ghost orig = item_stacks@;
    let n = item_stacks.len();
    let mut i: usize = 0;
    while i < n
        invariant
            item_stacks@ == orig,
            orig == old(item_stacks)@,
            n == item_stacks@.len(),
            i <= n,
            first_currency_index(orig, 0) == first_currency_index(orig, i as int),
        decreases n - i,
    {
        let s = item_stacks[i];
        if s.item_type == ItemType::Item && s.item_id == MARKET_MODE_CURRENCY_ID {
            let removed = item_stacks.remove(i);
            return removed.quantity;
        }
        i = i + 1;
    }
    0
}

/// Whether a stack of a trade is handed out as single items: when it, or a
/// fresh stack of its kind, carries durability.
pub open spec fn is_unit_stack(s: ItemStack, kind_durability: Option<i32>) -> bool {
    s.durability is Some || kind_durability is Some
}

/// `stack` scaled by `amount`: as many single items, when it is handed out
/// one by one, else one stack of `amount` times its quantity.
pub open spec fn scaled_stack(s: ItemStack, unit: bool, amount: int) -> Seq<ItemStack> {
    if unit {
        Seq::new(
            (if s.quantity * amount > 0 {
                s.quantity * amount
            } else {
                0
            }) as nat,
            |i: int| ItemStack { quantity: 1, ..s },
        )
    } else {
        seq![ItemStack { quantity: (s.quantity * amount) as i32, ..s }]
    }
}

/// `stacks` scaled by `amount`, stack by stack, in order; `kinds[i]` is the
/// durability a fresh stack of `stacks[i]`'s kind carries.
pub open spec fn scaled_stacks(stacks: Seq<ItemStack>, kinds: Seq<Option<i32>>, amount: int) -> Seq<ItemStack>
    decreases stacks.len(),
{
    if stacks.len() == 0 {
        Seq::empty()
    } else {
        scaled_stacks(stacks.drop_last(), kinds, amount) + scaled_stack(
            stacks.last(),
            is_unit_stack(stacks.last(), kinds[stacks.len() - 1]),
            amount,
        )
    }
}

/// Some stack of `stacks` is handed out one by one.
pub open spec fn has_unit_stack(stacks: Seq<ItemStack>, kinds: Seq<Option<i32>>) -> bool {
    exists|i: int| 0 <= i < stacks.len() && is_unit_stack(#[trigger] stacks[i], kinds[i])
}

/// Whether scaling `stacks` multiplies the quantity of stack `i`: it does
/// unless scaling is refused at or before that stack.
pub open spec fn scale_reaches(stacks: Seq<ItemStack>, kinds: Seq<Option<i32>>, amount: int, i: int) -> bool {
    !(amount > MAX_DURABILITY_TRADE_AMOUNT && has_unit_stack(stacks.take(i + 1), kinds))
}

/// Every quantity that scaling `stacks` multiplies, times `amount`, fits in
/// an `i32`.
pub open spec fn scale_fits(stacks: Seq<ItemStack>, kinds: Seq<Option<i32>>, amount: int) -> bool {
    forall|i: int|
        0 <= i < stacks.len() && scale_reaches(stacks, kinds, amount, i) ==> i32::MIN <= (#[trigger] stacks[i]).quantity
            * amount <= i32::MAX
}

/// Scales the stacks of a trade order by the number of times it is
/// accepted. `kinds[i]` is the durability a fresh stack of `item_stacks[i]`'s
/// kind carries. Stacks with durability are handed out one by one, which
/// is refused for more than `MAX_DURABILITY_TRADE_AMOUNT` trades.
pub fn scale_item_stacks(item_stacks: &Vec<ItemStack>, kinds: &Vec<Option<i32>>, amount: i32) -> (r: Result<
    Vec<ItemStack>,
    BarterError,
>)
    requires
        kinds@.len() == item_stacks@.len(),
        scale_fits(item_stacks@, kinds@, amount as int),
    ensures
        r is Err <==> amount > MAX_DURABILITY_TRADE_AMOUNT && has_unit_stack(item_stacks@, kinds@),
        r matches Err(e) ==> e is IrrealisticAmount,
        r matches Ok(v) ==> v@ == scaled_stacks(item_stacks@, kinds@, amount as int),
{
    let mut scaled: Vec<ItemStack> = Vec::new();
    let n = item_stacks.len();
    let mut i: usize = 0;
    while i < n
        invariant
            n == item_stacks@.len(),
            n == kinds@.len(),
            i <= n,
            scale_fits(item_stacks@, kinds@, amount as int),
            scaled@ == scaled_stacks(item_stacks@.take(i as int), kinds@, amount as int),
            amount > MAX_DURABILITY_TRADE_AMOUNT ==> !has_unit_stack(item_stacks@.take(i as int), kinds@),
        decreases n - i,
    {
        let s = item_stacks[i];
        let unit = s.durability.is_some() || kinds[i].is_some();
        let ghost prefix = item_stacks@.take(i as int);
        let ghost next = item_stacks@.take(i + 1);
        proof {
            assert(next.drop_last() =~= prefix);
            assert(next.last() == s);
        }
        if unit {
            if amount > MAX_DURABILITY_TRADE_AMOUNT {
                proof {
                    assert(is_unit_stack(item_stacks@[i as int], kinds@[i as int]));
                }
                return Err(BarterError::IrrealisticAmount);
            }
        }
        proof {
            if amount > MAX_DURABILITY_TRADE_AMOUNT {
                assert forall|j: int| 0 <= j < next.len() implies !is_unit_stack(#[trigger] next[j], kinds@[j]) by {
                    if j < i {
                        assert(next[j] == prefix[j]);
                    }
                }
            }
            assert(scale_reaches(item_stacks@, kinds@, amount as int, i as int));
            assert(i32::MIN <= item_stacks@[i as int].quantity * amount <= i32::MAX);
        }
        if unit {
            let count = s.quantity * amount;
            let single = ItemStack { quantity: 1, ..s };
            let ghost base = scaled@;
            let mut c: i32 = 0;
            while c < count
                invariant
                    0 <= c,
                    count > 0 ==> c <= count,
                    count <= 0 ==> c == 0,
                    scaled@ == base + Seq::new(c as nat, |j: int| single),
                decreases count - c,
            {
                scaled.push(single);
                c = c + 1;
                proof {
                    assert(scaled@ =~= base + Seq::new(c as nat, |j: int| single));
                }
            }
            proof {
                assert(scaled_stack(s, true, amount as int) =~= Seq::new(c as nat, |j: int| single));
            }
        } else {
            scaled.push(ItemStack { quantity: s.quantity * amount, ..s });
        }
        proof {
            assert(scaled@ =~= scaled_stacks(next, kinds@, amount as int));
        }
        i = i + 1;
    }
    proof {
        assert(item_stacks@.take(n as int) =~= item_stacks@);
    }
    Ok(scaled)
}

/// Distance from a point to the shop: to its building when it has one,
/// else to its deployable, else unreachable.
pub open spec fn spec_get_distance(building_distance: Option<i32>, deployable_distance: Option<i32>) -> i32 {
    match building_distance {
        Some(d) => d,
        None => match deployable_distance {
            Some(d) => d,
            None => i32::MAX,
        },
    }
}

/// Distance from a point to the shop: `building_distance` is the distance
/// to the shop's building and `deployable_distance` to its deployable, for
/// whichever the shop is.
pub fn get_distance(building_distance: Option<i32>, deployable_distance: Option<i32>) -> (d: i32)
    ensures
        d == spec_get_distance(building_distance, deployable_distance),
{
    if let Some(d) = building_distance {
        return d;
    }
    if let Some(d) = deployable_distance {
        return d;
    }
    i32::MAX
}

} // verus!
