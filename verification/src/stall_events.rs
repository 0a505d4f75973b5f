use vstd::prelude::*;

use crate::items::{ItemStack, ItemType};

verus! {

/// Why a barter stall's inventory changed.
#[derive(Clone, Copy, Debug, PartialEq, Eq, Structural)]
pub enum BarterStallInventoryChangeReason {
    Sale,
}

/// A change of a barter stall's inventory: the items that came in and went
/// out, and the coins that went to or came from the claim's treasury.
#[derive(Debug)]
pub struct BarterStallInventoryEvent {
    pub shop_entity_id: u64,
    pub claim_entity_id: u64,
    pub actor_entity_id: u64,
    pub reason: BarterStallInventoryChangeReason,
    pub trade_order_entity_id: Option<u64>,
    pub trade_amount: Option<i32>,
    pub added_items: Vec<ItemStack>,
    pub removed_items: Vec<ItemStack>,
    pub treasury_coins_added: i32,
    pub treasury_coins_removed: i32,
    /// Microseconds since the Unix epoch.
    pub timestamp: i64,
}

/// An inventory's stacks before and after a change.
pub type InventoryChange = (Vec<ItemStack>, Vec<ItemStack>);

/// What identifies items for the net change: their id and type.
pub open spec fn item_key(s: ItemStack) -> (i32, ItemType) {
    (s.item_id, s.item_type)
}

/// A stack as a keyed quantity, counted with `sign`.
pub open spec fn signed_entry(s: ItemStack, sign: int) -> ((i32, ItemType), int) {
    (item_key(s), sign * s.quantity)
}

/// The stacks of `stacks` as keyed quantities counted with `sign`.
pub open spec fn signed_entries(stacks: Seq<ItemStack>, sign: int) -> Seq<((i32, ItemType), int)> {
    stacks.map_values(|s: ItemStack| signed_entry(s, sign))
}

/// The view of inventory changes as sequences.
pub open spec fn changes_view(changes: Seq<InventoryChange>) -> Seq<(Seq<ItemStack>, Seq<ItemStack>)> {
    changes.map_values(|c: InventoryChange| (c.0@, c.1@))
}

/// Every stack of the changes as a keyed quantity: what was there before
/// counts negatively, what is there after positively.
pub open spec fn change_entries(changes: Seq<(Seq<ItemStack>, Seq<ItemStack>)>) -> Seq<((i32, ItemType), int)>
    decreases changes.len(),
{
    if changes.len() == 0 {
        Seq::empty()
    } else {
        change_entries(changes.drop_last()) + signed_entries(changes.last().0, -1) + signed_entries(
            changes.last().1,
            1,
        )
    }
}

/// Net quantity of key `k` over `entries`.
pub open spec fn net_of(entries: Seq<((i32, ItemType), int)>, k: (i32, ItemType)) -> int
    decreases entries.len(),
{
    if entries.len() == 0 {
        0
    } else {
        net_of(entries.drop_last(), k) + if entries.last().0 == k {
            entries.last().1
        } else {
            0
        }
    }
}

/// The keys of `entries`, each once, in the order in which they first occur.
pub open spec fn keys_in_order(entries: Seq<((i32, ItemType), int)>) -> Seq<(i32, ItemType)>
    decreases entries.len(),
{
    if entries.len() == 0 {
        Seq::empty()
    } else {
        let ks = keys_in_order(entries.drop_last());
        if ks.contains(entries.last().0) {
            ks
        } else {
            ks.push(entries.last().0)
        }
    }
}

/// Every item's running net over `entries`, taken in order, fits in an
/// `i32` and so does its negation.
pub open spec fn nets_fit(entries: Seq<((i32, ItemType), int)>) -> bool {
    forall|n: int, k: (i32, ItemType)|
        0 <= n <= entries.len() ==> -i32::MAX <= #[trigger] net_of(entries.take(n), k) <= i32::MAX
}

/// A stack without durability of `quantity` items of key `k`.
pub open spec fn keyed_stack(k: (i32, ItemType), quantity: int) -> ItemStack {
    ItemStack { item_id: k.0, item_type: k.1, quantity: quantity as i32, durability: None }
}

/// For each key of `keys` in order whose net quantity over `entries` grew
/// (`gained`) or shrank (not `gained`), a stack of the amount of the change.
pub open spec fn net_stacks(keys: Seq<(i32, ItemType)>, entries: Seq<((i32, ItemType), int)>, gained: bool) -> Seq<
    ItemStack,
>
    decreases keys.len(),
{
    if keys.len() == 0 {
        Seq::empty()
    } else {
        let rest = net_stacks(keys.drop_last(), entries, gained);
        let k = keys.last();
        let n = net_of(entries, k);
        if gained && n > 0 {
            rest.push(keyed_stack(k, n))
        } else if !gained && n < 0 {
            rest.push(keyed_stack(k, -n))
        } else {
            rest
        }
    }
}

proof fn lemma_net_fits(entries: Seq<((i32, ItemType), int)>, k: (i32, ItemType))
    requires
        nets_fit(entries),
    ensures
        -i32::MAX <= net_of(entries, k) <= i32::MAX,
{
    assert(entries.take(entries.len() as int) =~= entries);
    assert(-i32::MAX <= net_of(entries.take(entries.len() as int), k) <= i32::MAX);
}

proof fn lemma_absent_key_net(entries: Seq<((i32, ItemType), int)>, k: (i32, ItemType))
    requires
        !keys_in_order(entries).contains(k),
    ensures
        net_of(entries, k) == 0,
    decreases entries.len(),
{
    if entries.len() > 0 {
        let ks = keys_in_order(entries.drop_last());
        if ks.contains(k) {
            if ks.contains(entries.last().0) {
            } else {
                assert(ks.push(entries.last().0).contains(k)) by {
                    let i = choose|i: int| 0 <= i < ks.len() && ks[i] == k;
                    assert(ks.push(entries.last().0)[i] == k);
                }
            }
        } else {
            if entries.last().0 == k {
                if ks.contains(entries.last().0) {
                } else {
                    assert(ks.push(entries.last().0)[ks.len() as int] == k);
                }
            }
            lemma_absent_key_net(entries.drop_last(), k);
        }
    }
}

proof fn lemma_keys_distinct(entries: Seq<((i32, ItemType), int)>)
    ensures
        keys_in_order(entries).no_duplicates(),
    decreases entries.len(),
{
    if entries.len() > 0 {
        lemma_keys_distinct(entries.drop_last());
    }
}

/// Flattens the changes into keyed quantities.
fn flatten_changes(changes: &Vec<InventoryChange>) -> (entries: Vec<(i32, ItemType, i64)>)
    ensures
        entries@.len() == change_entries(changes_view(changes@)).len(),
        forall|i: int|
            0 <= i < entries@.len() ==> ((#[trigger] entries@[i]).0, entries@[i].1) == change_entries(
                changes_view(changes@),
            )[i].0 && entries@[i].2 == change_entries(changes_view(changes@))[i].1,
{
    let ghost view = changes_view(changes@);
    let mut entries: Vec<(i32, ItemType, i64)> = Vec::new();
    let n = changes.len();
    let mut i: usize = 0;
    while i < n
        invariant
            n == changes@.len(),
            i <= n,
            view == changes_view(changes@),
            entries@.len() == change_entries(view.take(i as int)).len(),
            forall|t: int|
                0 <= t < entries@.len() ==> ((#[trigger] entries@[t]).0, entries@[t].1) == change_entries(
                    view.take(i as int),
                )[t].0 && entries@[t].2 == change_entries(view.take(i as int))[t].1,
        decreases n - i,
    {
        let before = &changes[i].0;
        let after = &changes[i].1;
        let ghost base = change_entries(view.take(i as int));
        let ghost neg = signed_entries(before@, -1);
        let ghost pos = signed_entries(after@, 1);
        let mut j: usize = 0;
        while j < before.len()
            invariant
                j <= before@.len(),
                neg == signed_entries(before@, -1),
                entries@.len() == base.len() + j,
                forall|t: int|
                    0 <= t < entries@.len() ==> ((#[trigger] entries@[t]).0, entries@[t].1) == (base + neg)[t].0
                        && entries@[t].2 == (base + neg)[t].1,
            decreases before@.len() - j,
        {
            let s = before[j];
            entries.push((s.item_id, s.item_type, -(s.quantity as i64)));
            j = j + 1;
        }
        let mut j: usize = 0;
        while j < after.len()
            invariant
                j <= after@.len(),
                neg == signed_entries(before@, -1),
                pos == signed_entries(after@, 1),
                entries@.len() == base.len() + neg.len() + j,
                forall|t: int|
                    0 <= t < entries@.len() ==> ((#[trigger] entries@[t]).0, entries@[t].1) == (base + neg
                        + pos)[t].0 && entries@[t].2 == (base + neg + pos)[t].1,
            decreases after@.len() - j,
        {
            let s = after[j];
            entries.push((s.item_id, s.item_type, s.quantity as i64));
            j = j + 1;
        }
        proof {
            let next = view.take(i + 1);
            assert(next.drop_last() =~= view.take(i as int));
            assert(next.last() == view[i as int]);
            assert(view[i as int] == (changes@[i as int].0@, changes@[i as int].1@));
            assert(change_entries(next) == base + neg + pos);
        }
        i = i + 1;
    }
    proof {
        assert(view.take(n as int) =~= view);
    }
    entries
}

/// Net quantity change per item id and type across `changes`, split into
/// (added, removed), both with positive quantities and without durability,
/// in the order in which the items first occur. Durability is ignored.
pub fn net_item_change(changes: &Vec<InventoryChange>) -> (r: (Vec<ItemStack>, Vec<ItemStack>))
    requires
        nets_fit(change_entries(changes_view(changes@))),
    ensures
        ({
            let entries = change_entries(changes_view(changes@));
            &&& r.0@ == net_stacks(keys_in_order(entries), entries, true)
            &&& r.1@ == net_stacks(keys_in_order(entries), entries, false)
        }),
{
    let entries = flatten_changes(changes);
    let ghost all = change_entries(changes_view(changes@));
    proof {
        assert(entries@.len() == all.len());
    }
    // (item id, item type, net quantity), in first-occurrence order
    let mut nets: Vec<(i32, ItemType, i64)> = Vec::new();
    let n = entries.len();
    let mut i: usize = 0;
    while i < n
        invariant
            n == all.len(),
            n == entries@.len(),
            i <= n,
            nets_fit(all),
            forall|t: int|
                0 <= t < entries@.len() ==> ((#[trigger] entries@[t]).0, entries@[t].1) == all[t].0
                    && entries@[t].2 == all[t].1,
            nets@.len() == keys_in_order(all.take(i as int)).len(),
            forall|t: int|
                0 <= t < nets@.len() ==> ((#[trigger] nets@[t]).0, nets@[t].1) == keys_in_order(
                    all.take(i as int),
                )[t] && nets@[t].2 == net_of(all.take(i as int), keys_in_order(all.take(i as int))[t]),
        decreases n - i,
    {
        let e = entries[i];
        let ghost prefix = all.take(i as int);
        let ghost next = all.take(i + 1);
        let ghost ks = keys_in_order(prefix);
        proof {
            assert(next.drop_last() =~= prefix);
            assert(next.last() == all[i as int]);
            lemma_keys_distinct(prefix);
        }
        let mut j: usize = 0;
        let mut found = false;
        while j < nets.len() && !found
            invariant
                j <= nets@.len(),
                found ==> j < nets@.len() && nets@[j as int].0 == e.0 && nets@[j as int].1 == e.1,
                !found ==> forall|t: int| 0 <= t < j ==> (#[trigger] nets@[t]).0 != e.0 || nets@[t].1 != e.1,
            decreases nets@.len() - j + (if found { 0int } else { 1int }),
        {
            if nets[j].0 == e.0 && nets[j].1 == e.1 {
                found = true;
            } else {
                j = j + 1;
            }
        }
        if found {
            proof {
                assert(ks[j as int] == (e.0, e.1));
                assert(ks.contains(next.last().0));
                assert(keys_in_order(next) == ks);
                assert(-i32::MAX <= net_of(all.take(i + 1), (e.0, e.1)) <= i32::MAX);
                assert(-i32::MAX <= net_of(all.take(i as int), (e.0, e.1)) <= i32::MAX);
            }
            let (id, ty, q) = nets[j];
            nets.set(j, (id, ty, q + e.2));
            proof {
                assert forall|t: int| 0 <= t < nets@.len() implies ((#[trigger] nets@[t]).0, nets@[t].1) == ks[t]
                    && nets@[t].2 == net_of(next, ks[t]) by {
                    if t != j {
                        assert(ks[t] != ks[j as int]);
                    }
                }
            }
        } else {
            proof {
                assert(!ks.contains((e.0, e.1))) by {
                    if ks.contains((e.0, e.1)) {
                        let t = choose|t: int| 0 <= t < ks.len() && ks[t] == (e.0, e.1);
                        assert(nets@[t].0 == e.0 && nets@[t].1 == e.1);
                    }
                }
                lemma_absent_key_net(prefix, (e.0, e.1));
                assert(keys_in_order(next) == ks.push((e.0, e.1)));
            }
            nets.push((e.0, e.1, e.2));
            proof {
                assert forall|t: int| 0 <= t < nets@.len() implies ((#[trigger] nets@[t]).0, nets@[t].1)
                    == keys_in_order(next)[t] && nets@[t].2 == net_of(next, keys_in_order(next)[t]) by {
                    if t < ks.len() {
                        assert(ks[t] != (e.0, e.1));
                    }
                }
            }
        }
        i = i + 1;
    }
    proof {
        assert(all.take(n as int) =~= all);
    }
    let ghost keys = keys_in_order(all);
    let mut added: Vec<ItemStack> = Vec::new();
    let mut removed: Vec<ItemStack> = Vec::new();
    let m = nets.len();
    let mut k: usize = 0;
    while k < m
        invariant
            m == nets@.len(),
            m == keys.len(),
            k <= m,
            nets_fit(all),
            forall|t: int|
                0 <= t < nets@.len() ==> ((#[trigger] nets@[t]).0, nets@[t].1) == keys[t] && nets@[t].2 == net_of(
                    all,
                    keys[t],
                ),
            added@ == net_stacks(keys.take(k as int), all, true),
            removed@ == net_stacks(keys.take(k as int), all, false),
        decreases m - k,
    {
        let (id, ty, q) = nets[k];
        proof {
            lemma_net_fits(all, keys[k as int]);
            let next = keys.take(k + 1);
            assert(next.drop_last() =~= keys.take(k as int));
            assert(next.last() == keys[k as int]);
        }
        if q > 0 {
            added.push(ItemStack::new_ignore_durability(id, ty, q as i32));
        } else if q < 0 {
            removed.push(ItemStack::new_ignore_durability(id, ty, (-q) as i32));
        }
        k = k + 1;
    }
    proof {
        assert(keys.take(m as int) =~= keys);
    }
    (added, removed)
}

/// Total quantity of the stacks of `stacks` with key `k`.
pub open spec fn key_units(stacks: Seq<ItemStack>, k: (i32, ItemType)) -> int
    decreases stacks.len(),
{
    if stacks.len() == 0 {
        0
    } else {
        key_units(stacks.drop_last(), k) + if item_key(stacks.last()) == k {
            stacks.last().quantity as int
        } else {
            0
        }
    }
}

proof fn lemma_net_stacks_units(keys: Seq<(i32, ItemType)>, entries: Seq<((i32, ItemType), int)>, k: (i32, ItemType))
    requires
        keys.no_duplicates(),
        nets_fit(entries),
    ensures
        key_units(net_stacks(keys, entries, true), k) - key_units(net_stacks(keys, entries, false), k) == if keys.contains(
            k,
        ) {
            net_of(entries, k)
        } else {
            0
        },
        forall|i: int|
            0 <= i < net_stacks(keys, entries, true).len() ==> #[trigger] net_stacks(keys, entries, true)[i].quantity > 0,
        forall|i: int|
            0 <= i < net_stacks(keys, entries, false).len() ==> #[trigger] net_stacks(keys, entries, false)[i].quantity
                > 0,
    decreases keys.len(),
{
    if keys.len() > 0 {
        let rest = keys.drop_last();
        let last = keys.last();
        assert(rest.no_duplicates());
        lemma_net_stacks_units(rest, entries, k);
        lemma_net_fits(entries, last);
        let g = net_stacks(rest, entries, true);
        let r = net_stacks(rest, entries, false);
        let n = net_of(entries, last);
        if n > 0 {
            assert(net_stacks(keys, entries, true).drop_last() == g);
        }
        if n < 0 {
            assert(net_stacks(keys, entries, false).drop_last() == r);
        }
        if keys.contains(k) && k != last {
            let i = choose|i: int| 0 <= i < keys.len() && keys[i] == k;
            assert(rest[i] == k);
        }
        if rest.contains(k) {
            let i = choose|i: int| 0 <= i < rest.len() && rest[i] == k;
            assert(keys[i] == k);
            if k == last {
                assert(keys[keys.len() - 1] == k);
            }
        }
        if k == last {
            assert(keys[keys.len() - 1] == k);
        }
    }
}

/// The net change reported for a stall accounts exactly for what changed:
/// for every item, what the added list holds minus what the removed list
/// holds is the item's net change, and both lists hold positive quantities.
pub proof fn law_net_change_exact(entries: Seq<((i32, ItemType), int)>, k: (i32, ItemType))
    requires
        nets_fit(entries),
    ensures
        key_units(net_stacks(keys_in_order(entries), entries, true), k) - key_units(
            net_stacks(keys_in_order(entries), entries, false),
            k,
        ) == net_of(entries, k),
        forall|i: int|
            0 <= i < net_stacks(keys_in_order(entries), entries, true).len() ==> #[trigger] net_stacks(
                keys_in_order(entries),
                entries,
                true,
            )[i].quantity > 0,
        forall|i: int|
            0 <= i < net_stacks(keys_in_order(entries), entries, false).len() ==> #[trigger] net_stacks(
                keys_in_order(entries),
                entries,
                false,
            )[i].quantity > 0,
{
    lemma_keys_distinct(entries);
    lemma_net_stacks_units(keys_in_order(entries), entries, k);
    if !keys_in_order(entries).contains(k) {
        lemma_absent_key_net(entries, k);
    }
}

/// The stacks reported as added for inventory changes `changes`.
pub open spec fn net_added(changes: Seq<(Seq<ItemStack>, Seq<ItemStack>)>) -> Seq<ItemStack> {
    net_stacks(keys_in_order(change_entries(changes)), change_entries(changes), true)
}

/// The stacks reported as removed for inventory changes `changes`.
pub open spec fn net_removed(changes: Seq<(Seq<ItemStack>, Seq<ItemStack>)>) -> Seq<ItemStack> {
    net_stacks(keys_in_order(change_entries(changes)), change_entries(changes), false)
}

/// How often stack `s` is reported as added (`gained`) or removed over
/// `entries`: once when it is the stack of its item's net change in that
/// direction, else never.
pub open spec fn net_count(entries: Seq<((i32, ItemType), int)>, gained: bool, s: ItemStack) -> nat {
    let n = net_of(entries, item_key(s));
    if (gained && n > 0 && s == keyed_stack(item_key(s), n)) || (!gained && n < 0 && s == keyed_stack(
        item_key(s),
        -n,
    )) {
        1
    } else {
        0
    }
}

proof fn lemma_net_stacks_count(
    keys: Seq<(i32, ItemType)>,
    entries: Seq<((i32, ItemType), int)>,
    gained: bool,
    s: ItemStack,
)
    requires
        keys.no_duplicates(),
    ensures
        net_stacks(keys, entries, gained).to_multiset().count(s) == if keys.contains(item_key(s)) {
            net_count(entries, gained, s)
        } else {
            0
        },
    decreases keys.len(),
{
    broadcast use vstd::seq_lib::group_to_multiset_ensures;

    if keys.len() == 0 {
        assert(net_stacks(keys, entries, gained).to_multiset() =~= vstd::multiset::Multiset::empty()) by {
            assert(net_stacks(keys, entries, gained) =~= Seq::<ItemStack>::empty());
            assert(Seq::<ItemStack>::empty().to_multiset().len() == 0);
        }
    } else {
        let rest = keys.drop_last();
        let last = keys.last();
        assert(rest.no_duplicates());
        lemma_net_stacks_count(rest, entries, gained, s);
        let k = item_key(s);
        assert(keys.contains(k) <==> rest.contains(k) || k == last) by {
            if keys.contains(k) && k != last {
                let i = choose|i: int| 0 <= i < keys.len() && keys[i] == k;
                assert(rest[i] == k);
            }
            if rest.contains(k) {
                let i = choose|i: int| 0 <= i < rest.len() && rest[i] == k;
                assert(keys[i] == k);
            }
            if k == last {
                assert(keys[keys.len() - 1] == k);
            }
        }
        if k == last {
            assert(!rest.contains(k)) by {
                if rest.contains(k) {
                    let i = choose|i: int| 0 <= i < rest.len() && rest[i] == k;
                    assert(keys[i] == keys[keys.len() - 1]);
                }
            }
        }
    }
}

proof fn lemma_net_lists_count(entries: Seq<((i32, ItemType), int)>, gained: bool, s: ItemStack)
    ensures
        net_stacks(keys_in_order(entries), entries, gained).to_multiset().count(s) == net_count(entries, gained, s),
{
    lemma_keys_distinct(entries);
    lemma_net_stacks_count(keys_in_order(entries), entries, gained, s);
    if !keys_in_order(entries).contains(item_key(s)) {
        lemma_absent_key_net(entries, item_key(s));
    }
}

proof fn lemma_net_of_append(a: Seq<((i32, ItemType), int)>, b: Seq<((i32, ItemType), int)>, k: (i32, ItemType))
    ensures
        net_of(a + b, k) == net_of(a, k) + net_of(b, k),
    decreases b.len(),
{
    if b.len() == 0 {
        assert(a + b =~= a);
    } else {
        assert((a + b).drop_last() =~= a + b.drop_last());
        lemma_net_of_append(a, b.drop_last(), k);
    }
}

proof fn lemma_net_of_signed(x: Seq<ItemStack>, sign: int, k: (i32, ItemType))
    requires
        sign == 1 || sign == -1,
    ensures
        net_of(signed_entries(x, sign), k) == if sign == 1 {
            key_units(x, k)
        } else {
            -key_units(x, k)
        },
    decreases x.len(),
{
    if x.len() > 0 {
        assert(signed_entries(x, sign).drop_last() =~= signed_entries(x.drop_last(), sign));
        lemma_net_of_signed(x.drop_last(), sign, k);
    } else {
        assert(signed_entries(x, sign) =~= Seq::<((i32, ItemType), int)>::empty());
    }
}

/// Net change of one item over one inventory change.
pub open spec fn change_net(c: (Seq<ItemStack>, Seq<ItemStack>), k: (i32, ItemType)) -> int {
    key_units(c.1, k) - key_units(c.0, k)
}

/// Net change of one item over a sequence of inventory changes.
pub open spec fn changes_net(changes: Seq<(Seq<ItemStack>, Seq<ItemStack>)>, k: (i32, ItemType)) -> int
    decreases changes.len(),
{
    if changes.len() == 0 {
        0
    } else {
        changes_net(changes.drop_last(), k) + change_net(changes.last(), k)
    }
}

proof fn lemma_changes_net(changes: Seq<(Seq<ItemStack>, Seq<ItemStack>)>, k: (i32, ItemType))
    ensures
        net_of(change_entries(changes), k) == changes_net(changes, k),
    decreases changes.len(),
{
    if changes.len() > 0 {
        let c = changes.last();
        lemma_changes_net(changes.drop_last(), k);
        let base = change_entries(changes.drop_last());
        lemma_net_of_append(base + signed_entries(c.0, -1), signed_entries(c.1, 1), k);
        lemma_net_of_append(base, signed_entries(c.0, -1), k);
        lemma_net_of_signed(c.0, -1, k);
        lemma_net_of_signed(c.1, 1, k);
    }
}

proof fn lemma_changes_net_append(
    a: Seq<(Seq<ItemStack>, Seq<ItemStack>)>,
    b: Seq<(Seq<ItemStack>, Seq<ItemStack>)>,
    k: (i32, ItemType),
)
    ensures
        changes_net(a + b, k) == changes_net(a, k) + changes_net(b, k),
    decreases b.len(),
{
    if b.len() == 0 {
        assert(a + b =~= a);
    } else {
        assert((a + b).drop_last() =~= a + b.drop_last());
        lemma_changes_net_append(a, b.drop_last(), k);
    }
}

proof fn lemma_changes_net_remove(cs: Seq<(Seq<ItemStack>, Seq<ItemStack>)>, i: int, k: (i32, ItemType))
    requires
        0 <= i < cs.len(),
    ensures
        changes_net(cs, k) == changes_net(cs.remove(i), k) + change_net(cs[i], k),
{
    let front = cs.subrange(0, i);
    let back = cs.subrange(i + 1, cs.len() as int);
    assert(cs =~= front + (seq![cs[i]] + back));
    lemma_changes_net_append(front, seq![cs[i]] + back, k);
    lemma_changes_net_append(seq![cs[i]], back, k);
    lemma_changes_net_append(front, back, k);
    assert(seq![cs[i]].drop_last() =~= Seq::<(Seq<ItemStack>, Seq<ItemStack>)>::empty());
    assert(changes_net(Seq::<(Seq<ItemStack>, Seq<ItemStack>)>::empty(), k) == 0);
    assert(changes_net(seq![cs[i]], k) == change_net(cs[i], k));
    assert(cs.remove(i) =~= front + back);
}

proof fn lemma_changes_net_permutation(
    cs: Seq<(Seq<ItemStack>, Seq<ItemStack>)>,
    ps: Seq<(Seq<ItemStack>, Seq<ItemStack>)>,
    k: (i32, ItemType),
)
    requires
        cs.to_multiset() == ps.to_multiset(),
    ensures
        changes_net(cs, k) == changes_net(ps, k),
    decreases cs.len(),
{
    broadcast use vstd::seq_lib::group_to_multiset_ensures;

    if cs.len() == 0 {
        assert(ps.to_multiset().len() == 0);
        assert(ps =~= Seq::<(Seq<ItemStack>, Seq<ItemStack>)>::empty());
    } else {
        let c = cs.last();
        let rest = cs.drop_last();
        assert(cs =~= rest.push(c));
        assert(cs.to_multiset().count(c) > 0);
        assert(ps.contains(c));
        let i = choose|i: int| 0 <= i < ps.len() && ps[i] == c;
        assert(ps.remove(i).to_multiset() =~= ps.to_multiset().remove(c));
        assert(rest.to_multiset() =~= cs.to_multiset().remove(c));
        lemma_changes_net_permutation(rest, ps.remove(i), k);
        lemma_changes_net_remove(ps, i, k);
    }
}

proof fn lemma_same_nets_same_lists(e1: Seq<((i32, ItemType), int)>, e2: Seq<((i32, ItemType), int)>)
    requires
        forall|k: (i32, ItemType)| #[trigger] net_of(e1, k) == net_of(e2, k),
    ensures
        net_stacks(keys_in_order(e1), e1, true).to_multiset() == net_stacks(keys_in_order(e2), e2, true).to_multiset(),
        net_stacks(keys_in_order(e1), e1, false).to_multiset() == net_stacks(keys_in_order(e2), e2, false).to_multiset(),
{
    assert forall|s: ItemStack|
        #[trigger] net_stacks(keys_in_order(e1), e1, true).to_multiset().count(s) == net_stacks(
            keys_in_order(e2),
            e2,
            true,
        ).to_multiset().count(s) by {
        lemma_net_lists_count(e1, true, s);
        lemma_net_lists_count(e2, true, s);
        assert(net_of(e1, item_key(s)) == net_of(e2, item_key(s)));
    }
    assert forall|s: ItemStack|
        #[trigger] net_stacks(keys_in_order(e1), e1, false).to_multiset().count(s) == net_stacks(
            keys_in_order(e2),
            e2,
            false,
        ).to_multiset().count(s) by {
        lemma_net_lists_count(e1, false, s);
        lemma_net_lists_count(e2, false, s);
        assert(net_of(e1, item_key(s)) == net_of(e2, item_key(s)));
    }
    assert(net_stacks(keys_in_order(e1), e1, true).to_multiset() =~= net_stacks(keys_in_order(e2), e2, true).to_multiset());
    assert(net_stacks(keys_in_order(e1), e1, false).to_multiset() =~= net_stacks(keys_in_order(e2), e2, false).to_multiset());
}

proof fn lemma_opposite_nets_swap_lists(e1: Seq<((i32, ItemType), int)>, e2: Seq<((i32, ItemType), int)>)
    requires
        forall|k: (i32, ItemType)| #[trigger] net_of(e2, k) == -net_of(e1, k),
    ensures
        net_stacks(keys_in_order(e2), e2, true).to_multiset() == net_stacks(keys_in_order(e1), e1, false).to_multiset(),
        net_stacks(keys_in_order(e2), e2, false).to_multiset() == net_stacks(keys_in_order(e1), e1, true).to_multiset(),
{
    assert forall|s: ItemStack|
        #[trigger] net_stacks(keys_in_order(e2), e2, true).to_multiset().count(s) == net_stacks(
            keys_in_order(e1),
            e1,
            false,
        ).to_multiset().count(s) by {
        lemma_net_lists_count(e2, true, s);
        lemma_net_lists_count(e1, false, s);
        assert(net_of(e2, item_key(s)) == -net_of(e1, item_key(s)));
    }
    assert forall|s: ItemStack|
        #[trigger] net_stacks(keys_in_order(e2), e2, false).to_multiset().count(s) == net_stacks(
            keys_in_order(e1),
            e1,
            true,
        ).to_multiset().count(s) by {
        lemma_net_lists_count(e2, false, s);
        lemma_net_lists_count(e1, true, s);
        assert(net_of(e2, item_key(s)) == -net_of(e1, item_key(s)));
    }
    assert(net_stacks(keys_in_order(e2), e2, true).to_multiset() =~= net_stacks(keys_in_order(e1), e1, false).to_multiset());
    assert(net_stacks(keys_in_order(e2), e2, false).to_multiset() =~= net_stacks(keys_in_order(e1), e1, true).to_multiset());
}

proof fn lemma_zero_nets_empty(keys: Seq<(i32, ItemType)>, entries: Seq<((i32, ItemType), int)>, gained: bool)
    requires
        forall|k: (i32, ItemType)| #[trigger] net_of(entries, k) == 0,
    ensures
        net_stacks(keys, entries, gained) == Seq::<ItemStack>::empty(),
    decreases keys.len(),
{
    if keys.len() > 0 {
        assert(net_of(entries, keys.last()) == 0);
        lemma_zero_nets_empty(keys.drop_last(), entries, gained);
    } else {
        assert(net_stacks(keys, entries, gained) =~= Seq::<ItemStack>::empty());
    }
}

/// No change, or an inventory left as it was, reports nothing added and
/// nothing removed.
pub proof fn law_net_change_of_nothing(x: Seq<ItemStack>)
    ensures
        net_added(Seq::empty()) == Seq::<ItemStack>::empty(),
        net_removed(Seq::empty()) == Seq::<ItemStack>::empty(),
        net_added(seq![(x, x)]) == Seq::<ItemStack>::empty(),
        net_removed(seq![(x, x)]) == Seq::<ItemStack>::empty(),
{
    let none = Seq::<(Seq<ItemStack>, Seq<ItemStack>)>::empty();
    assert forall|k: (i32, ItemType)| #[trigger] net_of(change_entries(none), k) == 0 by {
        lemma_changes_net(none, k);
    }
    lemma_zero_nets_empty(keys_in_order(change_entries(none)), change_entries(none), true);
    lemma_zero_nets_empty(keys_in_order(change_entries(none)), change_entries(none), false);
    let one = seq![(x, x)];
    assert forall|k: (i32, ItemType)| #[trigger] net_of(change_entries(one), k) == 0 by {
        lemma_changes_net(one, k);
        assert(one.drop_last() =~= none);
        assert(changes_net(none, k) == 0);
        assert(one.last() == (x, x));
        assert(changes_net(one, k) == change_net((x, x), k));
    }
    lemma_zero_nets_empty(keys_in_order(change_entries(one)), change_entries(one), true);
    lemma_zero_nets_empty(keys_in_order(change_entries(one)), change_entries(one), false);
}

/// Swapping an inventory's before and after swaps what is reported added
/// and removed (the same stacks, taken as multisets).
pub proof fn law_net_change_swapped(x: Seq<ItemStack>, y: Seq<ItemStack>)
    ensures
        net_added(seq![(y, x)]).to_multiset() == net_removed(seq![(x, y)]).to_multiset(),
        net_removed(seq![(y, x)]).to_multiset() == net_added(seq![(x, y)]).to_multiset(),
{
    let none = Seq::<(Seq<ItemStack>, Seq<ItemStack>)>::empty();
    let fwd = seq![(x, y)];
    let back = seq![(y, x)];
    assert forall|k: (i32, ItemType)| #[trigger] net_of(change_entries(back), k) == -net_of(change_entries(fwd), k) by {
        lemma_changes_net(fwd, k);
        lemma_changes_net(back, k);
        assert(fwd.drop_last() =~= none);
        assert(back.drop_last() =~= none);
        assert(changes_net(none, k) == 0);
        assert(changes_net(fwd, k) == change_net((x, y), k));
        assert(changes_net(back, k) == change_net((y, x), k));
    }
    lemma_opposite_nets_swap_lists(change_entries(fwd), change_entries(back));
}

/// The net change does not depend on how the changes are split: a change
/// from `x` to `y` then from `y` to `z` reports what one change from `x` to
/// `z` reports (the same stacks, taken as multisets).
pub proof fn law_net_change_chained(x: Seq<ItemStack>, y: Seq<ItemStack>, z: Seq<ItemStack>)
    ensures
        net_added(seq![(x, y), (y, z)]).to_multiset() == net_added(seq![(x, z)]).to_multiset(),
        net_removed(seq![(x, y), (y, z)]).to_multiset() == net_removed(seq![(x, z)]).to_multiset(),
{
    let none = Seq::<(Seq<ItemStack>, Seq<ItemStack>)>::empty();
    let two = seq![(x, y), (y, z)];
    let one = seq![(x, z)];
    assert forall|k: (i32, ItemType)| #[trigger] net_of(change_entries(two), k) == net_of(change_entries(one), k) by {
        lemma_changes_net(two, k);
        lemma_changes_net(one, k);
        assert(two.drop_last() =~= seq![(x, y)]);
        assert(seq![(x, y)].drop_last() =~= none);
        assert(one.drop_last() =~= none);
        assert(changes_net(none, k) == 0);
        assert(changes_net(seq![(x, y)], k) == change_net((x, y), k));
        assert(two.last() == (y, z));
        assert(changes_net(two, k) == change_net((x, y), k) + change_net((y, z), k));
        assert(changes_net(one, k) == change_net((x, z), k));
    }
    lemma_same_nets_same_lists(change_entries(two), change_entries(one));
}

/// The net change does not depend on the order of the changes: any
/// reordering reports the same stacks (taken as multisets).
pub proof fn law_net_change_order_free(
    changes: Seq<(Seq<ItemStack>, Seq<ItemStack>)>,
    reordered: Seq<(Seq<ItemStack>, Seq<ItemStack>)>,
)
    requires
        changes.to_multiset() == reordered.to_multiset(),
    ensures
        net_added(reordered).to_multiset() == net_added(changes).to_multiset(),
        net_removed(reordered).to_multiset() == net_removed(changes).to_multiset(),
{
    assert forall|k: (i32, ItemType)| #[trigger] net_of(change_entries(reordered), k) == net_of(
        change_entries(changes),
        k,
    ) by {
        lemma_changes_net(changes, k);
        lemma_changes_net(reordered, k);
        lemma_changes_net_permutation(changes, reordered, k);
    }
    lemma_same_nets_same_lists(change_entries(reordered), change_entries(changes));
}

impl BarterStallInventoryEvent {
    /// The event of a trade order accepted `trade_amount` times at a barter
    /// stall, where `changes` are the stall's own inventories before and
    /// after. There is none when the shop is not a barter stall building
    /// (`claim_entity_id` is None; it is 0 for an unclaimed stall).
    pub fn emit_sale(
        claim_entity_id: Option<u64>,
        actor_entity_id: u64,
        shop_entity_id: u64,
        trade_order_entity_id: u64,
        trade_amount: i32,
        changes: &Vec<InventoryChange>,
        treasury_coins_added: i32,
        treasury_coins_removed: i32,
        timestamp: i64,
    ) -> (event: Option<BarterStallInventoryEvent>)
        requires
            claim_entity_id is Some ==> nets_fit(change_entries(changes_view(changes@))),
        ensures
            event is Some <==> claim_entity_id is Some,
            event matches Some(ev) ==> {
                let entries = change_entries(changes_view(changes@));
                &&& ev.shop_entity_id == shop_entity_id
                &&& ev.claim_entity_id == claim_entity_id.unwrap()
                &&& ev.actor_entity_id == actor_entity_id
                &&& ev.reason == BarterStallInventoryChangeReason::Sale
                &&& ev.trade_order_entity_id == Some(trade_order_entity_id)
                &&& ev.trade_amount == Some(trade_amount)
                &&& ev.added_items@ == net_stacks(keys_in_order(entries), entries, true)
                &&& ev.removed_items@ == net_stacks(keys_in_order(entries), entries, false)
                &&& ev.treasury_coins_added == treasury_coins_added
                &&& ev.treasury_coins_removed == treasury_coins_removed
                &&& ev.timestamp == timestamp
            },
    {
        let claim_entity_id = match claim_entity_id {
            Some(c) => c,
            None => {
                return None;
            },
        };
        let (added_items, removed_items) = net_item_change(changes);
        Some(
            BarterStallInventoryEvent {
                shop_entity_id,
                claim_entity_id,
                actor_entity_id,
                reason: BarterStallInventoryChangeReason::Sale,
                trade_order_entity_id: Some(trade_order_entity_id),
                trade_amount: Some(trade_amount),
                added_items,
                removed_items,
                treasury_coins_added,
                treasury_coins_removed,
                timestamp,
            },
        )
    }
}

} // verus!
