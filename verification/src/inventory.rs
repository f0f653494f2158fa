use vstd::prelude::*;

use std::collections::BTreeMap;

use crate::block::{Block, BLOCK_KINDS};

verus! {

/// Number of hotbar slots.
pub const HOTBAR_SLOTS: usize = 9;

/// A crafting recipe: what it costs and what it makes.
pub struct Recipe {
    pub label: String,
    pub cost: Vec<(Block, u32)>,
    pub out: Block,
    pub out_n: u32,
}

/// The index of the first empty slot at or after `from`, or the number of
/// slots when there is none.
pub open spec fn first_free_slot(slots: Seq<Option<Block>>, from: int) -> int
    decreases slots.len() - from,
{
    if from >= slots.len() {
        slots.len() as int
    } else if slots[from] is None {
        from
    } else {
        first_free_slot(slots, from + 1)
    }
}

/// The hotbar after a block is picked up: unchanged when the block already
/// has a slot or no slot is free, else the block takes the first free slot.
pub open spec fn hotbar_after_pickup(slots: Seq<Option<Block>>, b: Block) -> Seq<Option<Block>> {
    let k = first_free_slot(slots, 0);
    if slots.contains(Some(b)) || k >= slots.len() {
        slots
    } else {
        slots.update(k, Some(b))
    }
}

/// How many of the block with id `id` a stock map records.
pub open spec fn stock(counts: Map<u8, u32>, id: u8) -> int {
    if counts.contains_key(id) {
        counts[id] as int
    } else {
        0
    }
}

/// Whether `counts` holds at least `n` of the block with id `id` under its
/// own entry (an absent entry pays for nothing, not even zero).
pub open spec fn can_pay(counts: Map<u8, u32>, id: u8, n: u32) -> bool {
    counts.contains_key(id) && counts[id] >= n
}

/// One removal: the entry loses `n` when it can pay, else nothing changes.
pub open spec fn pay(counts: Map<u8, u32>, id: u8, n: u32) -> Map<u8, u32> {
    if can_pay(counts, id, n) {
        counts.insert(id, (counts[id] - n) as u32)
    } else {
        counts
    }
}

/// The stock after paying the first `k` entries of a cost list in order.
pub open spec fn pay_all(counts: Map<u8, u32>, cost: Seq<(Block, u32)>, k: int) -> Map<u8, u32>
    decreases k,
{
    if k <= 0 || k > cost.len() {
        counts
    } else {
        pay(pay_all(counts, cost, k - 1), cost[k - 1].0.id(), cost[k - 1].1)
    }
}

/// The stock after `n` more of the block with id `id` came in.
pub open spec fn receive(counts: Map<u8, u32>, id: u8, n: u32) -> Map<u8, u32> {
    counts.insert(id, (stock(counts, id) + n) as u32)
}

/// The saved stock: `(id, count)` for every stocked id below `n`, in
/// increasing id order.
pub open spec fn stock_list(counts: Map<u8, u32>, n: int) -> Seq<(u8, u32)>
    decreases n,
{
    if n <= 0 {
        Seq::empty()
    } else {
        let prev = stock_list(counts, n - 1);
        let id = (n - 1) as u8;
        if counts.contains_key(id) {
            prev.push((id, counts[id]))
        } else {
            prev
        }
    }
}

/// The stock a saved list loads as: entries are read in order (a later
/// entry for the same block wins) and unknown ids load as air.
pub open spec fn stock_from_list(list: Seq<(u8, u32)>) -> Map<u8, u32>
    decreases list.len(),
{
    if list.len() == 0 {
        Map::empty()
    } else {
        stock_from_list(list.drop_last()).insert(Block::decode(list.last().0).id(), list.last().1)
    }
}

/// No block is listed twice in a cost list.
pub open spec fn distinct_blocks(cost: Seq<(Block, u32)>) -> bool {
    forall|i: int, j: int| 0 <= i < j < cost.len() ==> #[trigger] cost[i].0 != #[trigger] cost[j].0
}

/// Paying a cost list whose blocks are distinct and each affordable takes
/// exactly the listed amount of each listed block, one entry after the
/// other, and leaves every other block as it was.
pub proof fn lemma_pay_all_takes_each_cost(counts: Map<u8, u32>, cost: Seq<(Block, u32)>, k: int)
    requires
        0 <= k <= cost.len(),
        distinct_blocks(cost),
        forall|i: int| 0 <= i < cost.len() ==> stock(counts, (#[trigger] cost[i]).0.id()) >= cost[i].1,
    ensures
        forall|j: int|
            0 <= j < cost.len() ==> #[trigger] stock(pay_all(counts, cost, k), cost[j].0.id()) == if j
                < k {
                stock(counts, cost[j].0.id()) - cost[j].1
            } else {
                stock(counts, cost[j].0.id())
            },
        forall|id: u8|
            (forall|j: int| 0 <= j < k ==> (#[trigger] cost[j]).0.id() != id) ==> #[trigger] stock(
                pay_all(counts, cost, k),
                id,
            ) == stock(counts, id),
    decreases k,
{
    if k > 0 {
        lemma_pay_all_takes_each_cost(counts, cost, k - 1);
        let prev = pay_all(counts, cost, k - 1);
        let last = cost[k - 1];
        let lid = last.0.id();
        assert(pay_all(counts, cost, k) == pay(prev, lid, last.1));
        assert(stock(prev, lid) == stock(counts, lid));
        assert(stock(pay_all(counts, cost, k), lid) == stock(counts, lid) - last.1);
        assert forall|j: int| 0 <= j < cost.len() && j != k - 1 implies cost[j].0.id() != lid by {
            if j < k - 1 {
                assert(cost[j].0 != cost[k - 1].0);
            } else {
                assert(cost[k - 1].0 != cost[j].0);
            }
            crate::block::lemma_id_injective(cost[j].0, last.0);
        }
        assert forall|id: u8| id != lid implies stock(pay_all(counts, cost, k), id) == stock(
            prev,
            id,
        ) by {}
        assert forall|j: int|
            0 <= j < cost.len() implies #[trigger] stock(pay_all(counts, cost, k), cost[j].0.id())
            == if j < k {
            stock(counts, cost[j].0.id()) - cost[j].1
        } else {
            stock(counts, cost[j].0.id())
        } by {
            if j != k - 1 {
                assert(cost[j].0.id() != lid);
                assert(stock(pay_all(counts, cost, k), cost[j].0.id()) == stock(prev, cost[j].0.id()));
            }
        }
        assert forall|id: u8|
            (forall|j: int| 0 <= j < k ==> (#[trigger] cost[j]).0.id() != id) implies #[trigger] stock(
            pay_all(counts, cost, k),
            id,
        ) == stock(counts, id) by {
            assert(cost[k - 1].0.id() != id);
            assert forall|j: int| 0 <= j < k - 1 implies (#[trigger] cost[j]).0.id() != id by {}
            assert(stock(prev, id) == stock(counts, id));
        }
    }
}

/// Paying a cost list leaves every block it does not list as it was.
pub proof fn lemma_pay_all_leaves_others(counts: Map<u8, u32>, cost: Seq<(Block, u32)>, k: int, id: u8)
    requires
        0 <= k <= cost.len(),
        forall|j: int| 0 <= j < k ==> (#[trigger] cost[j]).0.id() != id,
    ensures
        stock(pay_all(counts, cost, k), id) == stock(counts, id),
    decreases k,
{
    if k > 0 {
        assert(cost[k - 1].0.id() != id);
        lemma_pay_all_leaves_others(counts, cost, k - 1, id);
    }
}

/// How a hotbar slot is saved: the block id, or -1 for an empty slot.
pub open spec fn slot_code(slot: Option<Block>) -> i16 {
    match slot {
        Some(b) => b.id() as i16,
        None => -1i16,
    }
}

/// How a saved slot code loads: negative codes are empty slots, others name
/// the block whose id is the code's low byte (unknown ids load as air).
pub open spec fn slot_from_code(v: i16) -> Option<Block> {
    if v >= 0 {
        Some(Block::decode((v % 256) as u8))
    } else {
        None
    }
}

/// The hotbar loaded from saved codes: the first nine codes fill the slots,
/// slots without a code stay empty.
pub open spec fn slots_from_codes(codes: Seq<i16>) -> Seq<Option<Block>> {
    Seq::new(9, |i: int| if i < codes.len() { slot_from_code(codes[i]) } else { None })
}

proof fn lemma_stock_list_roundtrip(m: Map<u8, u32>, n: int)
    requires
        0 <= n <= BLOCK_KINDS,
    ensures
        forall|k: u8|
            #[trigger] stock_from_list(stock_list(m, n)).contains_key(k) <==> (m.contains_key(k)
                && k < n),
        forall|k: u8|
            #![trigger stock_from_list(stock_list(m, n))[k]]
            m.contains_key(k) && k < n ==> stock_from_list(stock_list(m, n))[k] == m[k],
    decreases n,
{
    if n > 0 {
        lemma_stock_list_roundtrip(m, n - 1);
        let prev = stock_list(m, n - 1);
        let id = (n - 1) as u8;
        if m.contains_key(id) {
            let l = prev.push((id, m[id]));
            assert(l.drop_last() == prev);
            crate::block::lemma_decode_roundtrip(id);
            assert(stock_from_list(l) == stock_from_list(prev).insert(id, m[id]));
        }
    }
}

/// The items a player carries: a stock count per block, and the hotbar
/// of blocks ready to place.
pub struct Inventory {
    items: BTreeMap<u8, u32>,
    hotbar: [Option<Block>; 9],
}

impl Inventory {
    /// Only block ids are stocked.
    #[verifier::type_invariant]
    spec fn ids_only(self) -> bool {
        forall|k: u8| #[trigger] self.items@.contains_key(k) ==> k < BLOCK_KINDS
    }

    /// The stock, keyed by block id.
    pub closed spec fn counts(&self) -> Map<u8, u32> {
        self.items@
    }

    /// The hotbar slots.
    pub closed spec fn slots(&self) -> Seq<Option<Block>> {
        self.hotbar@
    }

    /// How many of `b` are carried.
    pub open spec fn count_of(&self, b: Block) -> int {
        stock(self.counts(), b.id())
    }

    /// An empty inventory with an empty hotbar.
    pub fn new() -> (inv: Inventory)
        ensures
            inv.counts() == Map::<u8, u32>::empty(),
            inv.slots() == Seq::new(9, |i: int| None::<Block>),
    {
        let inv = Inventory { items: BTreeMap::new(), hotbar: [None; 9] };
        proof {
            assert(inv.hotbar@ =~= Seq::new(9, |i: int| None::<Block>));
        }
        inv
    }

    /// Records `n` as the stock of the block with id `id`.
    fn put(&mut self, id: u8, n: u32)
        requires
            id < BLOCK_KINDS,
        ensures
            final(self).counts() == old(self).counts().insert(id, n),
            final(self).slots() == old(self).slots(),
    {
        proof {
            use_type_invariant(&*self);
        }
        let mut items: BTreeMap<u8, u32> = BTreeMap::new();
        std::mem::swap(&mut items, &mut self.items);
        items.insert(id, n);
        self.items = items;
    }

    /// Whether nothing at all is stocked (not even a count of zero).
    pub fn is_empty(&self) -> (r: bool)
        ensures
            r == forall|k: u8| !self.counts().contains_key(k),
    {
        proof {
            use_type_invariant(self);
        }
        let mut id: u8 = 0;
        while id < BLOCK_KINDS
            invariant
                id <= BLOCK_KINDS,
                forall|k: u8| k < id ==> !self.items@.contains_key(k),
            decreases BLOCK_KINDS - id,
        {
            if self.items.get(&id).is_some() {
                assert(self.counts().contains_key(id));
                return false;
            }
            id = id + 1;
        }
        true
    }

    /// The block in hotbar slot `i`, if any.
    pub fn slot(&self, i: usize) -> (r: Option<Block>)
        requires
            i < HOTBAR_SLOTS,
        ensures
            r == self.slots()[i as int],
    {
        self.hotbar[i]
    }

    /// How many of `b` are carried.
    pub fn count(&self, b: Block) -> (r: u32)
        ensures
            r == self.count_of(b),
    {
        match self.items.get(&b.to_u8()) {
            Some(c) => *c,
            None => 0,
        }
    }

    /// Whether the hotbar holds `b` in some slot.
    fn hotbar_holds(&self, b: Block) -> (r: bool)
        ensures
            r == self.slots().contains(Some(b)),
    {
        let mut i: usize = 0;
        while i < HOTBAR_SLOTS
            invariant
                i <= HOTBAR_SLOTS,
                self.hotbar@.len() == HOTBAR_SLOTS,
                forall|j: int| 0 <= j < i ==> self.hotbar@[j] != Some(b),
            decreases HOTBAR_SLOTS - i,
        {
            if self.hotbar[i] == Some(b) {
                proof {
                    assert(self.hotbar@[i as int] == Some(b));
                }
                return true;
            }
            i = i + 1;
        }
        false
    }

    /// Adds `n` of `b`; a block new to the hotbar takes its first free slot.
    pub fn add_item(&mut self, b: Block, n: u32)
        requires
            old(self).count_of(b) + n <= u32::MAX,
        ensures
            final(self).counts() == receive(old(self).counts(), b.id(), n),
            final(self).slots() == hotbar_after_pickup(old(self).slots(), b),
    {
        let id = b.to_u8();
        let c = match self.items.get(&id) {
            Some(c) => *c,
            None => 0,
        };
        self.put(id, c + n);
        if !self.hotbar_holds(b) {
            proof {
                use_type_invariant(&*self);
            }
            let mut i: usize = 0;
            while i < HOTBAR_SLOTS
                invariant
                    i <= HOTBAR_SLOTS,
                    self.hotbar@.len() == HOTBAR_SLOTS,
                    self.hotbar@ == old(self).hotbar@,
                    !old(self).hotbar@.contains(Some(b)),
                    self.items@ == receive(old(self).items@, id, n),
                    forall|k: u8| #[trigger] self.items@.contains_key(k) ==> k < BLOCK_KINDS,
                    id == b.id(),
                    first_free_slot(self.hotbar@, 0) == first_free_slot(self.hotbar@, i as int),
                decreases HOTBAR_SLOTS - i,
            {
                if self.hotbar[i].is_none() {
                    self.hotbar[i] = Some(b);
                    return;
                }
                i = i + 1;
            }
        }
    }

    /// Takes `n` of `b` out when at least that many are recorded; returns
    /// whether it did. The hotbar stays as it is.
    pub fn remove_item(&mut self, b: Block, n: u32) -> (r: bool)
        ensures
            r == can_pay(old(self).counts(), b.id(), n),
            final(self).counts() == pay(old(self).counts(), b.id(), n),
            final(self).slots() == old(self).slots(),
    {
        let id = b.to_u8();
        match self.items.get(&id) {
            Some(c) => {
                let c = *c;
                if c >= n {
                    self.put(id, c - n);
                    true
                } else {
                    false
                }
            },
            None => false,
        }
    }

    /// Whether every entry of a cost list is covered by the stock.
    pub fn can_afford(&self, cost: &Vec<(Block, u32)>) -> (r: bool)
        ensures
            r == forall|i: int|
                0 <= i < cost@.len() ==> self.count_of(#[trigger] cost@[i].0) >= cost@[i].1,
    {
        let mut i: usize = 0;
        while i < cost.len()
            invariant
                i <= cost@.len(),
                forall|j: int| 0 <= j < i ==> self.count_of(#[trigger] cost@[j].0) >= cost@[j].1,
            decreases cost@.len() - i,
        {
            let (b, n) = cost[i];
            if self.count(b) < n {
                return false;
            }
            i = i + 1;
        }
        true
    }

    /// Whether the stock covers `recipe`.
    pub fn can_craft(&self, recipe: &Recipe) -> (r: bool)
        ensures
            r == forall|i: int|
                0 <= i < recipe.cost@.len() ==> self.count_of(#[trigger] recipe.cost@[i].0)
                    >= recipe.cost@[i].1,
    {
        self.can_afford(&recipe.cost)
    }

    /// Crafts `recipe` when the stock covers it: pays each cost entry in
    /// turn, then receives the output. Returns whether it crafted; when it
    /// did not, nothing changes.
    pub fn craft(&mut self, recipe: &Recipe) -> (r: bool)
        requires
            old(self).count_of(recipe.out) + recipe.out_n <= u32::MAX,
        ensures
            r == forall|i: int|
                0 <= i < recipe.cost@.len() ==> old(self).count_of(#[trigger] recipe.cost@[i].0)
                    >= recipe.cost@[i].1,
            r ==> final(self).counts() == receive(
                pay_all(old(self).counts(), recipe.cost@, recipe.cost@.len() as int),
                recipe.out.id(),
                recipe.out_n,
            ),
            r ==> final(self).slots() == hotbar_after_pickup(old(self).slots(), recipe.out),
            !r ==> final(self).counts() == old(self).counts() && final(self).slots() == old(
                self,
            ).slots(),
            r && distinct_blocks(recipe.cost@) ==> forall|i: int|
                0 <= i < recipe.cost@.len() && (#[trigger] recipe.cost@[i]).0 != recipe.out
                    ==> final(self).count_of(recipe.cost@[i].0) == old(self).count_of(
                    recipe.cost@[i].0,
                ) - recipe.cost@[i].1,
            r && (forall|i: int| 0 <= i < recipe.cost@.len() ==> (#[trigger] recipe.cost@[i]).0
                != recipe.out) ==> final(self).count_of(recipe.out) == old(self).count_of(recipe.out)
                + recipe.out_n,
            r ==> forall|b: Block|
                b != recipe.out && (forall|i: int|
                    0 <= i < recipe.cost@.len() ==> (#[trigger] recipe.cost@[i]).0 != b)
                    ==> #[trigger] final(self).count_of(b) == old(self).count_of(b),
    {
        if !self.can_afford(&recipe.cost) {
            return false;
        }
        let ghost start = self.counts();
        let mut i: usize = 0;
        while i < recipe.cost.len()
            invariant
                i <= recipe.cost@.len(),
                self.counts() == pay_all(start, recipe.cost@, i as int),
                self.slots() == old(self).slots(),
                stock(self.counts(), recipe.out.id()) <= stock(start, recipe.out.id()),
                start == old(self).counts(),
            decreases recipe.cost@.len() - i,
        {
            let (b, n) = recipe.cost[i];
            self.remove_item(b, n);
            i = i + 1;
        }
        self.add_item(recipe.out, recipe.out_n);
        proof {
            let cost = recipe.cost@;
            let paid = pay_all(start, cost, cost.len() as int);
            let oid = recipe.out.id();
            assert(self.counts() == receive(paid, oid, recipe.out_n));
            assert forall|b: Block|
                b != recipe.out && (forall|i: int| 0 <= i < cost.len() ==> (#[trigger] cost[i]).0 != b)
                    implies #[trigger] self.count_of(b) == old(self).count_of(b) by {
                crate::block::lemma_id_injective(b, recipe.out);
                assert forall|j: int| 0 <= j < cost.len() implies (#[trigger] cost[j]).0.id() != b.id() by {
                    crate::block::lemma_id_injective(cost[j].0, b);
                }
                lemma_pay_all_leaves_others(start, cost, cost.len() as int, b.id());
            }
            if forall|i: int| 0 <= i < cost.len() ==> (#[trigger] cost[i]).0 != recipe.out {
                assert forall|j: int| 0 <= j < cost.len() implies (#[trigger] cost[j]).0.id() != oid by {
                    crate::block::lemma_id_injective(cost[j].0, recipe.out);
                }
                lemma_pay_all_leaves_others(start, cost, cost.len() as int, oid);
            }
            if distinct_blocks(cost) {
                lemma_pay_all_takes_each_cost(start, cost, cost.len() as int);
                assert forall|i: int|
                    0 <= i < cost.len() && (#[trigger] cost[i]).0 != recipe.out implies self.count_of(
                    cost[i].0,
                ) == old(self).count_of(cost[i].0) - cost[i].1 by {
                    crate::block::lemma_id_injective(cost[i].0, recipe.out);
                    assert(stock(paid, cost[i].0.id()) == stock(start, cost[i].0.id()) - cost[i].1);
                }
            }
        }
        true
    }

    /// The save form of the inventory: the stock list in increasing id
    /// order, and one code per hotbar slot. Loading it back
    /// ([`Inventory::from_save`]) gives the same stock and hotbar.
    pub fn to_save(&self) -> (r: (Vec<(u8, u32)>, Vec<i16>))
        ensures
            r.0@ == stock_list(self.counts(), BLOCK_KINDS as int),
            r.1@ == self.slots().map_values(|s: Option<Block>| slot_code(s)),
            stock_from_list(r.0@) == self.counts(),
            slots_from_codes(r.1@) == self.slots(),
    {
        proof {
            use_type_invariant(self);
        }
        let mut list: Vec<(u8, u32)> = Vec::new();
        let mut id: u8 = 0;
        while id < BLOCK_KINDS
            invariant
                id <= BLOCK_KINDS,
                list@ == stock_list(self.items@, id as int),
            decreases BLOCK_KINDS - id,
        {
            match self.items.get(&id) {
                Some(c) => list.push((id, *c)),
                None => {},
            }
            id = id + 1;
        }
        let mut codes: Vec<i16> = Vec::new();
        let mut i: usize = 0;
        while i < HOTBAR_SLOTS
            invariant
                i <= HOTBAR_SLOTS,
                self.hotbar@.len() == HOTBAR_SLOTS,
                codes@ == self.hotbar@.take(i as int).map_values(|s: Option<Block>| slot_code(s)),
            decreases HOTBAR_SLOTS - i,
        {
            let code: i16 = match self.hotbar[i] {
                Some(b) => b.to_u8() as i16,
                None => -1i16,
            };
            codes.push(code);
            proof {
                assert(self.hotbar@.take(i + 1) == self.hotbar@.take(i as int).push(self.hotbar@[i as int]));
            }
            i = i + 1;
        }
        proof {
            assert(self.hotbar@.take(9) == self.hotbar@);
            lemma_save_roundtrip(self.items@, self.hotbar@);
        }
        (list, codes)
    }

    /// Loads an inventory from its save form (see [`stock_from_list`] and
    /// [`slots_from_codes`]).
    pub fn from_save(list: &Vec<(u8, u32)>, codes: &Vec<i16>) -> (inv: Inventory)
        ensures
            inv.counts() == stock_from_list(list@),
            inv.slots() == slots_from_codes(codes@),
    {
        let mut items: BTreeMap<u8, u32> = BTreeMap::new();
        let mut i: usize = 0;
        while i < list.len()
            invariant
                i <= list@.len(),
                items@ == stock_from_list(list@.take(i as int)),
                forall|k: u8| #[trigger] items@.contains_key(k) ==> k < BLOCK_KINDS,
            decreases list@.len() - i,
        {
            let (b, n) = list[i];
            items.insert(Block::from_u8(b).to_u8(), n);
            proof {
                assert(list@.take(i + 1).drop_last() == list@.take(i as int));
            }
            i = i + 1;
        }
        proof {
            assert(list@.take(i as int) == list@);
        }
        let mut hotbar: [Option<Block>; 9] = [None; 9];
        let mut j: usize = 0;
        while j < codes.len() && j < HOTBAR_SLOTS
            invariant
                j <= HOTBAR_SLOTS,
                hotbar@.len() == HOTBAR_SLOTS,
                forall|k: int|
                    0 <= k < HOTBAR_SLOTS ==> #[trigger] hotbar@[k] == if k < j {
                        slots_from_codes(codes@)[k]
                    } else {
                        None
                    },
            decreases HOTBAR_SLOTS - j,
        {
            let v = codes[j];
            if v >= 0 {
                hotbar[j] = Some(Block::from_u8((v % 256) as u8));
            }
            j = j + 1;
        }
        proof {
            assert(hotbar@ =~= slots_from_codes(codes@));
        }
        Inventory { items, hotbar }
    }
}

/// Taking out what was just put in gives the old count back, and the
/// removal always succeeds.
pub proof fn lemma_add_then_remove(counts: Map<u8, u32>, id: u8, n: u32)
    requires
        stock(counts, id) + n <= u32::MAX,
    ensures
        can_pay(receive(counts, id, n), id, n),
        stock(pay(receive(counts, id, n), id, n), id) == stock(counts, id),
        forall|k: u8| k != id ==> stock(pay(receive(counts, id, n), id, n), k) == stock(counts, k),
{
}

/// What is saved loads back as it was: the stock list of a stock (whose
/// keys are block ids) loads as that stock, and the codes of a hotbar load
/// as that hotbar.
pub proof fn lemma_save_roundtrip(counts: Map<u8, u32>, slots: Seq<Option<Block>>)
    requires
        forall|k: u8| #[trigger] counts.contains_key(k) ==> k < BLOCK_KINDS,
        slots.len() == HOTBAR_SLOTS,
    ensures
        stock_from_list(stock_list(counts, BLOCK_KINDS as int)) == counts,
        slots_from_codes(slots.map_values(|s: Option<Block>| slot_code(s))) == slots,
{
    lemma_stock_list_roundtrip(counts, BLOCK_KINDS as int);
    assert(stock_from_list(stock_list(counts, BLOCK_KINDS as int)) =~= counts);
    let codes = slots.map_values(|s: Option<Block>| slot_code(s));
    assert forall|j: int| 0 <= j < 9 implies slots_from_codes(codes)[j] == slots[j] by {
        match slots[j] {
            Some(b) => {
                crate::block::lemma_id_roundtrip(b);
                assert((b.id() as i16) % 256 == b.id());
            },
            None => {},
        }
    }
    assert(slots_from_codes(codes) =~= slots);
}

} // verus!
