use vstd::prelude::*;

use crate::block::{Block, BLOCK_KINDS};
use crate::controls::{PlayState, MESSAGE_TICKS};
use crate::inventory::{hotbar_after_pickup, pay_all, receive, stock, Inventory, Recipe};

verus! {

/// The decimal digit `d`.
pub open spec fn digit_text(d: int) -> Seq<char> {
    if d == 0 {
        "0"@
    } else if d == 1 {
        "1"@
    } else if d == 2 {
        "2"@
    } else if d == 3 {
        "3"@
    } else if d == 4 {
        "4"@
    } else if d == 5 {
        "5"@
    } else if d == 6 {
        "6"@
    } else if d == 7 {
        "7"@
    } else if d == 8 {
        "8"@
    } else {
        "9"@
    }
}

/// `n` written in decimal, without leading zeros.
pub open spec fn decimal(n: nat) -> Seq<char>
    decreases n,
{
    if n < 10 {
        digit_text(n as int)
    } else {
        decimal(n / 10) + digit_text((n % 10) as int)
    }
}

fn digit_str(d: u32) -> (r: &'static str)
    requires
        d < 10,
    ensures
        r@ == digit_text(d as int),
{
    if d == 0 {
        "0"
    } else if d == 1 {
        "1"
    } else if d == 2 {
        "2"
    } else if d == 3 {
        "3"
    } else if d == 4 {
        "4"
    } else if d == 5 {
        "5"
    } else if d == 6 {
        "6"
    } else if d == 7 {
        "7"
    } else if d == 8 {
        "8"
    } else {
        "9"
    }
}

/// Appends `n` in decimal to `out`.
pub fn append_decimal(out: &mut String, n: u32)
    ensures
        final(out)@ == old(out)@ + decimal(n as nat),
    decreases n,
{
    if n >= 10 {
        append_decimal(out, n / 10);
    }
    out.append(digit_str(n % 10));
    proof {
        assert(old(out)@ + decimal((n / 10) as nat) + digit_text((n % 10) as int) == old(out)@ + (
        decimal((n / 10) as nat) + digit_text((n % 10) as int)));
    }
}

/// A line of the crafting menu: the recipe label behind a marker for the
/// selected recipe.
pub open spec fn menu_line(label: Seq<char>, selected: bool) -> Seq<char> {
    (if selected {
        "> "@
    } else {
        "  "@
    }) + label
}

/// Whether the stock covers every entry of a cost list.
pub open spec fn covers(inv: Inventory, cost: Seq<(Block, u32)>) -> bool {
    forall|i: int| 0 <= i < cost.len() ==> inv.count_of(#[trigger] cost[i].0) >= cost[i].1
}

/// How a stocked block reads in the inventory line: its name and count.
pub open spec fn stock_entry(b: Block, n: u32) -> Seq<char> {
    b.label() + " x"@ + decimal(n as nat)
}

/// The entries of the inventory line for the ids below `k` that are
/// stocked with a positive count, in id order.
pub open spec fn stock_entries(counts: Map<u8, u32>, k: int) -> Seq<Seq<char>>
    decreases k,
{
    if k <= 0 {
        Seq::empty()
    } else {
        let prev = stock_entries(counts, k - 1);
        let id = (k - 1) as u8;
        if stock(counts, id) > 0 {
            prev.push(stock_entry(Block::decode(id), counts[id]))
        } else {
            prev
        }
    }
}

/// The texts of `items` joined by `sep`.
pub open spec fn joined(items: Seq<Seq<char>>, sep: Seq<char>) -> Seq<char>
    decreases items.len(),
{
    if items.len() == 0 {
        Seq::empty()
    } else if items.len() == 1 {
        items[0]
    } else {
        joined(items.drop_last(), sep) + sep + items.last()
    }
}

/// The inventory line under the crafting menu.
pub open spec fn inventory_line(counts: Map<u8, u32>) -> Seq<char> {
    if forall|k: u8| !counts.contains_key(k) {
        "Inventory: (empty - go mine something!)"@
    } else {
        "Inventory: "@ + joined(stock_entries(counts, BLOCK_KINDS as int), ", "@)
    }
}

/// The crafting menu: one line per recipe with whether the stock covers
/// it, the selected one marked, and the inventory line.
pub fn crafting_menu(recipes: &Vec<Recipe>, sel: usize, inv: &Inventory) -> (r: (
    Vec<(String, bool)>,
    String,
))
    ensures
        r.0@.len() == recipes@.len(),
        forall|i: int|
            0 <= i < recipes@.len() ==> (#[trigger] r.0@[i]).0@ == menu_line(
                recipes@[i].label@,
                i == sel,
            ) && r.0@[i].1 == covers(*inv, recipes@[i].cost@),
        r.1@ == inventory_line(inv.counts()),
{
    let mut lines: Vec<(String, bool)> = Vec::new();
    let mut i: usize = 0;
    while i < recipes.len()
        invariant
            i <= recipes@.len(),
            lines@.len() == i,
            forall|j: int|
                0 <= j < i ==> (#[trigger] lines@[j]).0@ == menu_line(recipes@[j].label@, j == sel)
                    && lines@[j].1 == covers(*inv, recipes@[j].cost@),
        decreases recipes@.len() - i,
    {
        let prefix: &str = if i == sel {
            "> "
        } else {
            "  "
        };
        let mut line = String::from_str(prefix);
        line.append(recipes[i].label.as_str());
        let ok = inv.can_afford(&recipes[i].cost);
        lines.push((line, ok));
        i = i + 1;
    }
    (lines, inventory_text(inv))
}

/// The inventory line under the crafting menu (see [`inventory_line`]).
pub fn inventory_text(inv: &Inventory) -> (r: String)
    ensures
        r@ == inventory_line(inv.counts()),
{
    if inv.is_empty() {
        return String::from_str("Inventory: (empty - go mine something!)");
    }
    let mut out = String::from_str("Inventory: ");
    let ghost counts = inv.counts();
    let mut id: u8 = 0;
    let mut first = true;
    while id < BLOCK_KINDS
        invariant
            id <= BLOCK_KINDS,
            counts == inv.counts(),
            first == (stock_entries(counts, id as int).len() == 0),
            out@ == "Inventory: "@ + joined(stock_entries(counts, id as int), ", "@),
        decreases BLOCK_KINDS - id,
    {
        let b = Block::from_u8(id);
        let n = inv.count(b);
        proof {
            crate::block::lemma_decode_roundtrip(id);
        }
        if n > 0 {
            let ghost prev = stock_entries(counts, id as int);
            let ghost entry = stock_entry(Block::decode(id), counts[id]);
            if !first {
                out.append(", ");
            }
            first = false;
            out.append(b.name());
            out.append(" x");
            append_decimal(&mut out, n);
            proof {
                assert(prev.push(entry).drop_last() == prev);
                lemma_no_entries_below(counts, id as int);
                assert(out@ == "Inventory: "@ + joined(prev.push(entry), ", "@));
            }
        }
        id = id + 1;
    }
    out
}

proof fn lemma_no_entries_below(counts: Map<u8, u32>, k: int)
    ensures
        k <= 0 ==> stock_entries(counts, k).len() == 0,
{
}

/// Crafts the selected recipe and tells the player how it went: when the
/// stock covers the recipe it is paid and its output received ("Crafted
/// Nx Name!"), otherwise nothing changes but the message ("Not enough
/// materials.").
pub fn craft_selected(play: &mut PlayState, inv: &mut Inventory, recipes: &Vec<Recipe>) -> (crafted:
    bool)
    requires
        old(play)@.craft_sel < recipes@.len(),
        old(play)@.time <= u64::MAX - MESSAGE_TICKS,
        old(inv).count_of(recipes@[old(play)@.craft_sel as int].out) + recipes@[old(
            play,
        )@.craft_sel as int].out_n <= u32::MAX,
    ensures
        ({
            let r = recipes@[old(play)@.craft_sel as int];
            &&& crafted == covers(*old(inv), r.cost@)
            &&& crafted ==> final(inv).counts() == receive(
                pay_all(old(inv).counts(), r.cost@, r.cost@.len() as int),
                r.out.id(),
                r.out_n,
            )
            &&& crafted ==> final(inv).slots() == hotbar_after_pickup(old(inv).slots(), r.out)
            &&& !crafted ==> final(inv).counts() == old(inv).counts() && final(inv).slots() == old(
                inv,
            ).slots()
            &&& final(play)@ == old(play)@
            &&& crafted ==> final(play).shows(
                "Crafted "@ + decimal(r.out_n as nat) + "x "@ + r.out.label() + "!"@,
                old(play)@.time + MESSAGE_TICKS,
            )
            &&& !crafted ==> final(play).shows(
                "Not enough materials."@,
                old(play)@.time + MESSAGE_TICKS,
            )
        }),
{
    let r = &recipes[play.state().craft_sel];
    if !inv.craft(r) {
        play.say("Not enough materials.");
        return false;
    }
    let mut m = String::from_str("Crafted ");
    append_decimal(&mut m, r.out_n);
    m.append("x ");
    m.append(r.out.name());
    m.append("!");
    play.say(m.as_str());
    true
}

} // verus!
