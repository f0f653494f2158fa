use vstd::prelude::*;

use crate::menu::{append_decimal, decimal};

verus! {

/// Hearts drawn in the status line.
pub const HEART_SLOTS: usize = 10;

/// The health bar: one full heart per two points of health (none for
/// negative health), and empty hearts filling up the ten slots.
pub fn hearts(hp: i32) -> (r: (usize, usize))
    ensures
        r.0 == (if hp > 0 { hp as int } else { 0 }) / 2,
        r.1 == if r.0 < HEART_SLOTS { HEART_SLOTS - r.0 } else { 0 },
{
    let h: i32 = if hp > 0 {
        hp
    } else {
        0
    };
    let full = (h / 2) as usize;
    let empty = if full < HEART_SLOTS {
        HEART_SLOTS - full
    } else {
        0
    };
    (full, empty)
}

/// The stock count shown under a hotbar slot, capped at 999.
pub fn shown_count(n: u32) -> (r: u32)
    ensures
        r == if n < 999 { n } else { 999 },
{
    if n < 999 {
        n
    } else {
        999
    }
}

/// The stock text under a hotbar slot: the count, capped at 999, in
/// decimal and left-aligned in three columns.
pub open spec fn slot_count_text(n: u32) -> Seq<char> {
    let c: u32 = if n < 999 { n } else { 999 };
    if c < 10 {
        decimal(c as nat) + "  "@
    } else if c < 100 {
        decimal(c as nat) + " "@
    } else {
        decimal(c as nat)
    }
}

/// Writes the stock text under a hotbar slot (see [`slot_count_text`]).
pub fn slot_count(n: u32) -> (r: String)
    ensures
        r@ == slot_count_text(n),
{
    let c = shown_count(n);
    let mut t = String::new();
    append_decimal(&mut t, c);
    if c < 10 {
        t.append("  ");
    } else if c < 100 {
        t.append(" ");
    }
    t
}

/// The day shown in the status line: days of `day_len` ticks, counted
/// from one.
pub fn day_number(time: u64, day_len: u64) -> (r: u64)
    requires
        day_len > 0,
        time / day_len < u64::MAX,
    ensures
        r == time / day_len + 1,
{
    time / day_len + 1
}

} // verus!
