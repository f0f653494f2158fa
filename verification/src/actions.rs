use vstd::prelude::*;

use crate::block::Block;
use crate::controls::{PlayState, MESSAGE_TICKS};
use crate::inventory::{hotbar_after_pickup, pay, receive, Inventory};

verus! {

/// The free cell in front of the targeted face, where a block would go:
/// its row, the block it holds now, and whether it overlaps the player.
#[derive(Clone, Copy, PartialEq, Eq, Structural, Debug)]
pub struct PlaceSpot {
    pub y: i32,
    pub dest: Block,
    pub blocks_player: bool,
}

/// How an attempt to place a block ends.
#[derive(Clone, Copy, PartialEq, Eq, Structural, Debug)]
pub enum Placement {
    /// The selected hotbar slot is empty.
    EmptySlot,
    /// None of the selected block is left.
    OutOf(Block),
    /// No block face is in reach.
    NoTarget,
    /// The free cell lies above or below the world.
    OutOfWorld,
    /// The free cell holds something other than air or water.
    Occupied,
    /// A torch would go into water.
    TorchInWater,
    /// A solid block would go where the player stands.
    PlayerInTheWay,
    /// The block goes into the free cell.
    Placed(Block),
}

/// The message mining shows: what was picked up, why nothing happened, or
/// none (for air and water).
pub open spec fn mine_message(hit: Option<Block>) -> Option<Seq<char>> {
    match hit {
        None => Some("Nothing in reach."@),
        Some(b) => if !b.spec_is_minable() {
            if b == Block::Bedrock {
                Some("Bedrock is unbreakable."@)
            } else {
                None
            }
        } else {
            match b.spec_drops() {
                Some(d) => Some("+1 "@ + d.label()),
                None => None,
            }
        },
    }
}

/// Mines the targeted block `hit` (or nothing when no block is in reach):
/// a block that can be mined is removed (returns `true`: the caller clears
/// the cell) and what it drops is picked up; bedrock cannot be mined. The
/// message says what happened (see [`mine_message`]).
pub fn mine(play: &mut PlayState, inv: &mut Inventory, hit: Option<Block>) -> (cleared: bool)
    requires
        mine_message(hit) is Some ==> old(play)@.time <= u64::MAX - MESSAGE_TICKS,
        hit matches Some(b) ==> (b.spec_is_minable() ==> old(inv).count_of(
            b.spec_drops().unwrap(),
        ) + 1 <= u32::MAX),
    ensures
        final(play)@ == old(play)@,
        cleared == (hit matches Some(b) && b.spec_is_minable()),
        match mine_message(hit) {
            Some(m) => final(play).shows(m, old(play)@.time + MESSAGE_TICKS),
            None => final(play).message() == old(play).message(),
        },
        !cleared ==> final(inv).counts() == old(inv).counts() && final(inv).slots() == old(
            inv,
        ).slots(),
        hit is None ==> final(play).shows("Nothing in reach."@, old(play)@.time + MESSAGE_TICKS),
        hit == Some(Block::Bedrock) ==> final(play).shows(
            "Bedrock is unbreakable."@,
            old(play)@.time + MESSAGE_TICKS,
        ) && !cleared,
        hit == Some(Block::Air) || hit == Some(Block::Water) ==> !cleared && final(play).message()
            == old(play).message(),
        hit == Some(Block::Stone) ==> cleared && final(inv).count_of(Block::Cobblestone) == old(
            inv,
        ).count_of(Block::Cobblestone) + 1 && final(play).shows(
            "+1 Cobblestone"@,
            old(play)@.time + MESSAGE_TICKS,
        ),
        hit == Some(Block::Grass) ==> cleared && final(inv).count_of(Block::Dirt) == old(
            inv,
        ).count_of(Block::Dirt) + 1,
        hit matches Some(b) ==> (b != Block::Air && b != Block::Water && b != Block::Bedrock && b
            != Block::Grass && b != Block::Stone ==> cleared && final(inv).count_of(b) == old(
            inv,
        ).count_of(b) + 1 && final(play).shows("+1 "@ + b.label(), old(play)@.time + MESSAGE_TICKS)),
        cleared ==> ({
            let d = hit.unwrap().spec_drops().unwrap();
            &&& final(inv).counts() == receive(old(inv).counts(), d.id(), 1)
            &&& final(inv).slots() == hotbar_after_pickup(old(inv).slots(), d)
        }),
{
    proof {
        reveal_strlit("+1 Cobblestone");
        reveal_strlit("+1 ");
        reveal_strlit("Cobblestone");
        assert("+1 "@ + "Cobblestone"@ =~= "+1 Cobblestone"@);
    }
    let b = match hit {
        Some(b) => b,
        None => {
            play.say("Nothing in reach.");
            return false;
        },
    };
    if !b.is_minable() {
        if b == Block::Bedrock {
            play.say("Bedrock is unbreakable.");
        }
        return false;
    }
    if let Some(d) = b.drops() {
        inv.add_item(d, 1);
        let mut m = String::from_str("+1 ");
        m.append(d.name());
        play.say(m.as_str());
    }
    true
}

/// How placing the block in hotbar slot `slot` ends, with the stock of
/// `inv`, the free cell `spot` in front of the targeted face (if any) and a
/// world `height` rows high.
pub open spec fn placement(inv: Inventory, slot: Option<Block>, spot: Option<PlaceSpot>, height: int) -> Placement {
    match slot {
        None => Placement::EmptySlot,
        Some(b) => if inv.count_of(b) == 0 {
            Placement::OutOf(b)
        } else {
            match spot {
                None => Placement::NoTarget,
                Some(p) => if !(0 <= p.y < height) {
                    Placement::OutOfWorld
                } else if p.dest != Block::Air && p.dest != Block::Water {
                    Placement::Occupied
                } else if b == Block::Torch && p.dest == Block::Water {
                    Placement::TorchInWater
                } else if b.spec_is_solid() && p.blocks_player {
                    Placement::PlayerInTheWay
                } else {
                    Placement::Placed(b)
                },
            }
        },
    }
}

/// The message placing shows, if any.
pub open spec fn placement_message(p: Placement) -> Option<Seq<char>> {
    match p {
        Placement::EmptySlot => Some("Empty hotbar slot - select a block with 1-9."@),
        Placement::OutOf(b) => Some("Out of "@ + b.label() + "."@),
        Placement::NoTarget => Some("Aim at a block face to place against."@),
        Placement::TorchInWater => Some("Torches need air."@),
        Placement::PlayerInTheWay => Some("You're standing there!"@),
        _ => None,
    }
}

/// Places the block in the selected hotbar slot into `spot` (see
/// [`placement`]): when it is placed, one of it leaves the stock and the
/// caller puts it into the cell; the message says why it was not placed
/// (see [`placement_message`]).
pub fn place(play: &mut PlayState, inv: &mut Inventory, spot: Option<PlaceSpot>, height: i32) -> (r:
    Placement)
    requires
        placement_message(
            placement(
                *old(inv),
                old(inv).slots()[old(play)@.selected as int],
                spot,
                height as int,
            ),
        ) is Some ==> old(play)@.time <= u64::MAX - MESSAGE_TICKS,
    ensures
        r == placement(*old(inv), old(inv).slots()[old(play)@.selected as int], spot, height as int),
        final(play)@ == old(play)@,
        match placement_message(r) {
            Some(m) => final(play).shows(m, old(play)@.time + MESSAGE_TICKS),
            None => final(play).message() == old(play).message(),
        },
        final(inv).slots() == old(inv).slots(),
        r matches Placement::Placed(b) ==> final(inv).counts() == pay(old(inv).counts(), b.id(), 1),
        !(r is Placed) ==> final(inv).counts() == old(inv).counts(),
        old(inv).slots()[old(play)@.selected as int] matches Some(b) && b.spec_is_solid() && (
        spot matches Some(p) && p.blocks_player) ==> !(r is Placed) && final(inv).counts() == old(
            inv,
        ).counts(),
        r matches Placement::Placed(b) ==> {
            &&& old(inv).slots()[old(play)@.selected as int] == Some(b)
            &&& old(inv).count_of(b) > 0
            &&& spot matches Some(p) && 0 <= p.y < height && (p.dest == Block::Air || p.dest
                == Block::Water) && !(b == Block::Torch && p.dest == Block::Water) && !(
            b.spec_is_solid() && p.blocks_player)
            &&& final(inv).count_of(b) == old(inv).count_of(b) - 1
        },
        old(inv).slots()[old(play)@.selected as int] matches Some(b) ==> (spot matches Some(p) ==> (
        old(inv).count_of(b) > 0 && 0 <= p.y < height && (p.dest == Block::Air || p.dest
            == Block::Water) && !(b == Block::Torch && p.dest == Block::Water) && !(
        b.spec_is_solid() && p.blocks_player) ==> r == Placement::Placed(b))),
        r == Placement::EmptySlot ==> final(play).shows(
            "Empty hotbar slot - select a block with 1-9."@,
            old(play)@.time + MESSAGE_TICKS,
        ),
        r matches Placement::OutOf(b) ==> final(play).shows(
            "Out of "@ + b.label() + "."@,
            old(play)@.time + MESSAGE_TICKS,
        ),
        r == Placement::NoTarget ==> final(play).shows(
            "Aim at a block face to place against."@,
            old(play)@.time + MESSAGE_TICKS,
        ),
        r == Placement::TorchInWater ==> final(play).shows(
            "Torches need air."@,
            old(play)@.time + MESSAGE_TICKS,
        ),
        r == Placement::PlayerInTheWay ==> final(play).shows(
            "You're standing there!"@,
            old(play)@.time + MESSAGE_TICKS,
        ),
        r == Placement::OutOfWorld ==> final(play).message() == old(play).message(),
        r == Placement::Occupied ==> final(play).message() == old(play).message(),
        r is Placed ==> final(play).message() == old(play).message(),
{
    let sel = play.state().selected;
    let b = match inv.slot(sel) {
        Some(b) => b,
        None => {
            play.say("Empty hotbar slot - select a block with 1-9.");
            return Placement::EmptySlot;
        },
    };
    if inv.count(b) == 0 {
        let mut m = String::from_str("Out of ");
        m.append(b.name());
        m.append(".");
        play.say(m.as_str());
        return Placement::OutOf(b);
    }
    let p = match spot {
        Some(p) => p,
        None => {
            play.say("Aim at a block face to place against.");
            return Placement::NoTarget;
        },
    };
    if !(0 <= p.y && p.y < height) {
        return Placement::OutOfWorld;
    }
    if p.dest != Block::Air && p.dest != Block::Water {
        return Placement::Occupied;
    }
    if b == Block::Torch && p.dest == Block::Water {
        play.say("Torches need air.");
        return Placement::TorchInWater;
    }
    if b.is_solid() && p.blocks_player {
        play.say("You're standing there!");
        return Placement::PlayerInTheWay;
    }
    inv.remove_item(b, 1);
    Placement::Placed(b)
}

/// A solid block never goes into a cell that overlaps the player, whatever
/// the cell holds: placing refuses it.
pub proof fn lemma_no_block_inside_the_player(
    inv: Inventory,
    slot: Option<Block>,
    spot: Option<PlaceSpot>,
    height: int,
)
    ensures
        slot matches Some(b) && b.spec_is_solid() && (spot matches Some(p) && p.blocks_player)
            ==> !(placement(inv, slot, spot, height) is Placed),
{
}

} // verus!
