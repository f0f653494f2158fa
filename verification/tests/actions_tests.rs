use termcraft::actions::{mine, place, PlaceSpot, Placement};
use termcraft::block::Block;
use termcraft::controls::PlayState;
use termcraft::inventory::Inventory;

fn fresh() -> PlayState {
    PlayState::new(20, 3)
}

fn open_air(y: i32) -> Option<PlaceSpot> {
    Some(PlaceSpot { y, dest: Block::Air, blocks_player: false })
}

#[test]
fn mining_nothing_says_so() {
    let mut s = fresh();
    let mut inv = Inventory::new();
    assert!(!mine(&mut s, &mut inv, None));
    assert_eq!(s.msg().unwrap(), ("Nothing in reach.".to_string(), 80));
    assert!(inv.is_empty());
}

#[test]
fn bedrock_cannot_be_mined() {
    let mut s = fresh();
    let mut inv = Inventory::new();
    assert!(!mine(&mut s, &mut inv, Some(Block::Bedrock)));
    assert_eq!(s.msg().unwrap().0, "Bedrock is unbreakable.");
    assert!(inv.is_empty());
}

#[test]
fn mining_water_changes_nothing() {
    let mut s = fresh();
    let before = s.msg();
    let mut inv = Inventory::new();
    assert!(!mine(&mut s, &mut inv, Some(Block::Water)));
    assert_eq!(s.msg(), before);
    assert!(inv.is_empty());
}

#[test]
fn mining_stone_gives_cobblestone() {
    let mut s = fresh();
    let mut inv = Inventory::new();
    assert!(mine(&mut s, &mut inv, Some(Block::Stone)));
    assert_eq!(inv.count(Block::Cobblestone), 1);
    assert_eq!(inv.count(Block::Stone), 0);
    assert_eq!(inv.slot(0), Some(Block::Cobblestone));
    assert_eq!(s.msg().unwrap().0, "+1 Cobblestone");
}

#[test]
fn mining_grass_gives_dirt_and_ore_gives_itself() {
    let mut s = fresh();
    let mut inv = Inventory::new();
    assert!(mine(&mut s, &mut inv, Some(Block::Grass)));
    assert!(mine(&mut s, &mut inv, Some(Block::CoalOre)));
    assert_eq!(inv.count(Block::Dirt), 1);
    assert_eq!(inv.count(Block::CoalOre), 1);
    assert_eq!(s.msg().unwrap().0, "+1 Coal Ore");
}

#[test]
fn placing_from_an_empty_slot_is_refused() {
    let mut s = fresh();
    let mut inv = Inventory::new();
    assert_eq!(place(&mut s, &mut inv, open_air(5), 64), Placement::EmptySlot);
    assert_eq!(s.msg().unwrap().0, "Empty hotbar slot - select a block with 1-9.");
}

#[test]
fn placing_takes_one_block() {
    let mut s = fresh();
    let mut inv = Inventory::new();
    inv.add_item(Block::Dirt, 2);
    assert_eq!(place(&mut s, &mut inv, open_air(5), 64), Placement::Placed(Block::Dirt));
    assert_eq!(inv.count(Block::Dirt), 1);
    assert_eq!(inv.slot(0), Some(Block::Dirt));
}

#[test]
fn placing_the_last_block_then_running_out() {
    let mut s = fresh();
    let mut inv = Inventory::new();
    inv.add_item(Block::Dirt, 1);
    assert_eq!(place(&mut s, &mut inv, open_air(5), 64), Placement::Placed(Block::Dirt));
    assert_eq!(inv.count(Block::Dirt), 0);
    assert_eq!(place(&mut s, &mut inv, open_air(5), 64), Placement::OutOf(Block::Dirt));
    assert_eq!(s.msg().unwrap().0, "Out of Dirt.");
}

#[test]
fn placing_without_a_target() {
    let mut s = fresh();
    let mut inv = Inventory::new();
    inv.add_item(Block::Stone, 1);
    assert_eq!(place(&mut s, &mut inv, None, 64), Placement::NoTarget);
    assert_eq!(s.msg().unwrap().0, "Aim at a block face to place against.");
    assert_eq!(inv.count(Block::Stone), 1);
}

#[test]
fn placing_outside_the_world_or_into_a_block_is_silent() {
    let mut s = fresh();
    let before = s.msg();
    let mut inv = Inventory::new();
    inv.add_item(Block::Stone, 1);
    assert_eq!(place(&mut s, &mut inv, open_air(64), 64), Placement::OutOfWorld);
    assert_eq!(place(&mut s, &mut inv, open_air(-1), 64), Placement::OutOfWorld);
    let full = Some(PlaceSpot { y: 3, dest: Block::Sand, blocks_player: false });
    assert_eq!(place(&mut s, &mut inv, full, 64), Placement::Occupied);
    assert_eq!(s.msg(), before);
    assert_eq!(inv.count(Block::Stone), 1);
}

#[test]
fn torches_need_air() {
    let mut s = fresh();
    let mut inv = Inventory::new();
    inv.add_item(Block::Torch, 1);
    let wet = Some(PlaceSpot { y: 3, dest: Block::Water, blocks_player: false });
    assert_eq!(place(&mut s, &mut inv, wet, 64), Placement::TorchInWater);
    assert_eq!(s.msg().unwrap().0, "Torches need air.");
    assert_eq!(inv.count(Block::Torch), 1);
}

#[test]
fn solid_blocks_go_into_water_but_not_onto_the_player() {
    let mut s = fresh();
    let mut inv = Inventory::new();
    inv.add_item(Block::Stone, 2);
    let wet = Some(PlaceSpot { y: 3, dest: Block::Water, blocks_player: false });
    assert_eq!(place(&mut s, &mut inv, wet, 64), Placement::Placed(Block::Stone));
    let here = Some(PlaceSpot { y: 3, dest: Block::Air, blocks_player: true });
    assert_eq!(place(&mut s, &mut inv, here, 64), Placement::PlayerInTheWay);
    assert_eq!(s.msg().unwrap().0, "You're standing there!");
    assert_eq!(inv.count(Block::Stone), 1);
}

#[test]
fn torches_may_go_where_the_player_stands() {
    let mut s = fresh();
    let mut inv = Inventory::new();
    inv.add_item(Block::Torch, 1);
    let here = Some(PlaceSpot { y: 3, dest: Block::Air, blocks_player: true });
    assert_eq!(place(&mut s, &mut inv, here, 64), Placement::Placed(Block::Torch));
    assert_eq!(inv.count(Block::Torch), 0);
}

#[test]
fn mine_and_place_roundtrip() {
    // looking down at the ground: the targeted block is grass
    let mut s = fresh();
    let mut inv = Inventory::new();
    assert!(mine(&mut s, &mut inv, Some(Block::Grass)));
    assert!(!inv.is_empty());
    // place it back
    let item = inv.slot(0).expect("picked up a block");
    let n = inv.count(item);
    assert_eq!(place(&mut s, &mut inv, open_air(40), 64), Placement::Placed(item));
    assert_eq!(inv.count(item), n - 1);
}
