use termcraft::block::Block;
use termcraft::inventory::{Inventory, Recipe, HOTBAR_SLOTS};

fn recipe(cost: Vec<(Block, u32)>, out: Block, out_n: u32) -> Recipe {
    Recipe { label: String::from("test"), cost, out, out_n }
}

#[test]
fn new_inventory_is_empty() {
    let inv = Inventory::new();
    assert_eq!(inv.count(Block::Dirt), 0);
    for i in 0..HOTBAR_SLOTS {
        assert_eq!(inv.slot(i), None);
    }
}

#[test]
fn picked_up_blocks_fill_the_hotbar_in_order() {
    let mut inv = Inventory::new();
    inv.add_item(Block::Dirt, 1);
    inv.add_item(Block::Stone, 2);
    inv.add_item(Block::Dirt, 3);
    assert_eq!(inv.count(Block::Dirt), 4);
    assert_eq!(inv.count(Block::Stone), 2);
    assert_eq!(inv.slot(0), Some(Block::Dirt));
    assert_eq!(inv.slot(1), Some(Block::Stone));
    assert_eq!(inv.slot(2), None);
}

#[test]
fn full_hotbar_takes_no_new_block() {
    let mut inv = Inventory::new();
    let blocks = [
        Block::Grass,
        Block::Dirt,
        Block::Stone,
        Block::Cobblestone,
        Block::Sand,
        Block::Wood,
        Block::Leaves,
        Block::Planks,
        Block::CoalOre,
    ];
    for b in blocks {
        inv.add_item(b, 1);
    }
    inv.add_item(Block::Torch, 4);
    assert_eq!(inv.count(Block::Torch), 4);
    for (i, b) in blocks.iter().enumerate() {
        assert_eq!(inv.slot(i), Some(*b));
    }
}

#[test]
fn removing_needs_enough() {
    let mut inv = Inventory::new();
    assert!(!inv.remove_item(Block::Dirt, 0));
    inv.add_item(Block::Dirt, 2);
    assert!(!inv.remove_item(Block::Dirt, 3));
    assert_eq!(inv.count(Block::Dirt), 2);
    assert!(inv.remove_item(Block::Dirt, 2));
    assert_eq!(inv.count(Block::Dirt), 0);
    assert!(inv.remove_item(Block::Dirt, 0));
    assert_eq!(inv.slot(0), Some(Block::Dirt));
}

#[test]
fn crafting_pays_and_receives() {
    let mut inv = Inventory::new();
    inv.add_item(Block::Wood, 1);
    let planks = recipe(vec![(Block::Wood, 1)], Block::Planks, 4);
    assert!(inv.can_craft(&planks));
    assert!(inv.craft(&planks));
    assert_eq!(inv.count(Block::Wood), 0);
    assert_eq!(inv.count(Block::Planks), 4);
    assert_eq!(inv.slot(1), Some(Block::Planks));
    assert!(!inv.can_craft(&planks));
    assert!(!inv.craft(&planks));
    assert_eq!(inv.count(Block::Planks), 4);
}

#[test]
fn crafting_with_two_ingredients() {
    let mut inv = Inventory::new();
    inv.add_item(Block::CoalOre, 1);
    inv.add_item(Block::Planks, 1);
    let torches = recipe(vec![(Block::CoalOre, 1), (Block::Planks, 1)], Block::Torch, 4);
    assert!(inv.craft(&torches));
    assert_eq!(inv.count(Block::CoalOre), 0);
    assert_eq!(inv.count(Block::Planks), 0);
    assert_eq!(inv.count(Block::Torch), 4);
    let bricks = recipe(vec![(Block::Cobblestone, 4)], Block::StoneBrick, 4);
    assert!(!inv.can_afford(&bricks.cost));
}

#[test]
fn save_roundtrip() {
    let mut inv = Inventory::new();
    inv.add_item(Block::Wood, 3);
    inv.add_item(Block::Dirt, 5);
    assert!(inv.remove_item(Block::Wood, 3));
    let (list, codes) = inv.to_save();
    assert_eq!(list, vec![(2, 5), (7, 0)]);
    assert_eq!(codes, vec![7, 2, -1, -1, -1, -1, -1, -1, -1]);
    let back = Inventory::from_save(&list, &codes);
    assert_eq!(back.count(Block::Dirt), 5);
    assert_eq!(back.count(Block::Wood), 0);
    for i in 0..HOTBAR_SLOTS {
        assert_eq!(back.slot(i), inv.slot(i));
    }
    assert_eq!(back.to_save(), (list, codes));
}

#[test]
fn loading_odd_saves() {
    // later entries win, unknown ids load as air, codes wrap to a byte
    let inv = Inventory::from_save(&vec![(3, 1), (3, 9), (99, 4)], &vec![-1, 259, 300, 5, 5, 5, 5, 5, 5, 6, 7]);
    assert_eq!(inv.count(Block::Stone), 9);
    assert_eq!(inv.count(Block::Air), 4);
    assert_eq!(inv.slot(0), None);
    assert_eq!(inv.slot(1), Some(Block::Stone));
    assert_eq!(inv.slot(2), Some(Block::Air));
    assert_eq!(inv.slot(8), Some(Block::Sand));
    let short = Inventory::from_save(&vec![], &vec![1]);
    assert_eq!(short.slot(0), Some(Block::Grass));
    assert_eq!(short.slot(1), None);
}

#[test]
fn mined_block_placed_back() {
    let mut inv = Inventory::new();
    inv.add_item(Block::Cobblestone, 1);
    let n = inv.count(Block::Cobblestone);
    assert!(inv.remove_item(Block::Cobblestone, 1));
    assert_eq!(inv.count(Block::Cobblestone), n - 1);
}
