use termcraft::block::Block;
use termcraft::controls::{Key, KeyPress, PlayState};
use termcraft::inventory::{Inventory, Recipe};
use termcraft::menu::{append_decimal, craft_selected, crafting_menu, inventory_text};

fn recipes() -> Vec<Recipe> {
    vec![
        Recipe { label: String::from("Planks x4 (1 Wood)"), cost: vec![(Block::Wood, 1)], out: Block::Planks, out_n: 4 },
        Recipe {
            label: String::from("Torch x4 (1 Coal, 1 Planks)"),
            cost: vec![(Block::CoalOre, 1), (Block::Planks, 1)],
            out: Block::Torch,
            out_n: 4,
        },
        Recipe {
            label: String::from("Stone Brick x4 (4 Cobble)"),
            cost: vec![(Block::Cobblestone, 4)],
            out: Block::StoneBrick,
            out_n: 4,
        },
    ]
}

#[test]
fn decimals() {
    let mut s = String::from("n=");
    append_decimal(&mut s, 0);
    assert_eq!(s, "n=0");
    let mut s = String::new();
    append_decimal(&mut s, 4_294_967_295);
    assert_eq!(s, "4294967295");
    let mut s = String::new();
    append_decimal(&mut s, 120);
    assert_eq!(s, "120");
}

#[test]
fn empty_inventory_line() {
    let inv = Inventory::new();
    assert_eq!(inventory_text(&inv), "Inventory: (empty - go mine something!)");
}

#[test]
fn inventory_line_in_id_order() {
    let mut inv = Inventory::new();
    inv.add_item(Block::Wood, 3);
    inv.add_item(Block::Dirt, 12);
    inv.add_item(Block::CoalOre, 1);
    assert_eq!(inventory_text(&inv), "Inventory: Dirt x12, Wood x3, Coal Ore x1");
    assert!(inv.remove_item(Block::Wood, 3));
    assert_eq!(inventory_text(&inv), "Inventory: Dirt x12, Coal Ore x1");
    assert!(inv.remove_item(Block::Dirt, 12));
    assert!(inv.remove_item(Block::CoalOre, 1));
    // entries at zero keep the inventory from counting as empty
    assert_eq!(inventory_text(&inv), "Inventory: ");
}

#[test]
fn menu_lines() {
    let mut inv = Inventory::new();
    inv.add_item(Block::Wood, 1);
    let (lines, summary) = crafting_menu(&recipes(), 1, &inv);
    assert_eq!(lines.len(), 3);
    assert_eq!(lines[0], ("  Planks x4 (1 Wood)".to_string(), true));
    assert_eq!(lines[1], ("> Torch x4 (1 Coal, 1 Planks)".to_string(), false));
    assert_eq!(lines[2], ("  Stone Brick x4 (4 Cobble)".to_string(), false));
    assert_eq!(summary, "Inventory: Wood x1");
}

#[test]
fn crafting_the_selection() {
    let rs = recipes();
    let mut play = PlayState::new(20, rs.len());
    let mut inv = Inventory::new();
    inv.add_item(Block::Wood, 1);
    play.on_key(KeyPress { key: Key::Char('c'), released: false, ctrl: false });
    assert!(craft_selected(&mut play, &mut inv, &rs));
    assert_eq!(inv.count(Block::Planks), 4);
    assert_eq!(inv.count(Block::Wood), 0);
    assert_eq!(play.msg().unwrap(), ("Crafted 4x Planks!".to_string(), 80));
    play.on_key(KeyPress { key: Key::Down, released: false, ctrl: false });
    assert!(!craft_selected(&mut play, &mut inv, &rs));
    assert_eq!(play.msg().unwrap().0, "Not enough materials.");
    assert_eq!(inv.count(Block::Planks), 4);
}
