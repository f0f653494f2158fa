use termcraft::block::{Block, BLOCK_KINDS};

const ALL: [Block; 15] = [
    Block::Air,
    Block::Grass,
    Block::Dirt,
    Block::Stone,
    Block::Cobblestone,
    Block::Sand,
    Block::Water,
    Block::Wood,
    Block::Leaves,
    Block::Planks,
    Block::CoalOre,
    Block::IronOre,
    Block::Bedrock,
    Block::Torch,
    Block::StoneBrick,
];

#[test]
fn ids_follow_declaration_order() {
    for (i, b) in ALL.iter().enumerate() {
        assert_eq!(b.to_u8() as usize, i);
    }
    assert_eq!(Block::Water.to_u8(), 6);
    assert_eq!(Block::StoneBrick.to_u8(), 14);
}

#[test]
fn ids_roundtrip() {
    for b in ALL {
        assert_eq!(Block::from_u8(b.to_u8()), b);
    }
    for v in 0..BLOCK_KINDS {
        assert_eq!(Block::from_u8(v).to_u8(), v);
    }
}

#[test]
fn unknown_ids_read_as_air() {
    assert_eq!(Block::from_u8(15), Block::Air);
    assert_eq!(Block::from_u8(200), Block::Air);
    assert_eq!(Block::from_u8(255), Block::Air);
}

#[test]
fn solidity() {
    assert!(!Block::Air.is_solid());
    assert!(!Block::Water.is_solid());
    assert!(!Block::Torch.is_solid());
    assert!(Block::Stone.is_solid());
    assert!(Block::Leaves.is_solid());
    assert!(Block::Bedrock.is_solid());
    let solid = ALL.iter().filter(|b| b.is_solid()).count();
    assert_eq!(solid, 12);
}

#[test]
fn minable_blocks() {
    assert!(!Block::Air.is_minable());
    assert!(!Block::Water.is_minable());
    assert!(!Block::Bedrock.is_minable());
    assert!(Block::Torch.is_minable());
    assert!(Block::Stone.is_minable());
}

#[test]
fn drops_of_each_block() {
    assert_eq!(Block::Air.drops(), None);
    assert_eq!(Block::Water.drops(), None);
    assert_eq!(Block::Bedrock.drops(), None);
    assert_eq!(Block::Grass.drops(), Some(Block::Dirt));
    assert_eq!(Block::Stone.drops(), Some(Block::Cobblestone));
    assert_eq!(Block::Wood.drops(), Some(Block::Wood));
    assert_eq!(Block::CoalOre.drops(), Some(Block::CoalOre));
    for b in ALL {
        assert_eq!(b.is_minable(), b.drops().is_some());
    }
}

#[test]
fn names() {
    assert_eq!(Block::Air.name(), "Air");
    assert_eq!(Block::CoalOre.name(), "Coal Ore");
    assert_eq!(Block::IronOre.name(), "Iron Ore");
    assert_eq!(Block::StoneBrick.name(), "Stone Brick");
    assert_eq!(Block::Cobblestone.name(), "Cobblestone");
}

#[test]
fn glyphs() {
    assert_eq!(Block::Air.glyph(), ' ');
    assert_eq!(Block::Grass.glyph(), '▓');
    assert_eq!(Block::Water.glyph(), '~');
    assert_eq!(Block::Wood.glyph(), '║');
    assert_eq!(Block::Planks.glyph(), '═');
    assert_eq!(Block::Torch.glyph(), 'ⵚ');
    assert_eq!(Block::StoneBrick.glyph(), '#');
}

#[test]
fn colors() {
    assert_eq!(Block::Grass.color3d(), (106, 170, 64));
    assert_eq!(Block::Torch.color3d(), (255, 216, 128));
    assert_eq!(Block::Air.colors(), ((0, 0, 0), None));
    assert_eq!(Block::Torch.colors(), ((255, 205, 80), None));
    assert_eq!(Block::Water.colors(), ((110, 160, 235), Some((35, 70, 165))));
    for b in ALL {
        let (_, bg) = b.colors();
        assert_eq!(bg.is_none(), b == Block::Air || b == Block::Torch);
    }
}
