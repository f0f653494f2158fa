use vstd::prelude::*;

verus! {

/// All block types in the game. The numeric id of a block (see [`Block::to_u8`])
/// doubles as its save-file id.
#[derive(Clone, Copy, PartialEq, Eq, Structural, PartialOrd, Ord, Hash, Debug)]
pub enum Block {
    Air,
    Grass,
    Dirt,
    Stone,
    Cobblestone,
    Sand,
    Water,
    Wood,
    Leaves,
    Planks,
    CoalOre,
    IronOre,
    Bedrock,
    Torch,
    StoneBrick,
}

/// An RGB color.
pub type Rgb = (u8, u8, u8);

/// Number of block kinds; ids run from 0 to `BLOCK_KINDS - 1`.
pub const BLOCK_KINDS: u8 = 15;

/// The block whose id is `v`, for ids of a known block.
pub open spec fn block_with_id(v: int) -> Block {
    if v == 0 {
        Block::Air
    } else if v == 1 {
        Block::Grass
    } else if v == 2 {
        Block::Dirt
    } else if v == 3 {
        Block::Stone
    } else if v == 4 {
        Block::Cobblestone
    } else if v == 5 {
        Block::Sand
    } else if v == 6 {
        Block::Water
    } else if v == 7 {
        Block::Wood
    } else if v == 8 {
        Block::Leaves
    } else if v == 9 {
        Block::Planks
    } else if v == 10 {
        Block::CoalOre
    } else if v == 11 {
        Block::IronOre
    } else if v == 12 {
        Block::Bedrock
    } else if v == 13 {
        Block::Torch
    } else {
        Block::StoneBrick
    }
}

impl Block {
    /// The save-file id: the position of the block in declaration order.
    pub open spec fn id(self) -> u8 {
        match self {
            Block::Air => 0,
            Block::Grass => 1,
            Block::Dirt => 2,
            Block::Stone => 3,
            Block::Cobblestone => 4,
            Block::Sand => 5,
            Block::Water => 6,
            Block::Wood => 7,
            Block::Leaves => 8,
            Block::Planks => 9,
            Block::CoalOre => 10,
            Block::IronOre => 11,
            Block::Bedrock => 12,
            Block::Torch => 13,
            Block::StoneBrick => 14,
        }
    }

    /// Decoding an id: known ids give their block, every other byte gives air.
    pub open spec fn decode(v: u8) -> Block {
        if v < BLOCK_KINDS {
            block_with_id(v as int)
        } else {
            Block::Air
        }
    }

    pub open spec fn spec_is_solid(self) -> bool {
        !(self is Air || self is Water || self is Torch)
    }

    pub open spec fn spec_is_minable(self) -> bool {
        !(self is Air || self is Water || self is Bedrock)
    }

    pub open spec fn spec_drops(self) -> Option<Block> {
        match self {
            Block::Air | Block::Water | Block::Bedrock => None,
            Block::Grass => Some(Block::Dirt),
            Block::Stone => Some(Block::Cobblestone),
            b => Some(b),
        }
    }

    /// The display name of a block.
    pub open spec fn label(self) -> Seq<char> {
        match self {
            Block::Air => "Air"@,
            Block::Grass => "Grass"@,
            Block::Dirt => "Dirt"@,
            Block::Stone => "Stone"@,
            Block::Cobblestone => "Cobblestone"@,
            Block::Sand => "Sand"@,
            Block::Water => "Water"@,
            Block::Wood => "Wood"@,
            Block::Leaves => "Leaves"@,
            Block::Planks => "Planks"@,
            Block::CoalOre => "Coal Ore"@,
            Block::IronOre => "Iron Ore"@,
            Block::Bedrock => "Bedrock"@,
            Block::Torch => "Torch"@,
            Block::StoneBrick => "Stone Brick"@,
        }
    }

    pub open spec fn spec_glyph(self) -> char {
        match self {
            Block::Air => ' ',
            Block::Grass => '\u{2593}',
            Block::Dirt => '\u{2592}',
            Block::Stone => '\u{2592}',
            Block::Cobblestone => '\u{2591}',
            Block::Sand => '\u{2592}',
            Block::Water => '~',
            Block::Wood => '\u{2551}',
            Block::Leaves => '\u{2592}',
            Block::Planks => '\u{2550}',
            Block::CoalOre => '\u{2022}',
            Block::IronOre => '\u{2022}',
            Block::Bedrock => '\u{2593}',
            Block::Torch => '\u{2d5a}',
            Block::StoneBrick => '#',
        }
    }

    pub open spec fn spec_color3d(self) -> Rgb {
        match self {
            Block::Air => (0, 0, 0),
            Block::Grass => (106, 170, 64),
            Block::Dirt => (134, 96, 67),
            Block::Stone => (125, 125, 125),
            Block::Cobblestone => (108, 108, 108),
            Block::Sand => (219, 207, 163),
            Block::Water => (47, 93, 222),
            Block::Wood => (104, 82, 50),
            Block::Leaves => (58, 142, 48),
            Block::Planks => (178, 148, 90),
            Block::CoalOre => (66, 66, 70),
            Block::IronOre => (192, 156, 126),
            Block::Bedrock => (48, 48, 52),
            Block::Torch => (255, 216, 128),
            Block::StoneBrick => (142, 142, 146),
        }
    }

    pub open spec fn spec_colors(self) -> (Rgb, Option<Rgb>) {
        match self {
            Block::Air => ((0, 0, 0), None),
            Block::Grass => ((70, 170, 60), Some((90, 72, 40))),
            Block::Dirt => ((125, 88, 52), Some((100, 70, 42))),
            Block::Stone => ((132, 132, 138), Some((104, 104, 110))),
            Block::Cobblestone => ((145, 145, 145), Some((95, 95, 100))),
            Block::Sand => ((228, 208, 142), Some((202, 182, 116))),
            Block::Water => ((110, 160, 235), Some((35, 70, 165))),
            Block::Wood => ((152, 112, 62), Some((112, 82, 46))),
            Block::Leaves => ((45, 125, 45), Some((26, 88, 32))),
            Block::Planks => ((195, 152, 92), Some((162, 122, 72))),
            Block::CoalOre => ((28, 28, 30), Some((104, 104, 110))),
            Block::IronOre => ((225, 185, 152), Some((104, 104, 110))),
            Block::Bedrock => ((62, 62, 66), Some((34, 34, 40))),
            Block::Torch => ((255, 205, 80), None),
            Block::StoneBrick => ((150, 150, 156), Some((112, 112, 120))),
        }
    }

    /// The save-file id of this block.
    pub fn to_u8(self) -> (r: u8)
        ensures
            r == self.id(),
            r < BLOCK_KINDS,
    {
        match self {
            Block::Air => 0,
            Block::Grass => 1,
            Block::Dirt => 2,
            Block::Stone => 3,
            Block::Cobblestone => 4,
            Block::Sand => 5,
            Block::Water => 6,
            Block::Wood => 7,
            Block::Leaves => 8,
            Block::Planks => 9,
            Block::CoalOre => 10,
            Block::IronOre => 11,
            Block::Bedrock => 12,
            Block::Torch => 13,
            Block::StoneBrick => 14,
        }
    }

    /// The block with id `v`; an unknown id reads as air.
    pub fn from_u8(v: u8) -> (r: Block)
        ensures
            r == Block::decode(v),
            v < BLOCK_KINDS ==> r.id() == v,
            v >= BLOCK_KINDS ==> r == Block::Air,
    {
        match v {
            0 => Block::Air,
            1 => Block::Grass,
            2 => Block::Dirt,
            3 => Block::Stone,
            4 => Block::Cobblestone,
            5 => Block::Sand,
            6 => Block::Water,
            7 => Block::Wood,
            8 => Block::Leaves,
            9 => Block::Planks,
            10 => Block::CoalOre,
            11 => Block::IronOre,
            12 => Block::Bedrock,
            13 => Block::Torch,
            14 => Block::StoneBrick,
            _ => Block::Air,
        }
    }

    /// Solid blocks stop entities.
    #[verifier::when_used_as_spec(spec_is_solid)]
    pub fn is_solid(self) -> (r: bool)
        ensures
            r == self.spec_is_solid(),
    {
        !matches!(self, Block::Air | Block::Water | Block::Torch)
    }

    /// Whether mining can remove this block.
    #[verifier::when_used_as_spec(spec_is_minable)]
    pub fn is_minable(self) -> (r: bool)
        ensures
            r == self.spec_is_minable(),
    {
        !matches!(self, Block::Air | Block::Water | Block::Bedrock)
    }

    /// What lands in your inventory when you mine this block.
    #[verifier::when_used_as_spec(spec_drops)]
    pub fn drops(self) -> (r: Option<Block>)
        ensures
            r == self.spec_drops(),
    {
        match self {
            Block::Air | Block::Water | Block::Bedrock => None,
            Block::Grass => Some(Block::Dirt),
            Block::Stone => Some(Block::Cobblestone),
            b => Some(b),
        }
    }

    /// The display name of this block.
    pub fn name(self) -> (r: &'static str)
        ensures
            r@ == self.label(),
    {
        match self {
            Block::Air => "Air",
            Block::Grass => "Grass",
            Block::Dirt => "Dirt",
            Block::Stone => "Stone",
            Block::Cobblestone => "Cobblestone",
            Block::Sand => "Sand",
            Block::Water => "Water",
            Block::Wood => "Wood",
            Block::Leaves => "Leaves",
            Block::Planks => "Planks",
            Block::CoalOre => "Coal Ore",
            Block::IronOre => "Iron Ore",
            Block::Bedrock => "Bedrock",
            Block::Torch => "Torch",
            Block::StoneBrick => "Stone Brick",
        }
    }

    /// The character that draws this block in the side view.
    #[verifier::when_used_as_spec(spec_glyph)]
    pub fn glyph(self) -> (r: char)
        ensures
            r == self.spec_glyph(),
    {
        match self {
            Block::Air => ' ',
            Block::Grass => '\u{2593}',
            Block::Dirt => '\u{2592}',
            Block::Stone => '\u{2592}',
            Block::Cobblestone => '\u{2591}',
            Block::Sand => '\u{2592}',
            Block::Water => '~',
            Block::Wood => '\u{2551}',
            Block::Leaves => '\u{2592}',
            Block::Planks => '\u{2550}',
            Block::CoalOre => '\u{2022}',
            Block::IronOre => '\u{2022}',
            Block::Bedrock => '\u{2593}',
            Block::Torch => '\u{2d5a}',
            Block::StoneBrick => '#',
        }
    }

    /// Single base color for the 3D renderer (face shading is applied on top).
    #[verifier::when_used_as_spec(spec_color3d)]
    pub fn color3d(self) -> (r: Rgb)
        ensures
            r == self.spec_color3d(),
    {
        match self {
            Block::Air => (0, 0, 0),
            Block::Grass => (106, 170, 64),
            Block::Dirt => (134, 96, 67),
            Block::Stone => (125, 125, 125),
            Block::Cobblestone => (108, 108, 108),
            Block::Sand => (219, 207, 163),
            Block::Water => (47, 93, 222),
            Block::Wood => (104, 82, 50),
            Block::Leaves => (58, 142, 48),
            Block::Planks => (178, 148, 90),
            Block::CoalOre => (66, 66, 70),
            Block::IronOre => (192, 156, 126),
            Block::Bedrock => (48, 48, 52),
            Block::Torch => (255, 216, 128),
            Block::StoneBrick => (142, 142, 146),
        }
    }

    /// (foreground, background). A `None` background means "transparent":
    /// the sky/cave background shows through (used for torches).
    #[verifier::when_used_as_spec(spec_colors)]
    pub fn colors(self) -> (r: (Rgb, Option<Rgb>))
        ensures
            r == self.spec_colors(),
    {
        match self {
            Block::Air => ((0, 0, 0), None),
            Block::Grass => ((70, 170, 60), Some((90, 72, 40))),
            Block::Dirt => ((125, 88, 52), Some((100, 70, 42))),
            Block::Stone => ((132, 132, 138), Some((104, 104, 110))),
            Block::Cobblestone => ((145, 145, 145), Some((95, 95, 100))),
            Block::Sand => ((228, 208, 142), Some((202, 182, 116))),
            Block::Water => ((110, 160, 235), Some((35, 70, 165))),
            Block::Wood => ((152, 112, 62), Some((112, 82, 46))),
            Block::Leaves => ((45, 125, 45), Some((26, 88, 32))),
            Block::Planks => ((195, 152, 92), Some((162, 122, 72))),
            Block::CoalOre => ((28, 28, 30), Some((104, 104, 110))),
            Block::IronOre => ((225, 185, 152), Some((104, 104, 110))),
            Block::Bedrock => ((62, 62, 66), Some((34, 34, 40))),
            Block::Torch => ((255, 205, 80), None),
            Block::StoneBrick => ((150, 150, 156), Some((112, 112, 120))),
        }
    }
}

/// Decoding the id of a block gives the block back.
pub proof fn lemma_id_roundtrip(b: Block)
    ensures
        Block::decode(b.id()) == b,
        b.id() < BLOCK_KINDS,
{
}

/// Two distinct blocks have distinct ids.
pub proof fn lemma_id_injective(a: Block, b: Block)
    ensures
        a.id() == b.id() ==> a == b,
{
}

/// Every id below `BLOCK_KINDS` is the id of the block it decodes to.
pub proof fn lemma_decode_roundtrip(v: u8)
    requires
        v < BLOCK_KINDS,
    ensures
        Block::decode(v).id() == v,
{
}

/// A block that can be mined always drops something, and what it drops is
/// itself, except that grass drops dirt and stone drops cobblestone.
pub proof fn lemma_minable_drops(b: Block)
    ensures
        b.spec_is_minable() <==> b.spec_drops() is Some,
        b.spec_drops() matches Some(d) ==> (d == b || (b == Block::Grass && d == Block::Dirt) || (
        b == Block::Stone && d == Block::Cobblestone)),
{
}

} // verus!
