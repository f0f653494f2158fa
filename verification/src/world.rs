use vstd::prelude::*;

use crate::block::Block;

verus! {

/// Width of the side-view world, in tiles.
pub const WORLD_W: i32 = 600;

/// Height of the side-view world, in tiles (y grows downward).
pub const WORLD_H: i32 = 160;

/// Rows at or below this y that lie above the terrain fill with water.
pub const SEA_LEVEL: i32 = 72;

/// Whether (x, y) is a stored tile of the world.
pub open spec fn in_bounds(x: int, y: int) -> bool {
    0 <= x < WORLD_W && 0 <= y < WORLD_H
}

/// Row-major position of the tile (x, y).
pub open spec fn tile_index(x: int, y: int) -> int {
    y * WORLD_W + x
}

/// Number of stored tiles.
pub open spec fn tile_count() -> int {
    WORLD_W * WORLD_H
}

/// Distinct tiles are stored at distinct positions, all inside the storage.
pub proof fn lemma_tile_index(x: int, y: int, a: int, b: int)
    requires
        in_bounds(x, y),
        in_bounds(a, b),
    ensures
        0 <= tile_index(x, y) < tile_count(),
        tile_index(x, y) == tile_index(a, b) ==> x == a && y == b,
{
}

/// The side-view world: a `WORLD_W` x `WORLD_H` grid of blocks, stored row
/// by row, and the point where the player appears.
pub struct World {
    tiles: Vec<Block>,
    spawn: (i32, i32),
}

impl View for World {
    type V = Seq<Block>;

    /// The stored tiles in row-major order.
    closed spec fn view(&self) -> Seq<Block> {
        self.tiles@
    }
}

impl World {
    /// Where the player appears.
    pub closed spec fn spawn_point(&self) -> (i32, i32) {
        self.spawn
    }

    /// Where the player appears.
    pub fn spawn(&self) -> (r: (i32, i32))
        ensures
            r == self.spawn_point(),
    {
        self.spawn
    }

    /// Moves the spawn point; the tiles stay as they are.
    pub(crate) fn set_spawn(&mut self, spawn: (i32, i32))
        ensures
            final(self)@ == old(self)@,
            final(self).spawn_point() == spawn,
    {
        self.spawn = spawn;
    }

    /// The storage holds exactly one block per tile.
    pub open spec fn wf(&self) -> bool {
        self@.len() == tile_count()
    }

    /// The stored block at (x, y), for a tile in bounds.
    pub open spec fn tile(&self, x: int, y: int) -> Block {
        self@[tile_index(x, y)]
    }

    /// What the world holds at any coordinate: the side walls and everything
    /// below the last row are bedrock, everything above the first row is
    /// open sky.
    pub open spec fn at(&self, x: int, y: int) -> Block {
        if !(0 <= x < WORLD_W) || y >= WORLD_H {
            Block::Bedrock
        } else if y < 0 {
            Block::Air
        } else {
            self.tile(x, y)
        }
    }

    /// A world made of the given tiles.
    pub(crate) fn from_tiles(tiles: Vec<Block>, spawn: (i32, i32)) -> (w: World)
        ensures
            w@ == tiles@,
            w.spawn_point() == spawn,
    {
        World { tiles, spawn }
    }

    pub fn get(&self, x: i32, y: i32) -> (r: Block)
        requires
            self.wf(),
        ensures
            r == self.at(x as int, y as int),
    {
        if !(0 <= x && x < WORLD_W) || y >= WORLD_H {
            return Block::Bedrock;  // walls of the world
        }
        if y < 0 {
            return Block::Air;  // open sky
        }
        proof {
            lemma_tile_index(x as int, y as int, x as int, y as int);
        }
        self.tiles[(y * WORLD_W + x) as usize]
    }

    /// Stores `b` at (x, y); a coordinate outside the grid changes nothing.
    pub fn set(&mut self, x: i32, y: i32, b: Block)
        requires
            old(self).wf(),
        ensures
            final(self).wf(),
            final(self).spawn_point() == old(self).spawn_point(),
            in_bounds(x as int, y as int) ==> final(self)@ == old(self)@.update(
                tile_index(x as int, y as int),
                b,
            ),
            !in_bounds(x as int, y as int) ==> final(self)@ == old(self)@,
            forall|a: int, c: int|
                in_bounds(a, c) ==> #[trigger] final(self).tile(a, c) == if a == x && c == y {
                    b
                } else {
                    old(self).tile(a, c)
                },
    {
        assert forall|a: int, c: int|
            in_bounds(a, c) && in_bounds(x as int, y as int) && !(a == x && c == y) implies tile_index(
            a,
            c,
        ) != tile_index(x as int, y as int) by {
            lemma_tile_index(a, c, x as int, y as int);
        }
        if !(0 <= x && x < WORLD_W) || !(0 <= y && y < WORLD_H) {
            return;
        }
        proof {
            lemma_tile_index(x as int, y as int, x as int, y as int);
        }
        self.tiles.set((y * WORLD_W + x) as usize, b);
    }

    /// The first row at or below `y` whose block in column `x` is solid, or
    /// `WORLD_H` when there is none.
    pub open spec fn first_solid_from(&self, x: int, y: int) -> int
        decreases WORLD_H - y,
    {
        if y >= WORLD_H {
            WORLD_H as int
        } else if self.at(x, y).spec_is_solid() {
            y
        } else {
            self.first_solid_from(x, y + 1)
        }
    }

    /// The row of the first solid block in column `x`, counted from the top.
    pub open spec fn surface_of(&self, x: int) -> int {
        self.first_solid_from(x, 0)
    }

    /// y of the first solid block in a column (sky exposure); `WORLD_H` when
    /// the column holds no solid block.
    pub fn surface_at(&self, x: i32) -> (r: i32)
        requires
            self.wf(),
        ensures
            r == self.surface_of(x as int),
            0 <= r <= WORLD_H,
            forall|y: int| 0 <= y < r ==> !(#[trigger] self.at(x as int, y)).is_solid(),
            r < WORLD_H ==> self.at(x as int, r as int).is_solid(),
    {
        let mut y: i32 = 0;
        while y < WORLD_H
            invariant
                self.wf(),
                0 <= y <= WORLD_H,
                forall|yy: int| 0 <= yy < y ==> !(#[trigger] self.at(x as int, yy)).is_solid(),
                self.first_solid_from(x as int, y as int) == self.surface_of(x as int),
            decreases WORLD_H - y,
        {
            if self.get(x, y).is_solid() {
                return y;
            }
            y = y + 1;
        }
        WORLD_H
    }

    /// The block ids of all tiles, row by row.
    pub fn to_bytes(&self) -> (r: Vec<u8>)
        requires
            self.wf(),
        ensures
            r@ == self@.map_values(|b: Block| b.id()),
    {
        let mut out: Vec<u8> = Vec::new();
        let mut i: usize = 0;
        while i < self.tiles.len()
            invariant
                i <= self.tiles@.len(),
                out@ == self.tiles@.take(i as int).map_values(|b: Block| b.id()),
            decreases self.tiles@.len() - i,
        {
            out.push(self.tiles[i].to_u8());
            proof {
                assert(self.tiles@.take(i + 1) == self.tiles@.take(i as int).push(self.tiles@[i as int]));
            }
            i = i + 1;
        }
        proof {
            assert(self.tiles@.take(i as int) == self.tiles@);
        }
        out
    }

    /// Rebuilds a world from block ids; `None` unless there is exactly one id
    /// per tile. Unknown ids read as air.
    pub fn from_bytes(bytes: &[u8], spawn: (i32, i32)) -> (r: Option<World>)
        ensures
            bytes@.len() != tile_count() ==> r is None,
            bytes@.len() == tile_count() ==> (r matches Some(w) && w.wf() && w.spawn_point() == spawn
                && w@ == bytes@.map_values(|v: u8| Block::decode(v))),
    {
        if bytes.len() != (WORLD_W * WORLD_H) as usize {
            return None;
        }
        let mut tiles: Vec<Block> = Vec::new();
        let mut i: usize = 0;
        while i < bytes.len()
            invariant
                i <= bytes@.len(),
                tiles@ == bytes@.take(i as int).map_values(|v: u8| Block::decode(v)),
            decreases bytes@.len() - i,
        {
            tiles.push(Block::from_u8(bytes[i]));
            proof {
                assert(bytes@.take(i + 1) == bytes@.take(i as int).push(bytes@[i as int]));
            }
            i = i + 1;
        }
        proof {
            assert(bytes@.take(i as int) == bytes@);
        }
        Some(World { tiles, spawn })
    }

    /// Whether water standing at (x, y) also spreads sideways: it rests on
    /// something solid or on more water.
    pub open spec fn spreads_sideways(&self, x: int, y: int) -> bool {
        &&& self.at(x, y) == Block::Water
        &&& y < WORLD_H - 1
        &&& (self.at(x, y + 1).spec_is_solid() || self.at(x, y + 1) == Block::Water)
    }

    /// Whether one step of water flow fills (x, y): it is air and water
    /// stands directly above it or spreads into it from either side.
    pub open spec fn water_reaches(&self, x: int, y: int) -> bool {
        &&& self.at(x, y) == Block::Air
        &&& {
            ||| self.at(x, y - 1) == Block::Water
            ||| self.spreads_sideways(x - 1, y)
            ||| self.spreads_sideways(x + 1, y)
        }
    }

    fn water_reaches_exec(&self, x: i32, y: i32) -> (r: bool)
        requires
            self.wf(),
            in_bounds(x as int, y as int),
        ensures
            r == self.water_reaches(x as int, y as int),
    {
        if self.get(x, y) != Block::Air {
            return false;
        }
        if self.get(x, y - 1) == Block::Water {
            return true;
        }
        (self.get(x - 1, y) == Block::Water && y < WORLD_H - 1 && (self.get(x - 1, y + 1).is_solid()
            || self.get(x - 1, y + 1) == Block::Water)) || (self.get(x + 1, y) == Block::Water && y
            < WORLD_H - 1 && (self.get(x + 1, y + 1).is_solid() || self.get(x + 1, y + 1)
            == Block::Water))
    }

    /// Very simple cellular water flow: water falls into air below, then
    /// spreads sideways. Sources are infinite (spreading duplicates water).
    /// Every tile is decided from the world as it was before the step.
    pub fn flow_water(&mut self)
        requires
            old(self).wf(),
        ensures
            final(self).wf(),
            final(self).spawn_point() == old(self).spawn_point(),
            forall|x: int, y: int|
                in_bounds(x, y) ==> #[trigger] final(self).tile(x, y) == if old(self).water_reaches(
                    x,
                    y,
                ) {
                    Block::Water
                } else {
                    old(self).tile(x, y)
                },
            forall|x: int, y: int|
                in_bounds(x, y) && #[trigger] final(self).tile(x, y) != old(self).tile(x, y) ==> {
                    &&& old(self).tile(x, y) == Block::Air
                    &&& final(self).tile(x, y) == Block::Water
                    &&& {
                        ||| old(self).at(x, y - 1) == Block::Water
                        ||| (old(self).at(x - 1, y) == Block::Water && y + 1 < WORLD_H && (old(
                            self,
                        ).at(x - 1, y + 1).spec_is_solid() || old(self).at(x - 1, y + 1)
                            == Block::Water))
                        ||| (old(self).at(x + 1, y) == Block::Water && y + 1 < WORLD_H && (old(
                            self,
                        ).at(x + 1, y + 1).spec_is_solid() || old(self).at(x + 1, y + 1)
                            == Block::Water))
                    }
                },
            forall|x: int, y: int|
                in_bounds(x, y) && old(self).tile(x, y) == Block::Air && old(self).at(x, y - 1)
                    == Block::Water ==> #[trigger] final(self).tile(x, y) == Block::Water,
            forall|x: int, y: int|
                in_bounds(x, y) && old(self).tile(x, y) == Block::Air && y + 1 < WORLD_H && ((old(
                    self,
                ).at(x - 1, y) == Block::Water && (old(self).at(x - 1, y + 1).spec_is_solid() || old(
                    self,
                ).at(x - 1, y + 1) == Block::Water)) || (old(self).at(x + 1, y) == Block::Water && (
                old(self).at(x + 1, y + 1).spec_is_solid() || old(self).at(x + 1, y + 1)
                    == Block::Water))) ==> #[trigger] final(self).tile(x, y) == Block::Water,
            forall|x: int, y: int|
                in_bounds(x, y) && old(self).tile(x, y) != Block::Air ==> #[trigger] final(self).tile(
                    x,
                    y,
                ) == old(self).tile(x, y),
    {
        let mut next: Vec<Block> = Vec::new();
        let mut y: i32 = 0;
        while y < WORLD_H
            invariant
                self.wf(),
                0 <= y <= WORLD_H,
                next@.len() == y * WORLD_W,
                forall|xx: int, yy: int|
                    0 <= xx < WORLD_W && 0 <= yy < y ==> #[trigger] next@[tile_index(xx, yy)] == if self.water_reaches(
                        xx,
                        yy,
                    ) {
                        Block::Water
                    } else {
                        self.tile(xx, yy)
                    },
            decreases WORLD_H - y,
        {
            let mut x: i32 = 0;
            while x < WORLD_W
                invariant
                    self.wf(),
                    0 <= y < WORLD_H,
                    0 <= x <= WORLD_W,
                    next@.len() == y * WORLD_W + x,
                    forall|xx: int, yy: int|
                        0 <= xx < WORLD_W && 0 <= yy < WORLD_H && (yy < y || (yy == y && xx < x))
                            ==> #[trigger] next@[tile_index(xx, yy)] == if self.water_reaches(xx, yy) {
                            Block::Water
                        } else {
                            self.tile(xx, yy)
                        },
                decreases WORLD_W - x,
            {
                let b = if self.water_reaches_exec(x, y) {
                    Block::Water
                } else {
                    self.get(x, y)
                };
                next.push(b);
                x = x + 1;
            }
            y = y + 1;
        }
        self.tiles = next;
    }

    /// Whether any tile in the rectangle `x0..=x1` by `y0..=y1` is solid
    /// (coordinates outside the grid read as in [`World::at`]).
    pub fn any_solid_in(&self, x0: i32, x1: i32, y0: i32, y1: i32) -> (r: bool)
        requires
            self.wf(),
        ensures
            r == exists|tx: int, ty: int|
                x0 <= tx <= x1 && y0 <= ty <= y1 && (#[trigger] self.at(tx, ty)).spec_is_solid(),
    {
        if x0 > x1 || y0 > y1 {
            return false;
        }
        let mut ty: i32 = y0;
        loop
            invariant
                self.wf(),
                x0 <= x1,
                y0 <= ty <= y1,
                forall|tx: int, yy: int|
                    x0 <= tx <= x1 && y0 <= yy < ty ==> !(#[trigger] self.at(tx, yy)).spec_is_solid(),
            decreases y1 - ty,
        {
            let mut tx: i32 = x0;
            loop
                invariant
                    self.wf(),
                    x0 <= tx <= x1,
                    y0 <= ty <= y1,
                    forall|xx: int, yy: int|
                        x0 <= xx <= x1 && y0 <= yy < ty ==> !(#[trigger] self.at(xx, yy)).spec_is_solid(),
                    forall|xx: int| x0 <= xx < tx ==> !(#[trigger] self.at(xx, ty as int)).spec_is_solid(),
                ensures
                    forall|xx: int| x0 <= xx <= x1 ==> !(#[trigger] self.at(xx, ty as int)).spec_is_solid(),
                decreases x1 - tx,
            {
                if self.get(tx, ty).is_solid() {
                    return true;
                }
                if tx == x1 {
                    break;
                }
                tx = tx + 1;
            }
            if ty == y1 {
                return false;
            }
            ty = ty + 1;
        }
    }
}

/// The first solid row of a column lies in `0..=WORLD_H`, every row above
/// it is free of solid blocks, and it is at least any row above which the
/// column is known to be free.
pub proof fn lemma_surface_of(w: World, x: int, k: int)
    requires
        0 <= k <= WORLD_H,
        forall|y: int| 0 <= y < k ==> !(#[trigger] w.at(x, y)).spec_is_solid(),
    ensures
        k <= w.surface_of(x) <= WORLD_H,
        forall|y: int| 0 <= y < w.surface_of(x) ==> !(#[trigger] w.at(x, y)).spec_is_solid(),
        w.surface_of(x) < WORLD_H ==> w.at(x, w.surface_of(x)).spec_is_solid(),
{
    lemma_first_solid_from(w, x, 0, k);
}

proof fn lemma_first_solid_from(w: World, x: int, y0: int, k: int)
    requires
        0 <= y0 <= WORLD_H,
        0 <= k <= WORLD_H,
        forall|y: int| 0 <= y < k ==> !(#[trigger] w.at(x, y)).spec_is_solid(),
    ensures
        y0 <= w.first_solid_from(x, y0) <= WORLD_H,
        k <= y0 ==> k <= w.first_solid_from(x, y0),
        y0 <= k ==> k <= w.first_solid_from(x, y0),
        forall|y: int| y0 <= y < w.first_solid_from(x, y0) ==> !(#[trigger] w.at(x, y)).spec_is_solid(),
        w.first_solid_from(x, y0) < WORLD_H ==> w.at(x, w.first_solid_from(x, y0)).spec_is_solid(),
    decreases WORLD_H - y0,
{
    if y0 < WORLD_H && !w.at(x, y0).spec_is_solid() {
        lemma_first_solid_from(w, x, y0 + 1, k);
    }
}

/// Writing block ids out and reading them back gives every tile back.
pub proof fn lemma_bytes_roundtrip(tiles: Seq<Block>)
    ensures
        tiles.map_values(|b: Block| b.id()).map_values(|v: u8| Block::decode(v)) == tiles,
{
    let ids = tiles.map_values(|b: Block| b.id());
    let back = ids.map_values(|v: u8| Block::decode(v));
    assert forall|i: int| 0 <= i < tiles.len() implies back[i] == tiles[i] by {
        crate::block::lemma_id_roundtrip(tiles[i]);
    }
    assert(back =~= tiles);
}

/// One step of water flow changes only air, and the air right below water
/// always fills: water never drains away, and it falls before it spreads.
pub proof fn lemma_flow_fills_only_air(w: World, x: int, y: int)
    ensures
        w.water_reaches(x, y) ==> w.at(x, y) == Block::Air,
        w.water_reaches(x, y) ==> w.at(x, y - 1) == Block::Water || w.at(x - 1, y) == Block::Water
            || w.at(x + 1, y) == Block::Water,
        w.at(x, y - 1) != Block::Water && w.at(x - 1, y) != Block::Water && w.at(x + 1, y)
            != Block::Water ==> !w.water_reaches(x, y),
        w.at(x, y) == Block::Air && w.at(x, y - 1) == Block::Water ==> w.water_reaches(x, y),
{
}

} // verus!
