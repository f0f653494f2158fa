use vstd::prelude::*;

use rand::rngs::StdRng;
use rand::Rng;

use crate::block::Block;
use crate::world::{
    in_bounds, lemma_surface_of, tile_count, tile_index, World, SEA_LEVEL, WORLD_H, WORLD_W,
};

verus! {

#[verifier::external_type_specification]
#[verifier::external_body]
pub struct ExStdRng(StdRng);

/// `rand::Rng::gen_range` on the half-open range `lo..hi` of `i32`: the
/// sample lies in that range (the crate panics on an empty range, so the
/// range must not be empty). Which value comes out depends on the state of
/// the generator, which the call advances; nothing more is stated.
#[verifier::external_body]
fn random_range(rng: &mut StdRng, lo: i32, hi: i32) -> (r: i32)
    requires
        lo < hi,
    ensures
        lo <= r < hi,
{
    rng.gen_range(lo..hi)
}

/// The 64-bit mix behind the generator's noise: `seed` and the lattice
/// point `x` scrambled by multiply-xorshift rounds (the generator scales
/// the result into [0, 1]).
pub open spec fn scramble(seed: u64, x: i64) -> u64 {
    let h0 = seed ^ (x as u64).wrapping_mul(0x9E37_79B9_7F4A_7C15u64);
    let h1 = h0 ^ (h0 >> 30u64);
    let h2 = h1.wrapping_mul(0xBF58_476D_1CE4_E5B9u64);
    let h3 = h2 ^ (h2 >> 27u64);
    let h4 = h3.wrapping_mul(0x94D0_49BB_1331_11EBu64);
    h4 ^ (h4 >> 31u64)
}

/// Computes [`scramble`].
pub fn hash_bits(seed: u64, x: i64) -> (h: u64)
    ensures
        h == scramble(seed, x),
{
    let mut h = seed ^ (x as u64).wrapping_mul(0x9E37_79B9_7F4A_7C15);
    h ^= h >> 30;
    h = h.wrapping_mul(0xBF58_476D_1CE4_E5B9);
    h ^= h >> 27;
    h = h.wrapping_mul(0x94D0_49BB_1331_11EB);
    h ^= h >> 31;
    h
}

/// The tile (a, b) of a world given by its stored tiles.
pub open spec fn cell(t: Seq<Block>, a: int, b: int) -> Block {
    t[tile_index(a, b)]
}

/// Whether `q` is `p` or one of its eight neighbours.
pub open spec fn adjacent(p: (int, int), q: (int, int)) -> bool {
    -1 <= q.0 - p.0 <= 1 && -1 <= q.1 - p.1 <= 1
}

/// A walk an ore blob may take: it starts in the band `min_y..WORLD_H - 4`
/// of rows, visits 3 to 6 tiles, each the last one or a neighbour of it.
pub open spec fn ore_walk_ok(walk: Seq<(int, int)>, min_y: int) -> bool {
    &&& 3 <= walk.len() < 7
    &&& 0 <= walk[0].0 < WORLD_W
    &&& min_y <= walk[0].1 < WORLD_H - 4
    &&& forall|j: int| 0 <= j < walk.len() - 1 ==> adjacent(#[trigger] walk[j], walk[j + 1])
}

/// One ore blob: the stone on every tile the walk visits becomes `ore`,
/// every other tile stays.
pub open spec fn blob_step(
    before: Seq<Block>,
    after: Seq<Block>,
    ore: Block,
    walk: Seq<(int, int)>,
) -> bool {
    &&& after.len() == before.len()
    &&& forall|a: int, b: int|
        in_bounds(a, b) ==> #[trigger] cell(after, a, b) == if walk.contains((a, b)) && cell(
            before,
            a,
            b,
        ) == Block::Stone {
            ore
        } else {
            cell(before, a, b)
        }
}

/// Scattering `count` blobs of `ore` took the world `start` through
/// `worlds` to `end`, one blob along each of `walks`.
pub open spec fn ore_schedule(
    start: Seq<Block>,
    end: Seq<Block>,
    ore: Block,
    min_y: int,
    count: int,
    walks: Seq<Seq<(int, int)>>,
    worlds: Seq<Seq<Block>>,
) -> bool {
    &&& walks.len() == count
    &&& worlds.len() == count + 1
    &&& worlds[0] == start
    &&& worlds[count] == end
    &&& forall|i: int|
        0 <= i < count ==> ore_walk_ok(#[trigger] walks[i], min_y) && blob_step(
            worlds[i],
            worlds[i + 1],
            ore,
            walks[i],
        )
}

/// A sequence with one more element contains exactly what it contained
/// before, and the new element.
pub proof fn lemma_push_contains<T>(s: Seq<T>, v: T)
    ensures
        forall|q: T| #[trigger] s.push(v).contains(q) <==> s.contains(q) || q == v,
{
    assert forall|q: T| #[trigger] s.push(v).contains(q) <==> s.contains(q) || q == v by {
        if s.contains(q) {
            let j = choose|j: int| 0 <= j < s.len() && s[j] == q;
            assert(s.push(v)[j] == q);
        }
        if q == v {
            assert(s.push(v)[s.len() as int] == q);
        }
        if s.push(v).contains(q) {
            let j = choose|j: int| 0 <= j < s.len() + 1 && s.push(v)[j] == q;
            if j < s.len() {
                assert(s[j] == q);
            }
        }
    }
}

/// Where a blob walk from (bx, by) stands after its first `j` moves.
pub open spec fn walk_pos(bx: int, by: int, moves: Seq<(i32, i32)>, j: int) -> (int, int)
    decreases j,
{
    if j <= 0 {
        (bx, by)
    } else {
        let p = walk_pos(bx, by, moves, j - 1);
        (p.0 + moves[j - 1].0, p.1 + moves[j - 1].1)
    }
}

/// The tiles a blob walk from (bx, by) visits, one per move: its start,
/// then where each move but the last one leads.
pub open spec fn blob_walk(bx: int, by: int, moves: Seq<(i32, i32)>) -> Seq<(int, int)> {
    Seq::new(moves.len(), |j: int| walk_pos(bx, by, moves, j))
}

/// Every move shifts each coordinate by -1, 0 or 1.
pub open spec fn unit_moves(moves: Seq<(i32, i32)>) -> bool {
    forall|j: int| 0 <= j < moves.len() ==> -1 <= #[trigger] moves[j].0 <= 1 && -1 <= moves[j].1 <= 1
}

/// After `j` unit moves a walk is at most `j` tiles away from its start on
/// each axis, and each move leads to the current tile or a neighbour.
pub proof fn lemma_walk_pos(bx: int, by: int, moves: Seq<(i32, i32)>, j: int)
    requires
        unit_moves(moves),
        0 <= j <= moves.len(),
    ensures
        bx - j <= walk_pos(bx, by, moves, j).0 <= bx + j,
        by - j <= walk_pos(bx, by, moves, j).1 <= by + j,
        j < moves.len() ==> adjacent(walk_pos(bx, by, moves, j), walk_pos(bx, by, moves, j + 1)),
    decreases j,
{
    if j > 0 {
        lemma_walk_pos(bx, by, moves, j - 1);
    }
    if j < moves.len() {
        assert(-1 <= moves[j].0 <= 1 && -1 <= moves[j].1 <= 1);
    }
}

/// Whether a tile at offset (dx, dy) from the tile above a trunk lies in
/// the tree's crown of leaves (the tile above the trunk itself is filled
/// separately).
pub open spec fn in_crown(dx: int, dy: int) -> bool {
    &&& -2 <= dx <= 2
    &&& -2 <= dy <= 0
    &&& (if dx < 0 { -dx } else { dx }) + (if dy < 0 { -dy } else { dy }) < 4
    &&& !(dx == 0 && dy >= -1)
}

/// Whether a tree grows on column `x` whose ground lies at row `s`: grass
/// at or above sea level.
pub open spec fn tree_grows(before: Seq<Block>, x: int, s: int) -> bool {
    cell(before, x, s) == Block::Grass && s <= SEA_LEVEL
}

/// The tile (a, b) after a tree with a trunk of height `h` grows on column
/// `x` with ground at row `s`: the trunk rows are wood, the tile above the
/// trunk is leaves, the crown around it turns from air to leaves, the rest
/// stays.
pub open spec fn tree_tile(before: Seq<Block>, x: int, s: int, h: int, a: int, b: int) -> Block {
    let top = s - h;
    if a == x && top <= b < s {
        Block::Wood
    } else if a == x && b == top - 1 {
        Block::Leaves
    } else if in_crown(a - x, b - (top - 1)) && cell(before, a, b) == Block::Air {
        Block::Leaves
    } else {
        cell(before, a, b)
    }
}

/// One visited column: where a tree grows (see [`tree_grows`]) it is
/// planted (see [`tree_tile`]), elsewhere nothing changes.
pub open spec fn tree_step(before: Seq<Block>, after: Seq<Block>, x: int, s: int, h: int) -> bool {
    &&& after.len() == before.len()
    &&& forall|a: int, b: int|
        in_bounds(a, b) ==> #[trigger] cell(after, a, b) == if tree_grows(before, x, s) {
            tree_tile(before, x, s, h, a, b)
        } else {
            cell(before, a, b)
        }
}

/// Planting trees took the world `start` through `worlds` to `end`: the
/// visited columns `cols` start in `2..10`, lie 6 to 14 apart and stop
/// before `WORLD_W - 3`, the last one near enough to it that the next step
/// passes it; column `cols[i]` is visited with trunk height `heights[i]`
/// (3 to 5) in `worlds[i]`.
pub open spec fn tree_schedule(
    start: Seq<Block>,
    end: Seq<Block>,
    surface: Seq<i32>,
    cols: Seq<int>,
    heights: Seq<int>,
    worlds: Seq<Seq<Block>>,
) -> bool {
    let n = cols.len() as int;
    &&& n >= 1
    &&& heights.len() == n
    &&& worlds.len() == n + 1
    &&& worlds[0] == start
    &&& worlds[n] == end
    &&& 2 <= cols[0] < 10
    &&& forall|i: int| 0 <= i < n - 1 ==> 6 <= cols[i + 1] - #[trigger] cols[i] < 15
    &&& cols[n - 1] >= WORLD_W - 3 - 14
    &&& forall|i: int|
        0 <= i < n ==> #[trigger] cols[i] < WORLD_W - 3 && 3 <= heights[i] < 6 && tree_step(
            worlds[i],
            worlds[i + 1],
            cols[i],
            surface[cols[i]] as int,
            heights[i],
        )
}

/// The raw terrain heights clamped into `MIN_SURFACE..=MAX_SURFACE`.
pub open spec fn clamped_profile(raw: Seq<i32>) -> Seq<i32> {
    raw.map_values(|h: i32| clamped_surface(h as int) as i32)
}

/// `t` is fresh terrain over the ground rows `surface` (see
/// [`terrain_block`]).
pub open spec fn fresh_terrain(t: Seq<Block>, surface: Seq<i32>) -> bool {
    &&& t.len() == tile_count()
    &&& forall|a: int, b: int|
        in_bounds(a, b) ==> #[trigger] cell(t, a, b) == terrain_block(surface[a] as int, b)
}

/// One cave disk `d` hollowed out of `before` (see [`World::carve_disk`]).
pub open spec fn carve_step(before: Seq<Block>, after: Seq<Block>, d: (i32, i32, i32)) -> bool {
    &&& after.len() == before.len()
    &&& forall|a: int, b: int|
        in_bounds(a, b) ==> #[trigger] cell(after, a, b) == if in_disk(
            d.0 as int,
            d.1 as int,
            d.2 as int,
            a,
            b,
        ) && hollowable(cell(before, a, b)) {
            Block::Air
        } else {
            cell(before, a, b)
        }
}

/// The bedrock floor laid into `before` (see [`World::lay_bedrock`]).
pub open spec fn bedrock_step(before: Seq<Block>, after: Seq<Block>, rough: Seq<bool>) -> bool {
    &&& after.len() == before.len()
    &&& forall|a: int, b: int|
        in_bounds(a, b) ==> #[trigger] cell(after, a, b) == if b >= WORLD_H - 2 || (b == WORLD_H - 3
            && rough[a]) {
            Block::Bedrock
        } else {
            cell(before, a, b)
        }
}

/// The stages of world generation took fresh terrain over the clamped
/// heights `raw` to the tiles `end`: the cave disks `caves` hollowed out in
/// order (through `cave_worlds`), 130 blobs of coal from row 70 down, 80
/// blobs of iron from row 95 down, the bedrock floor with a third row where
/// `rough` says, then the trees over the clamped heights.
pub open spec fn generation(
    raw: Seq<i32>,
    caves: Seq<(i32, i32, i32)>,
    rough: Seq<bool>,
    end: Seq<Block>,
    cave_worlds: Seq<Seq<Block>>,
    coal_walks: Seq<Seq<(int, int)>>,
    coal_worlds: Seq<Seq<Block>>,
    iron_walks: Seq<Seq<(int, int)>>,
    iron_worlds: Seq<Seq<Block>>,
    tree_cols: Seq<int>,
    tree_heights: Seq<int>,
    tree_worlds: Seq<Seq<Block>>,
) -> bool {
    let surface = clamped_profile(raw);
    let n = caves.len() as int;
    &&& cave_worlds.len() == n + 1
    &&& fresh_terrain(cave_worlds[0], surface)
    &&& forall|i: int|
        0 <= i < n ==> carve_step(cave_worlds[i], cave_worlds[i + 1], #[trigger] caves[i])
    &&& ore_schedule(
        cave_worlds[n],
        coal_worlds[130],
        Block::CoalOre,
        70,
        130,
        coal_walks,
        coal_worlds,
    )
    &&& ore_schedule(
        coal_worlds[130],
        iron_worlds[80],
        Block::IronOre,
        95,
        80,
        iron_walks,
        iron_worlds,
    )
    &&& bedrock_step(iron_worlds[80], tree_worlds[0], rough)
    &&& tree_schedule(tree_worlds[0], end, surface, tree_cols, tree_heights, tree_worlds)
}

/// Lowest row a column's terrain may start at.
pub const MIN_SURFACE: i32 = 20;

/// Highest row a column's terrain may start at.
pub const MAX_SURFACE: i32 = WORLD_H - 20;

/// Rows above this one stay open sky in a generated world.
pub const SKY_ROWS: i32 = 12;

/// A raw terrain height clamped into the allowed band.
pub open spec fn clamped_surface(h: int) -> int {
    if h < MIN_SURFACE {
        MIN_SURFACE as int
    } else if h > MAX_SURFACE {
        MAX_SURFACE as int
    } else {
        h
    }
}

/// The block that fresh terrain holds at row `y` of a column whose ground
/// starts at row `s`: grass over three layers of dirt over stone; columns
/// dipping below sea level are flooded up to `SEA_LEVEL` with a sandy floor
/// three blocks deep, and columns just at the waterline get a two-block
/// beach.
pub open spec fn terrain_block(s: int, y: int) -> Block {
    if y < s {
        if s > SEA_LEVEL && y >= SEA_LEVEL {
            Block::Water
        } else {
            Block::Air
        }
    } else if s > SEA_LEVEL && y < s + 3 {
        Block::Sand
    } else if s <= SEA_LEVEL && s >= SEA_LEVEL - 2 && y <= s + 1 {
        Block::Sand
    } else if y == s {
        Block::Grass
    } else if y < s + 4 {
        Block::Dirt
    } else {
        Block::Stone
    }
}

/// Blocks that caves hollow out.
pub open spec fn hollowable(b: Block) -> bool {
    b == Block::Stone || b == Block::Dirt
}

/// A point within distance `r` of the centre lies in the square of
/// half-width `r` around it.
proof fn lemma_disk_in_square(d: int, e: int, r: int)
    requires
        r >= 0,
        d * d + e * e <= r * r,
    ensures
        -r <= d <= r,
        -r <= e <= r,
{
    assert(e * e >= 0 && d * d >= 0) by (nonlinear_arith);
    if d > r {
        assert(d * d > r * r) by (nonlinear_arith)
            requires
                d > r,
                r >= 0,
        ;
    }
    if d < -r {
        assert(d * d > r * r) by (nonlinear_arith)
            requires
                d < -r,
                r >= 0,
        ;
    }
    if e > r {
        assert(e * e > r * r) by (nonlinear_arith)
            requires
                e > r,
                r >= 0,
        ;
    }
    if e < -r {
        assert(e * e > r * r) by (nonlinear_arith)
            requires
                e < -r,
                r >= 0,
        ;
    }
}

/// Whether (x, y) lies in the disk of radius `r` around (cx, cy).
pub open spec fn in_disk(cx: int, cy: int, r: int, x: int, y: int) -> bool {
    &&& -r <= x - cx <= r
    &&& -r <= y - cy <= r
    &&& (x - cx) * (x - cx) + (y - cy) * (y - cy) <= r * r
}

/// Every row above `top` is open sky.
pub open spec fn sky_clear(w: World, top: int) -> bool {
    forall|x: int, y: int| 0 <= x < WORLD_W && 0 <= y < top ==> #[trigger] w.tile(x, y) == Block::Air
}

/// The two lowest rows are bedrock everywhere.
pub open spec fn floor_sealed(w: World) -> bool {
    forall|x: int|
        0 <= x < WORLD_W ==> #[trigger] w.tile(x, WORLD_H - 1) == Block::Bedrock && w.tile(
            x,
            WORLD_H - 2,
        ) == Block::Bedrock
}

/// Bounds on a cave disk that keep its arithmetic inside `i32`.
pub open spec fn cave_disk_ok(d: (i32, i32, i32)) -> bool {
    &&& -1_000_000 <= d.0 <= 1_000_000
    &&& -1_000_000 <= d.1 <= 1_000_000
    &&& 0 <= d.2 <= 1000
}

/// A column where the player can stand: its ground lies at or above sea
/// level and is not water.
pub open spec fn dry_column(w: World, c: int) -> bool {
    w.surface_of(c) <= SEA_LEVEL && w.at(c, w.surface_of(c)) != Block::Water
}

/// The spawn column search, continued from offset `dx`: it tries the
/// columns `WORLD_W / 2 + dx`, `WORLD_W / 2 - dx`, then the next offset, and
/// takes the first dry one; when none is dry it settles on the middle
/// column.
pub open spec fn spawn_search(w: World, dx: int) -> int
    decreases WORLD_W / 2 - dx,
{
    if dx >= WORLD_W / 2 || dx < 0 {
        (WORLD_W / 2) as int
    } else if dry_column(w, WORLD_W / 2 + dx) {
        WORLD_W / 2 + dx
    } else if dry_column(w, WORLD_W / 2 - dx) {
        WORLD_W / 2 - dx
    } else {
        spawn_search(w, dx + 1)
    }
}

/// The spawn point the search settles on: the chosen column, three rows
/// above its first solid block.
pub open spec fn spawn_spot(w: World) -> (i32, i32) {
    let c = spawn_search(w, 0);
    (c as i32, (w.surface_of(c) - 3) as i32)
}

fn terrain_block_exec(s: i32, y: i32) -> (b: Block)
    requires
        0 <= y < WORLD_H,
    ensures
        b == terrain_block(s as int, y as int),
{
    if y < s {
        if s > SEA_LEVEL && y >= SEA_LEVEL {
            Block::Water
        } else {
            Block::Air
        }
    } else if s > SEA_LEVEL && y - 3 < s {
        Block::Sand
    } else if s <= SEA_LEVEL && s >= SEA_LEVEL - 2 && y - 1 <= s {
        Block::Sand
    } else if y == s {
        Block::Grass
    } else if y - 4 < s {
        Block::Dirt
    } else {
        Block::Stone
    }
}

/// Clamps each raw terrain height into `MIN_SURFACE..=MAX_SURFACE`.
pub fn clamp_surface(raw: &Vec<i32>) -> (s: Vec<i32>)
    ensures
        s@.len() == raw@.len(),
        forall|i: int| 0 <= i < raw@.len() ==> #[trigger] s@[i] == clamped_surface(raw@[i] as int),
        s@ == clamped_profile(raw@),
{
    let mut s: Vec<i32> = Vec::new();
    let mut i: usize = 0;
    while i < raw.len()
        invariant
            i <= raw@.len(),
            s@.len() == i,
            forall|j: int| 0 <= j < i ==> #[trigger] s@[j] == clamped_surface(raw@[j] as int),
        decreases raw@.len() - i,
    {
        let h = raw[i];
        let c = if h < MIN_SURFACE {
            MIN_SURFACE
        } else if h > MAX_SURFACE {
            MAX_SURFACE
        } else {
            h
        };
        s.push(c);
        i = i + 1;
    }
    proof {
        assert(s@ =~= clamped_profile(raw@));
    }
    s
}

impl World {
    /// Fresh terrain: column x holds `terrain_block(surface[x], y)` at row y.
    pub fn terrain(surface: &Vec<i32>) -> (w: World)
        requires
            surface@.len() == WORLD_W,
        ensures
            w.wf(),
            w.spawn_point() == ((WORLD_W / 2) as i32, 0i32),
            forall|x: int, y: int|
                in_bounds(x, y) ==> #[trigger] w.tile(x, y) == terrain_block(surface@[x] as int, y),
    {
        let mut tiles: Vec<Block> = Vec::new();
        let mut y: i32 = 0;
        while y < WORLD_H
            invariant
                surface@.len() == WORLD_W,
                0 <= y <= WORLD_H,
                tiles@.len() == y * WORLD_W,
                forall|xx: int, yy: int|
                    0 <= xx < WORLD_W && 0 <= yy < y ==> #[trigger] tiles@[tile_index(xx, yy)]
                        == terrain_block(surface@[xx] as int, yy),
            decreases WORLD_H - y,
        {
            let mut x: i32 = 0;
            while x < WORLD_W
                invariant
                    surface@.len() == WORLD_W,
                    0 <= y < WORLD_H,
                    0 <= x <= WORLD_W,
                    tiles@.len() == y * WORLD_W + x,
                    forall|xx: int, yy: int|
                        0 <= xx < WORLD_W && 0 <= yy < WORLD_H && (yy < y || (yy == y && xx < x))
                            ==> #[trigger] tiles@[tile_index(xx, yy)] == terrain_block(
                            surface@[xx] as int,
                            yy,
                        ),
                decreases WORLD_W - x,
            {
                tiles.push(terrain_block_exec(surface[x as usize], y));
                x = x + 1;
            }
            y = y + 1;
        }
        World::from_tiles(tiles, (WORLD_W / 2, 0))
    }

    /// Hollows a cave disk: stone and dirt inside the disk become air,
    /// everything else stays.
    pub fn carve_disk(&mut self, cx: i32, cy: i32, r: i32)
        requires
            old(self).wf(),
            cave_disk_ok((cx, cy, r)),
        ensures
            final(self).wf(),
            final(self).spawn_point() == old(self).spawn_point(),
            forall|x: int, y: int|
                in_bounds(x, y) ==> #[trigger] final(self).tile(x, y) == if in_disk(
                    cx as int,
                    cy as int,
                    r as int,
                    x,
                    y,
                ) && hollowable(old(self).tile(x, y)) {
                    Block::Air
                } else {
                    old(self).tile(x, y)
                },
            forall|x: int, y: int|
                in_bounds(x, y) && #[trigger] final(self).tile(x, y) != old(self).tile(x, y) ==> (
                old(self).tile(x, y) == Block::Stone || old(self).tile(x, y) == Block::Dirt)
                    && final(self).tile(x, y) == Block::Air && (x - cx) * (x - cx) + (y - cy) * (y
                    - cy) <= r * r,
            forall|x: int, y: int|
                in_bounds(x, y) && (x - cx) * (x - cx) + (y - cy) * (y - cy) <= r * r && (old(
                    self,
                ).tile(x, y) == Block::Stone || old(self).tile(x, y) == Block::Dirt)
                    ==> #[trigger] final(self).tile(x, y) == Block::Air,
    {
        let ghost orig = *self;
        let mut dy: i32 = -r;
        while dy <= r
            invariant
                self.wf(),
                orig.wf(),
                self.spawn_point() == orig.spawn_point(),
                cave_disk_ok((cx, cy, r)),
                -r <= dy <= r + 1,
                forall|x: int, y: int|
                    in_bounds(x, y) ==> #[trigger] self.tile(x, y) == if in_disk(
                        cx as int,
                        cy as int,
                        r as int,
                        x,
                        y,
                    ) && y - cy < dy && hollowable(orig.tile(x, y)) {
                        Block::Air
                    } else {
                        orig.tile(x, y)
                    },
            decreases r + 1 - dy,
        {
            let mut dx: i32 = -r;
            while dx <= r
                invariant
                    self.wf(),
                    orig.wf(),
                    self.spawn_point() == orig.spawn_point(),
                    cave_disk_ok((cx, cy, r)),
                    -r <= dy <= r,
                    -r <= dx <= r + 1,
                    forall|x: int, y: int|
                        in_bounds(x, y) ==> #[trigger] self.tile(x, y) == if in_disk(
                            cx as int,
                            cy as int,
                            r as int,
                            x,
                            y,
                        ) && (y - cy < dy || (y - cy == dy && x - cx < dx)) && hollowable(
                            orig.tile(x, y),
                        ) {
                            Block::Air
                        } else {
                            orig.tile(x, y)
                        },
                decreases r + 1 - dx,
            {
                assert(0 <= dx * dx <= 1000 * 1000 && 0 <= dy * dy <= 1000 * 1000 && 0 <= r * r
                    <= 1000 * 1000)
                    by (nonlinear_arith)
                    requires
                        -1000 <= dx <= 1000,
                        -1000 <= dy <= 1000,
                        0 <= r <= 1000,
                ;
                if dx * dx + dy * dy <= r * r {
                    let tx = cx + dx;
                    let ty = cy + dy;
                    let here = self.get(tx, ty);
                    if here == Block::Stone || here == Block::Dirt {
                        self.set(tx, ty, Block::Air);
                    }
                }
                dx = dx + 1;
            }
            dy = dy + 1;
        }
        proof {
            assert forall|x: int, y: int|
                in_bounds(x, y) && (x - cx) * (x - cx) + (y - cy) * (y - cy) <= r * r implies in_disk(
                cx as int,
                cy as int,
                r as int,
                x,
                y,
            ) by {
                lemma_disk_in_square(x - cx, y - cy, r as int);
            }
        }
    }

    /// Walks one ore blob from (bx, by), one tile per entry of `moves`: the
    /// stone on every tile the walk visits (see [`blob_walk`]) becomes
    /// `ore`, every other tile stays.
    pub fn walk_blob(&mut self, ore: Block, bx: i32, by: i32, moves: &Vec<(i32, i32)>)
        requires
            old(self).wf(),
            -1_000_000 <= bx <= 1_000_000,
            -1_000_000 <= by <= 1_000_000,
            moves@.len() <= 1_000_000,
            unit_moves(moves@),
        ensures
            final(self).wf(),
            final(self).spawn_point() == old(self).spawn_point(),
            blob_step(old(self)@, final(self)@, ore, blob_walk(bx as int, by as int, moves@)),
    {
        let ghost before = self@;
        let ghost full = blob_walk(bx as int, by as int, moves@);
        let ghost mut walk: Seq<(int, int)> = Seq::empty();
        let mut x = bx;
        let mut y = by;
        let mut k: usize = 0;
        while k < moves.len()
            invariant
                self.wf(),
                self.spawn_point() == old(self).spawn_point(),
                before == old(self)@,
                full == blob_walk(bx as int, by as int, moves@),
                -1_000_000 <= bx <= 1_000_000,
                -1_000_000 <= by <= 1_000_000,
                moves@.len() <= 1_000_000,
                unit_moves(moves@),
                0 <= k <= moves@.len(),
                (x as int, y as int) == walk_pos(bx as int, by as int, moves@, k as int),
                walk == full.take(k as int),
                forall|a: int, b: int|
                    in_bounds(a, b) ==> #[trigger] self.tile(a, b) == if walk.contains((a, b))
                        && cell(before, a, b) == Block::Stone {
                        ore
                    } else {
                        cell(before, a, b)
                    },
            decreases moves@.len() - k,
        {
            let ghost w0 = walk;
            proof {
                lemma_walk_pos(bx as int, by as int, moves@, k as int);
                lemma_walk_pos(bx as int, by as int, moves@, k as int + 1);
            }
            if self.get(x, y) == Block::Stone {
                self.set(x, y, ore);
            }
            proof {
                walk = walk.push((x as int, y as int));
                lemma_push_contains(w0, (x as int, y as int));
                assert(walk =~= full.take(k as int + 1));
            }
            let (dx, dy) = moves[k];
            x = x + dx;
            y = y + dy;
            k = k + 1;
        }
        proof {
            assert(walk =~= full);
            assert forall|a: int, b: int| in_bounds(a, b) implies #[trigger] cell(self@, a, b)
                == if full.contains((a, b)) && cell(before, a, b) == Block::Stone {
                ore
            } else {
                cell(before, a, b)
            } by {
                assert(cell(self@, a, b) == self.tile(a, b));
            }
        }
    }

    /// Scatters `count` ore blobs: each starts at a random tile with
    /// `min_y <= y < WORLD_H - 4` and random-walks a few steps, turning the
    /// stone it visits into `ore`. Only stone ever changes, and only into
    /// `ore`. Each blob draws its start, its number of steps (3 to 6) and a
    /// unit move per step, and [`World::walk_blob`] walks it. Blob by blob,
    /// the world goes through the changes that [`ore_schedule`] describes,
    /// for the walks the generator drew.
    #[verifier::spinoff_prover]
    #[verifier::rlimit(50)]
    pub fn scatter_ore(&mut self, rng: &mut StdRng, ore: Block, min_y: i32, count: u32)
        requires
            old(self).wf(),
            0 <= min_y < WORLD_H - 4,
        ensures
            final(self).wf(),
            final(self).spawn_point() == old(self).spawn_point(),
            forall|x: int, y: int|
                in_bounds(x, y) ==> #[trigger] final(self).tile(x, y) == old(self).tile(x, y) || (
                old(self).tile(x, y) == Block::Stone && final(self).tile(x, y) == ore && min_y - 5
                    <= y),
            exists|walks: Seq<Seq<(int, int)>>, worlds: Seq<Seq<Block>>|
                #[trigger] ore_schedule(
                    old(self)@,
                    final(self)@,
                    ore,
                    min_y as int,
                    count as int,
                    walks,
                    worlds,
                ),
    {
        let ghost orig = *self;
        let ghost mut walks: Seq<Seq<(int, int)>> = Seq::empty();
        let ghost mut worlds: Seq<Seq<Block>> = seq![orig@];
        let mut n: u32 = 0;
        while n < count
            invariant
                self.wf(),
                orig.wf(),
                self.spawn_point() == orig.spawn_point(),
                0 <= min_y < WORLD_H - 4,
                n <= count,
                forall|x: int, y: int|
                    in_bounds(x, y) ==> #[trigger] self.tile(x, y) == orig.tile(x, y) || (orig.tile(
                        x,
                        y,
                    ) == Block::Stone && self.tile(x, y) == ore && min_y - 5 <= y),
                walks.len() == n,
                worlds.len() == n + 1,
                worlds[0] == orig@,
                worlds[n as int] == self@,
                forall|i: int|
                    0 <= i < n ==> ore_walk_ok(#[trigger] walks[i], min_y as int) && blob_step(
                        worlds[i],
                        worlds[i + 1],
                        ore,
                        walks[i],
                    ),
            decreases count - n,
        {
            let ghost before = *self;
            let bx = random_range(rng, 0, WORLD_W);
            let by = random_range(rng, min_y, WORLD_H - 4);
            let steps = random_range(rng, 3, 7);
            // each step moves to a neighbouring tile: both coordinates shift by -1, 0 or 1
            let mut moves: Vec<(i32, i32)> = Vec::new();
            let mut k: i32 = 0;
            while k < steps
                invariant
                    0 <= k <= steps < 7,
                    moves@.len() == k,
                    unit_moves(moves@),
                decreases steps - k,
            {
                let dx = random_range(rng, -1, 2);
                let dy = random_range(rng, -1, 2);
                moves.push((dx, dy));
                k = k + 1;
            }
            self.walk_blob(ore, bx, by, &moves);
            proof {
                let walk = blob_walk(bx as int, by as int, moves@);
                assert forall|j: int| 0 <= j < walk.len() - 1 implies adjacent(
                    #[trigger] walk[j],
                    walk[j + 1],
                ) by {
                    lemma_walk_pos(bx as int, by as int, moves@, j);
                }
                assert(walk[0] == (bx as int, by as int));
                assert(ore_walk_ok(walk, min_y as int));
                assert forall|x: int, y: int| in_bounds(x, y) implies #[trigger] self.tile(x, y)
                    == orig.tile(x, y) || (orig.tile(x, y) == Block::Stone && self.tile(x, y) == ore
                    && min_y - 5 <= y) by {
                    assert(cell(self@, x, y) == self.tile(x, y));
                    assert(cell(before@, x, y) == before.tile(x, y));
                    if walk.contains((x, y)) {
                        let j = choose|j: int| 0 <= j < walk.len() && walk[j] == (x, y);
                        lemma_walk_pos(bx as int, by as int, moves@, j);
                    }
                }
                walks = walks.push(walk);
                worlds = worlds.push(self@);
            }
            n = n + 1;
        }
        proof {
            assert(ore_schedule(orig@, self@, ore, min_y as int, count as int, walks, worlds));
        }
    }

    /// Seals the bottom of the world: the two lowest rows become bedrock, and
    /// the row above them wherever `rough[x]` holds.
    pub fn lay_bedrock(&mut self, rough: &Vec<bool>)
        requires
            old(self).wf(),
            rough@.len() == WORLD_W,
        ensures
            final(self).wf(),
            final(self).spawn_point() == old(self).spawn_point(),
            forall|x: int, y: int|
                in_bounds(x, y) ==> #[trigger] final(self).tile(x, y) == if y >= WORLD_H - 2 || (y
                    == WORLD_H - 3 && rough@[x]) {
                    Block::Bedrock
                } else {
                    old(self).tile(x, y)
                },
    {
        let ghost orig = *self;
        let mut x: i32 = 0;
        while x < WORLD_W
            invariant
                self.wf(),
                orig.wf(),
                self.spawn_point() == orig.spawn_point(),
                rough@.len() == WORLD_W,
                0 <= x <= WORLD_W,
                forall|xx: int, yy: int|
                    in_bounds(xx, yy) ==> #[trigger] self.tile(xx, yy) == if xx < x && (yy
                        >= WORLD_H - 2 || (yy == WORLD_H - 3 && rough@[xx])) {
                        Block::Bedrock
                    } else {
                        orig.tile(xx, yy)
                    },
            decreases WORLD_W - x,
        {
            self.set(x, WORLD_H - 1, Block::Bedrock);
            self.set(x, WORLD_H - 2, Block::Bedrock);
            if rough[x as usize] {
                self.set(x, WORLD_H - 3, Block::Bedrock);
            }
            x = x + 1;
        }
    }

    /// Grows one tree with a trunk of height `trunk_h` on column `x`, whose
    /// ground lies at row `s` (see [`tree_tile`]).
    pub fn grow_tree(&mut self, x: i32, s: i32, trunk_h: i32)
        requires
            old(self).wf(),
            MIN_SURFACE <= s <= MAX_SURFACE,
            3 <= trunk_h < 6,
            2 <= x < WORLD_W - 3,
        ensures
            final(self).wf(),
            final(self).spawn_point() == old(self).spawn_point(),
            forall|a: int, b: int|
                in_bounds(a, b) ==> #[trigger] final(self).tile(a, b) == tree_tile(
                    old(self)@,
                    x as int,
                    s as int,
                    trunk_h as int,
                    a,
                    b,
                ),
            forall|xx: int, yy: int|
                in_bounds(xx, yy) ==> {
                    ||| #[trigger] final(self).tile(xx, yy) == old(self).tile(xx, yy)
                    ||| (SKY_ROWS <= yy < MAX_SURFACE && (final(self).tile(xx, yy) == Block::Wood
                        || final(self).tile(xx, yy) == Block::Leaves))
                },
    {
        let ghost orig = *self;
        let ghost before = self@;
        let mut i: i32 = 1;
        while i <= trunk_h
            invariant
                self.wf(),
                orig.wf(),
                self.spawn_point() == orig.spawn_point(),
                MIN_SURFACE <= s <= MAX_SURFACE,
                3 <= trunk_h < 6,
                1 <= i <= trunk_h + 1,
                2 <= x < WORLD_W - 3,
                before.len() == tile_count(),
                forall|xx: int, yy: int|
                    in_bounds(xx, yy) ==> {
                        ||| #[trigger] self.tile(xx, yy) == orig.tile(xx, yy)
                        ||| (SKY_ROWS <= yy < MAX_SURFACE && (self.tile(xx, yy)
                            == Block::Wood || self.tile(xx, yy) == Block::Leaves))
                    },
                forall|a: int, b: int|
                    in_bounds(a, b) ==> #[trigger] self.tile(a, b) == if a == x && s - i < b
                        < s {
                        Block::Wood
                    } else {
                        cell(before, a, b)
                    },
            decreases trunk_h + 1 - i,
        {
            self.set(x, s - i, Block::Wood);
            i = i + 1;
        }
        let top = s - trunk_h;
        let mut dy: i32 = -2;
        while dy <= 0
            invariant
                self.wf(),
                orig.wf(),
                self.spawn_point() == orig.spawn_point(),
                MIN_SURFACE <= s <= MAX_SURFACE,
                3 <= trunk_h < 6,
                top == s - trunk_h,
                2 <= x < WORLD_W - 3,
                -2 <= dy <= 1,
                before.len() == tile_count(),
                forall|xx: int, yy: int|
                    in_bounds(xx, yy) ==> {
                        ||| #[trigger] self.tile(xx, yy) == orig.tile(xx, yy)
                        ||| (SKY_ROWS <= yy < MAX_SURFACE && (self.tile(xx, yy)
                            == Block::Wood || self.tile(xx, yy) == Block::Leaves))
                    },
                forall|a: int, b: int|
                    in_bounds(a, b) ==> #[trigger] self.tile(a, b) == if a == x && top <= b
                        < s {
                        Block::Wood
                    } else if in_crown(a - x, b - (top - 1)) && b - (top - 1) < dy
                        && cell(before, a, b) == Block::Air {
                        Block::Leaves
                    } else {
                        cell(before, a, b)
                    },
            decreases 1 - dy,
        {
            let mut dx: i32 = -2;
            while dx <= 2
                invariant
                    self.wf(),
                    orig.wf(),
                    self.spawn_point() == orig.spawn_point(),
                    MIN_SURFACE <= s <= MAX_SURFACE,
                    3 <= trunk_h < 6,
                    top == s - trunk_h,
                    2 <= x < WORLD_W - 3,
                    -2 <= dy <= 0,
                    -2 <= dx <= 3,
                    before.len() == tile_count(),
                    forall|xx: int, yy: int|
                    in_bounds(xx, yy) ==> {
                        ||| #[trigger] self.tile(xx, yy) == orig.tile(xx, yy)
                        ||| (SKY_ROWS <= yy < MAX_SURFACE && (self.tile(xx, yy)
                            == Block::Wood || self.tile(xx, yy) == Block::Leaves))
                    },
                    forall|a: int, b: int|
                        in_bounds(a, b) ==> #[trigger] self.tile(a, b) == if a == x && top
                            <= b < s {
                            Block::Wood
                        } else if in_crown(a - x, b - (top - 1)) && (b - (top - 1) < dy || (b
                            - (top - 1) == dy && a - x < dx)) && cell(before, a, b)
                            == Block::Air {
                            Block::Leaves
                        } else {
                            cell(before, a, b)
                        },
                decreases 3 - dx,
            {
                let adx = if dx < 0 {
                    -dx
                } else {
                    dx
                };
                let ady = if dy < 0 {
                    -dy
                } else {
                    dy
                };
                if adx + ady < 4 && !(dx == 0 && dy >= -1) {
                    let lx = x + dx;
                    let ly = top + dy - 1;
                    if self.get(lx, ly) == Block::Air {
                        self.set(lx, ly, Block::Leaves);
                    }
                }
                dx = dx + 1;
            }
            dy = dy + 1;
        }
        self.set(x, top - 1, Block::Leaves);
    }

    /// Plants trees along the surface, a few columns apart: on each grass
    /// column at or above sea level a wooden trunk of height 3 to 5 with a
    /// crown of leaves (leaves only fill air). Trees touch neither the sky
    /// rows nor the lowest twenty rows, and only ever place wood or leaves.
    /// Tree by tree, the world goes through the changes that
    /// [`tree_schedule`] describes, for the columns and trunk heights the
    /// generator drew.
    #[verifier::spinoff_prover]
    #[verifier::rlimit(50)]
    pub fn plant_trees(&mut self, rng: &mut StdRng, surface: &Vec<i32>)
        requires
            old(self).wf(),
            surface@.len() == WORLD_W,
            forall|i: int| 0 <= i < WORLD_W ==> MIN_SURFACE <= #[trigger] surface@[i] <= MAX_SURFACE,
        ensures
            final(self).wf(),
            final(self).spawn_point() == old(self).spawn_point(),
            forall|x: int, y: int|
                in_bounds(x, y) ==> {
                    ||| #[trigger] final(self).tile(x, y) == old(self).tile(x, y)
                    ||| (SKY_ROWS <= y < MAX_SURFACE && (final(self).tile(x, y) == Block::Wood
                        || final(self).tile(x, y) == Block::Leaves))
                },
            exists|cols: Seq<int>, heights: Seq<int>, worlds: Seq<Seq<Block>>|
                #[trigger] tree_schedule(old(self)@, final(self)@, surface@, cols, heights, worlds),
    {
        let ghost orig = *self;
        let ghost mut cols: Seq<int> = Seq::empty();
        let ghost mut heights: Seq<int> = Seq::empty();
        let ghost mut worlds: Seq<Seq<Block>> = seq![orig@];
        let mut x = random_range(rng, 2, 10);
        while x < WORLD_W - 3
            invariant
                self.wf(),
                orig.wf(),
                self.spawn_point() == orig.spawn_point(),
                surface@.len() == WORLD_W,
                forall|i: int| 0 <= i < WORLD_W ==> MIN_SURFACE <= #[trigger] surface@[i] <= MAX_SURFACE,
                2 <= x < WORLD_W + 12,
                forall|xx: int, yy: int|
                    in_bounds(xx, yy) ==> {
                        ||| #[trigger] self.tile(xx, yy) == orig.tile(xx, yy)
                        ||| (SKY_ROWS <= yy < MAX_SURFACE && (self.tile(xx, yy) == Block::Wood
                            || self.tile(xx, yy) == Block::Leaves))
                    },
                heights.len() == cols.len(),
                worlds.len() == cols.len() + 1,
                worlds[0] == orig@,
                worlds[cols.len() as int] == self@,
                cols.len() == 0 ==> x < 10,
                cols.len() > 0 ==> 2 <= cols[0] < 10 && 6 <= x - cols[cols.len() - 1] < 15,
                forall|i: int|
                    0 <= i < cols.len() - 1 ==> 6 <= cols[i + 1] - #[trigger] cols[i] < 15,
                forall|i: int|
                    0 <= i < cols.len() ==> #[trigger] cols[i] < WORLD_W - 3 && 3 <= heights[i] < 6
                        && tree_step(worlds[i], worlds[i + 1], cols[i], surface@[cols[i]] as int, heights[i]),
            decreases WORLD_W + 20 - x,
        {
            let ghost before = self@;
            let ghost mut h: int = 3;
            let s = surface[x as usize];
            if self.get(x, s) == Block::Grass && s <= SEA_LEVEL {
                let trunk_h = random_range(rng, 3, 6);
                proof {
                    h = trunk_h as int;
                }
                self.grow_tree(x, s, trunk_h);
            }
            proof {
                assert forall|a: int, b: int| in_bounds(a, b) implies #[trigger] cell(self@, a, b)
                    == if tree_grows(before, x as int, s as int) {
                    tree_tile(before, x as int, s as int, h, a, b)
                } else {
                    cell(before, a, b)
                } by {
                    assert(cell(self@, a, b) == self.tile(a, b));
                }
                assert(tree_step(before, self@, x as int, s as int, h));
                cols = cols.push(x as int);
                heights = heights.push(h);
                worlds = worlds.push(self@);
            }
            x = x + random_range(rng, 6, 15);
        }
        proof {
            assert(tree_schedule(orig@, self@, surface@, cols, heights, worlds));
        }
    }

    /// Picks the spawn point (see [`spawn_spot`]); the tiles stay as they are.
    pub fn place_spawn(&mut self)
        requires
            old(self).wf(),
        ensures
            final(self).wf(),
            final(self)@ == old(self)@,
            final(self).spawn_point() == spawn_spot(*old(self)),
    {
        let mid: i32 = WORLD_W / 2;
        let mut best: i32 = mid;
        let mut dx: i32 = 0;
        while dx < mid
            invariant_except_break
                best == mid,
                spawn_search(*self, 0) == spawn_search(*self, dx as int),
            invariant
                self.wf(),
                0 <= dx <= mid,
                mid == WORLD_W / 2,
            ensures
                best == spawn_search(*self, 0),
                0 <= best < WORLD_W,
            decreases mid - dx,
        {
            let mut found = false;
            let a = mid + dx;
            if 0 <= a && a < WORLD_W {
                let s = self.surface_at(a);
                if s <= SEA_LEVEL && self.get(a, s) != Block::Water {
                    best = a;
                    found = true;
                }
            }
            if !found {
                let b = mid - dx;
                if 0 <= b && b < WORLD_W {
                    let s = self.surface_at(b);
                    if s <= SEA_LEVEL && self.get(b, s) != Block::Water {
                        best = b;
                        found = true;
                    }
                }
            }
            proof {
                if !found {
                    lemma_surface_of(*self, mid as int, 0);
                }
            }
            if best != mid || dx == 0 {
                let s = self.surface_at(best);
                if s <= SEA_LEVEL {
                    break;
                }
            }
            dx = dx + 1;
        }
        let sy = self.surface_at(best);
        self.set_spawn((best, sy - 3));
    }

    /// Builds a world from the pieces of the generator that are computed
    /// elsewhere: the raw terrain height of each column (clamped into
    /// `MIN_SURFACE..=MAX_SURFACE`), the cave disks to hollow out in order,
    /// and which columns get a third bedrock row. `rng` then scatters coal
    /// and iron and plants the trees, and the spawn point is picked.
    ///
    /// The tiles are what those stages make of the inputs (see
    /// [`generation`]), for the blobs and trees the generator draws.
    /// Whatever it draws, the result has a sealed bedrock floor, open sky in
    /// its top rows, and a spawn point inside the world with room to stand:
    /// neither the spawn tile nor the one below it is solid.
    #[verifier::spinoff_prover]
    #[verifier::rlimit(50)]
    pub fn generate_from(
        raw_heights: &Vec<i32>,
        caves: &Vec<(i32, i32, i32)>,
        rough_floor: &Vec<bool>,
        rng: &mut StdRng,
    ) -> (w: World)
        requires
            raw_heights@.len() == WORLD_W,
            rough_floor@.len() == WORLD_W,
            forall|i: int| 0 <= i < caves@.len() ==> cave_disk_ok(#[trigger] caves@[i]),
        ensures
            w.wf(),
            exists|
                cave_worlds: Seq<Seq<Block>>,
                coal_walks: Seq<Seq<(int, int)>>,
                coal_worlds: Seq<Seq<Block>>,
                iron_walks: Seq<Seq<(int, int)>>,
                iron_worlds: Seq<Seq<Block>>,
                tree_cols: Seq<int>,
                tree_heights: Seq<int>,
                tree_worlds: Seq<Seq<Block>>,
            |
                #[trigger] generation(
                    raw_heights@,
                    caves@,
                    rough_floor@,
                    w@,
                    cave_worlds,
                    coal_walks,
                    coal_worlds,
                    iron_walks,
                    iron_worlds,
                    tree_cols,
                    tree_heights,
                    tree_worlds,
                ),
            floor_sealed(w),
            sky_clear(w, SKY_ROWS as int),
            w.spawn_point() == spawn_spot(w),
            0 <= w.spawn_point().0 < WORLD_W,
            0 <= w.spawn_point().1,
            w.spawn_point().1 + 3 < WORLD_H,
            w.spawn_point().1 == w.surface_of(w.spawn_point().0 as int) - 3,
            forall|y: int|
                w.spawn_point().1 <= y < w.spawn_point().1 + 3 ==> !(#[trigger] w.at(
                    w.spawn_point().0 as int,
                    y,
                )).spec_is_solid(),
            w.at(w.spawn_point().0 as int, w.spawn_point().1 + 3).spec_is_solid(),
    {
        let surface = clamp_surface(raw_heights);
        let mut w = World::terrain(&surface);
        let ghost t0 = w@;
        proof {
            assert forall|a: int, b: int| in_bounds(a, b) implies #[trigger] cell(t0, a, b)
                == terrain_block(surface@[a] as int, b) by {
                assert(cell(t0, a, b) == w.tile(a, b));
            }
            assert(fresh_terrain(t0, surface@));
        }
        assert(sky_clear(w, SKY_ROWS as int));
        let ghost mut cave_worlds: Seq<Seq<Block>> = seq![t0];
        let mut i: usize = 0;
        while i < caves.len()
            invariant
                w.wf(),
                i <= caves@.len(),
                forall|k: int| 0 <= k < caves@.len() ==> cave_disk_ok(#[trigger] caves@[k]),
                sky_clear(w, SKY_ROWS as int),
                cave_worlds.len() == i + 1,
                cave_worlds[0] == t0,
                cave_worlds[i as int] == w@,
                forall|k: int|
                    0 <= k < i ==> carve_step(cave_worlds[k], cave_worlds[k + 1], #[trigger] caves@[k]),
            decreases caves@.len() - i,
        {
            let ghost before = w;
            let (cx, cy, r) = caves[i];
            w.carve_disk(cx, cy, r);
            proof {
                assert forall|a: int, b: int| in_bounds(a, b) implies #[trigger] cell(w@, a, b)
                    == if in_disk(cx as int, cy as int, r as int, a, b) && hollowable(
                    cell(before@, a, b),
                ) {
                    Block::Air
                } else {
                    cell(before@, a, b)
                } by {
                    assert(cell(w@, a, b) == w.tile(a, b));
                    assert(cell(before@, a, b) == before.tile(a, b));
                }
                assert(carve_step(before@, w@, caves@[i as int]));
                cave_worlds = cave_worlds.push(w@);
            }
            i = i + 1;
        }
        let ghost caved = w@;
        w.scatter_ore(rng, Block::CoalOre, 70, 130);
        let ghost coaled = w@;
        let ghost (coal_walks, coal_worlds) = choose|
            walks: Seq<Seq<(int, int)>>,
            worlds: Seq<Seq<Block>>,
        | ore_schedule(caved, coaled, Block::CoalOre, 70, 130, walks, worlds);
        w.scatter_ore(rng, Block::IronOre, 95, 80);
        let ghost ironed = w;
        let ghost (iron_walks, iron_worlds) = choose|
            walks: Seq<Seq<(int, int)>>,
            worlds: Seq<Seq<Block>>,
        | ore_schedule(coaled, ironed@, Block::IronOre, 95, 80, walks, worlds);
        w.lay_bedrock(rough_floor);
        let ghost floored = w@;
        proof {
            assert forall|a: int, b: int| in_bounds(a, b) implies #[trigger] cell(floored, a, b)
                == if b >= WORLD_H - 2 || (b == WORLD_H - 3 && rough_floor@[a]) {
                Block::Bedrock
            } else {
                cell(ironed@, a, b)
            } by {
                assert(cell(floored, a, b) == w.tile(a, b));
                assert(cell(ironed@, a, b) == ironed.tile(a, b));
            }
            assert(bedrock_step(ironed@, floored, rough_floor@));
        }
        assert(floor_sealed(w));
        w.plant_trees(rng, &surface);
        let ghost treed = w@;
        let ghost (tree_cols, tree_heights, tree_worlds) = choose|
            cols: Seq<int>,
            heights: Seq<int>,
            worlds: Seq<Seq<Block>>,
        | tree_schedule(floored, treed, surface@, cols, heights, worlds);
        let ghost before = w;
        w.place_spawn();
        proof {
            assert forall|x: int, y: int| #![trigger w.tile(x, y)] in_bounds(x, y) implies w.tile(x, y)
                == before.tile(x, y) by {}
            assert(floor_sealed(w));
            assert(sky_clear(w, SKY_ROWS as int));
            let c = spawn_search(w, 0);
            lemma_spawn_search_range(w, 0);
            assert forall|y: int| 0 <= y < SKY_ROWS implies !(#[trigger] w.at(c, y)).spec_is_solid() by {
                assert(w.tile(c, y) == Block::Air);
            }
            lemma_surface_of(w, c, SKY_ROWS as int);
            assert(w.at(c, WORLD_H - 2) == Block::Bedrock);
            assert(w.surface_of(c) <= WORLD_H - 2);
            lemma_same_tiles_same_spawn(w, before);
            assert(generation(
                raw_heights@,
                caves@,
                rough_floor@,
                w@,
                cave_worlds,
                coal_walks,
                coal_worlds,
                iron_walks,
                iron_worlds,
                tree_cols,
                tree_heights,
                tree_worlds,
            ));
        }
        w
    }
}

/// Worlds with the same tiles have the same first solid rows.
proof fn lemma_same_tiles_first_solid(a: World, b: World, x: int, y: int)
    requires
        a@ == b@,
    ensures
        a.first_solid_from(x, y) == b.first_solid_from(x, y),
    decreases WORLD_H - y,
{
    if y < WORLD_H {
        lemma_same_tiles_first_solid(a, b, x, y + 1);
    }
}

proof fn lemma_same_tiles_search(a: World, b: World, dx: int)
    requires
        a@ == b@,
    ensures
        spawn_search(a, dx) == spawn_search(b, dx),
    decreases WORLD_W / 2 - dx,
{
    lemma_same_tiles_first_solid(a, b, WORLD_W / 2 + dx, 0);
    lemma_same_tiles_first_solid(a, b, WORLD_W / 2 - dx, 0);
    if 0 <= dx < WORLD_W / 2 {
        lemma_same_tiles_search(a, b, dx + 1);
    }
}

/// The spawn spot depends on the tiles alone.
pub proof fn lemma_same_tiles_same_spawn(a: World, b: World)
    requires
        a@ == b@,
    ensures
        spawn_spot(a) == spawn_spot(b),
{
    lemma_same_tiles_search(a, b, 0);
    lemma_same_tiles_first_solid(a, b, spawn_search(a, 0), 0);
}

/// The spawn search always lands on a column inside the world.
pub proof fn lemma_spawn_search_range(w: World, dx: int)
    requires
        0 <= dx,
    ensures
        0 <= spawn_search(w, dx) < WORLD_W,
    decreases WORLD_W / 2 - dx,
{
    if dx < WORLD_W / 2 {
        lemma_spawn_search_range(w, dx + 1);
    }
}

/// How far column `c` lies from the middle column.
pub open spec fn offset_from_middle(c: int) -> int {
    if c >= WORLD_W / 2 {
        c - WORLD_W / 2
    } else {
        WORLD_W / 2 - c
    }
}

/// A column is dry exactly when its ground lies at or above sea level: the
/// first solid block of a column is never water.
pub proof fn lemma_dry_column_iff(w: World, c: int)
    ensures
        dry_column(w, c) <==> w.surface_of(c) <= SEA_LEVEL,
{
    lemma_surface_of(w, c, 0);
}

/// Whether some column other than column 0 is dry.
pub open spec fn some_dry_column(w: World) -> bool {
    exists|c: int| 1 <= c < WORLD_W && #[trigger] dry_column(w, c)
}

proof fn lemma_search_nearest(w: World, dx: int)
    requires
        0 <= dx <= WORLD_W / 2,
    ensures
        ({
            let s = spawn_search(w, dx);
            (exists|c: int|
                1 <= c < WORLD_W && offset_from_middle(c) >= dx && #[trigger] dry_column(w, c))
                ==> {
                &&& dry_column(w, s)
                &&& offset_from_middle(s) >= dx
                &&& forall|c: int|
                    1 <= c < WORLD_W && offset_from_middle(c) >= dx && #[trigger] dry_column(w, c)
                        && c != s ==> offset_from_middle(c) > offset_from_middle(s) || (
                    offset_from_middle(c) == offset_from_middle(s) && s > WORLD_W / 2)
            }
        }),
        !(exists|c: int|
            1 <= c < WORLD_W && offset_from_middle(c) >= dx && #[trigger] dry_column(w, c))
            ==> spawn_search(w, dx) == WORLD_W / 2,
    decreases WORLD_W / 2 - dx,
{
    if dx < WORLD_W / 2 {
        lemma_search_nearest(w, dx + 1);
        let m = WORLD_W / 2;
        if !dry_column(w, m + dx) && !dry_column(w, m - dx) {
            assert forall|c: int|
                1 <= c < WORLD_W && offset_from_middle(c) >= dx && #[trigger] dry_column(w, c)
                    implies offset_from_middle(c) >= dx + 1 by {
                if offset_from_middle(c) == dx {
                    assert(c == m + dx || c == m - dx);
                }
            }
        }
    } else {
        assert forall|c: int| 1 <= c < WORLD_W implies offset_from_middle(c) < dx by {}
    }
}

/// The spawn search settles on the dry column nearest to the middle of the
/// world (of two at the same distance, the one to the right), and on the
/// middle column when no column is dry.
pub proof fn lemma_spawn_nearest_dry(w: World)
    ensures
        some_dry_column(w) ==> {
            let s = spawn_search(w, 0);
            &&& 1 <= s < WORLD_W
            &&& dry_column(w, s)
            &&& forall|c: int|
                1 <= c < WORLD_W && #[trigger] dry_column(w, c) && c != s ==> offset_from_middle(c)
                    > offset_from_middle(s) || (offset_from_middle(c) == offset_from_middle(s) && s
                    > WORLD_W / 2)
        },
        !some_dry_column(w) ==> spawn_search(w, 0) == WORLD_W / 2,
{
    lemma_search_nearest(w, 0);
    lemma_spawn_search_range(w, 0);
    if some_dry_column(w) {
        let c = choose|c: int| 1 <= c < WORLD_W && #[trigger] dry_column(w, c);
        assert(offset_from_middle(c) >= 0);
        let s = spawn_search(w, 0);
        if s == 0 {
            assert(offset_from_middle(s) == WORLD_W / 2);
        }
    }
}

/// Caves hollow out exactly stone and dirt: every other block, the sand of
/// a sea floor, grass, water, ore and bedrock among them, stays.
pub proof fn lemma_hollowable(b: Block)
    ensures
        hollowable(b) <==> (b == Block::Stone || b == Block::Dirt),
        !hollowable(Block::Sand),
        !hollowable(Block::Grass),
        !hollowable(Block::Water),
        !hollowable(Block::Bedrock),
{
}

} // verus!
