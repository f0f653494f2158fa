use rand::rngs::StdRng;
use rand::SeedableRng;
use termcraft::block::Block;
use termcraft::world::{World, SEA_LEVEL, WORLD_H, WORLD_W};
use termcraft::worldgen::{clamp_surface, hash_bits, MAX_SURFACE, MIN_SURFACE, SKY_ROWS};

fn empty_world() -> World {
    World::from_bytes(&vec![0u8; (WORLD_W * WORLD_H) as usize], (0, 0)).unwrap()
}

fn flat(h: i32) -> Vec<i32> {
    vec![h; WORLD_W as usize]
}

fn check_generated(w: &World) {
    let (sx, sy) = w.spawn();
    assert!((0..WORLD_W).contains(&sx));
    assert!((0..WORLD_H).contains(&sy));
    assert!(!w.get(sx, sy).is_solid());
    assert!(!w.get(sx, sy + 1).is_solid());
    assert!(!w.get(sx, sy + 2).is_solid());
    assert!(w.get(sx, sy + 3).is_solid());
    assert_eq!(sy, w.surface_at(sx) - 3);
    for x in 0..WORLD_W {
        assert_eq!(w.get(x, WORLD_H - 1), Block::Bedrock);
        assert_eq!(w.get(x, WORLD_H - 2), Block::Bedrock);
        for y in 0..SKY_ROWS {
            assert_eq!(w.get(x, y), Block::Air);
        }
    }
}

#[test]
fn heights_are_clamped() {
    let s = clamp_surface(&vec![-5, 0, 19, 20, 77, 140, 141, 1000]);
    assert_eq!(s, vec![20, 20, 20, 20, 77, 140, 140, 140]);
    assert_eq!((MIN_SURFACE, MAX_SURFACE), (20, WORLD_H - 20));
}

#[test]
fn terrain_layers_on_dry_land() {
    let w = World::terrain(&flat(50));
    assert_eq!(w.get(7, 49), Block::Air);
    assert_eq!(w.get(7, 50), Block::Grass);
    assert_eq!(w.get(7, 51), Block::Dirt);
    assert_eq!(w.get(7, 53), Block::Dirt);
    assert_eq!(w.get(7, 54), Block::Stone);
    assert_eq!(w.get(7, WORLD_H - 1), Block::Stone);
    assert_eq!(w.spawn(), (WORLD_W / 2, 0));
}

#[test]
fn terrain_floods_below_sea_level() {
    let w = World::terrain(&flat(80));
    assert_eq!(w.get(3, SEA_LEVEL - 1), Block::Air);
    assert_eq!(w.get(3, SEA_LEVEL), Block::Water);
    assert_eq!(w.get(3, 79), Block::Water);
    assert_eq!(w.get(3, 80), Block::Sand);
    assert_eq!(w.get(3, 82), Block::Sand);
    assert_eq!(w.get(3, 83), Block::Dirt);
    assert_eq!(w.get(3, 84), Block::Stone);
}

#[test]
fn terrain_has_beaches_at_the_waterline() {
    let w = World::terrain(&flat(SEA_LEVEL - 1));
    assert_eq!(w.get(3, SEA_LEVEL - 1), Block::Sand);
    assert_eq!(w.get(3, SEA_LEVEL), Block::Sand);
    assert_eq!(w.get(3, SEA_LEVEL + 1), Block::Dirt);
    assert_eq!(w.get(3, SEA_LEVEL + 3), Block::Stone);
    let w = World::terrain(&flat(SEA_LEVEL - 3));
    assert_eq!(w.get(3, SEA_LEVEL - 3), Block::Grass);
}

#[test]
fn caves_hollow_only_stone_and_dirt() {
    let mut w = World::terrain(&flat(50));
    w.set(100, 52, Block::Water);
    w.carve_disk(100, 52, 2);
    assert_eq!(w.get(100, 50), Block::Grass); // on the rim, but grass is not hollowed
    assert_eq!(w.get(100, 52), Block::Water);
    assert_eq!(w.get(101, 52), Block::Air);
    assert_eq!(w.get(102, 52), Block::Air);
    assert_eq!(w.get(101, 53), Block::Air);
    assert_eq!(w.get(102, 54), Block::Stone); // corner lies outside the disk
    assert_eq!(w.get(103, 52), Block::Dirt);
}

#[test]
fn caves_keep_grass() {
    let mut w = World::terrain(&flat(50));
    w.carve_disk(200, 51, 1);
    assert_eq!(w.get(200, 50), Block::Grass);
    assert_eq!(w.get(200, 51), Block::Air);
    assert_eq!(w.get(200, 52), Block::Air);
    assert_eq!(w.get(199, 52), Block::Dirt);
}

#[test]
fn bedrock_rows() {
    let mut w = empty_world();
    let mut rough = vec![false; WORLD_W as usize];
    rough[4] = true;
    w.lay_bedrock(&rough);
    assert_eq!(w.get(4, WORLD_H - 3), Block::Bedrock);
    assert_eq!(w.get(5, WORLD_H - 3), Block::Air);
    assert_eq!(w.get(5, WORLD_H - 2), Block::Bedrock);
    assert_eq!(w.get(5, WORLD_H - 1), Block::Bedrock);
}

#[test]
fn ore_only_replaces_stone() {
    let mut w = World::terrain(&flat(50));
    let before = w.to_bytes();
    let mut rng = StdRng::seed_from_u64(5);
    w.scatter_ore(&mut rng, Block::CoalOre, 70, 130);
    let after = w.to_bytes();
    let mut changed = 0;
    let mut columns = std::collections::BTreeSet::new();
    for (i, (a, b)) in before.iter().zip(after.iter()).enumerate() {
        if a != b {
            assert_eq!(*a, Block::Stone.to_u8());
            assert_eq!(*b, Block::CoalOre.to_u8());
            assert!(i / 600 >= 65);
            columns.insert(i % 600);
            changed += 1;
        }
    }
    assert!(changed > 0);
    // the blobs are scattered over the whole width
    assert!(columns.len() > 50);
    assert!(columns.iter().any(|&c| c > 300));
}

#[test]
fn trees_grow_on_grass_above_sea_level() {
    let surface = flat(50);
    let mut w = World::terrain(&surface);
    let mut rng = StdRng::seed_from_u64(11);
    w.plant_trees(&mut rng, &surface);
    let mut wood = 0;
    for x in 0..WORLD_W {
        for y in 0..WORLD_H {
            let b = w.get(x, y);
            if b == Block::Wood {
                wood += 1;
                assert!((45..50).contains(&y));
            }
            if b == Block::Leaves {
                assert!((42..47).contains(&y));
            }
        }
    }
    assert!(wood > 0);
    // no trees on flooded land
    let surface = flat(90);
    let mut w = World::terrain(&surface);
    w.plant_trees(&mut rng, &surface);
    assert!(w.to_bytes().iter().all(|&v| v != Block::Wood.to_u8()));
}

#[test]
fn spawn_on_the_middle_column_of_dry_land() {
    let mut w = World::terrain(&flat(50));
    w.place_spawn();
    assert_eq!(w.spawn(), (WORLD_W / 2, 47));
}

#[test]
fn spawn_prefers_the_nearest_dry_column() {
    let mut heights = flat(100);
    heights[310] = 60;
    heights[293] = 60;
    let mut w = World::terrain(&heights);
    w.place_spawn();
    assert_eq!(w.spawn(), (293, 57));
    heights[307] = 60;
    let mut w = World::terrain(&heights);
    w.place_spawn();
    assert_eq!(w.spawn(), (307, 57));
}

#[test]
fn spawn_falls_back_to_the_middle() {
    let mut w = World::terrain(&flat(100));
    w.place_spawn();
    // the whole world is sea: the middle column, above the sea floor
    assert_eq!(w.spawn(), (WORLD_W / 2, 97));
}

#[test]
fn generated_worlds_keep_their_promises() {
    for seed in 0..4u64 {
        let mut rng = StdRng::seed_from_u64(seed);
        let raw: Vec<i32> = (0..WORLD_W).map(|x| 40 + (x * 7 + seed as i32 * 13) % 60).collect();
        let caves: Vec<(i32, i32, i32)> = (0..200).map(|i| ((i * 37) % 600, 80 + (i * 11) % 60, 1 + i % 2)).collect();
        let rough: Vec<bool> = (0..WORLD_W).map(|x| x % 3 == 0).collect();
        let w = World::generate_from(&raw, &caves, &rough, &mut rng);
        check_generated(&w);
    }
}

#[test]
fn generated_world_with_flat_sea() {
    let mut rng = StdRng::seed_from_u64(1);
    let w = World::generate_from(&flat(150), &vec![], &vec![true; WORLD_W as usize], &mut rng);
    check_generated(&w);
    for x in 0..WORLD_W {
        assert_eq!(w.get(x, WORLD_H - 3), Block::Bedrock);
    }
}

#[test]
fn generated_world_with_extreme_heights() {
    let mut rng = StdRng::seed_from_u64(2);
    let w = World::generate_from(&flat(-1000), &vec![(300, 20, 2)], &vec![false; WORLD_W as usize], &mut rng);
    check_generated(&w);
}

#[test]
fn generated_world_roundtrips_through_bytes() {
    let mut rng = StdRng::seed_from_u64(7);
    let raw: Vec<i32> = (0..WORLD_W).map(|x| 50 + (x % 40)).collect();
    let caves: Vec<(i32, i32, i32)> = (0..100).map(|i| (i * 6, 100, 2)).collect();
    let w = World::generate_from(&raw, &caves, &vec![false; WORLD_W as usize], &mut rng);
    let bytes = w.to_bytes();
    let w2 = World::from_bytes(&bytes, w.spawn()).unwrap();
    for y in 0..WORLD_H {
        for x in 0..WORLD_W {
            assert_eq!(w.get(x, y), w2.get(x, y));
        }
    }
}

#[test]
fn ores_stay_near_their_depth() {
    let mut w = World::terrain(&flat(30));
    let mut rng = StdRng::seed_from_u64(3);
    w.scatter_ore(&mut rng, Block::IronOre, 95, 80);
    for y in 0..90 {
        for x in 0..WORLD_W {
            assert_ne!(w.get(x, y), Block::IronOre);
        }
    }
}

#[test]
fn noise_hash_values() {
    assert_eq!(hash_bits(0, 0), 0);
    assert_eq!(hash_bits(42, 1), 13679457532755275413);
    assert_eq!(hash_bits(7, -1), 16946567177733334686);
    assert_eq!(hash_bits(0xBED ^ 3, 599), 5000299444855950276);
}

#[test]
fn trees_have_trunk_and_crown() {
    let surface = flat(50);
    let mut w = World::terrain(&surface);
    let mut rng = StdRng::seed_from_u64(21);
    w.plant_trees(&mut rng, &surface);
    let mut trees = 0;
    let mut last: Option<i32> = None;
    for x in 0..WORLD_W {
        if w.get(x, 49) != Block::Wood {
            continue;
        }
        trees += 1;
        if let Some(prev) = last {
            assert!((6..15).contains(&(x - prev)));
        } else {
            assert!((2..10).contains(&x));
        }
        last = Some(x);
        let h = (1..=5).take_while(|i| w.get(x, 50 - i) == Block::Wood).count() as i32;
        assert!((3..6).contains(&h));
        let top = 50 - h;
        assert_eq!(w.get(x, top - 1), Block::Leaves);
        assert_eq!(w.get(x, top - 2), Block::Air);
        assert_eq!(w.get(x, top - 3), Block::Leaves);
        for dx in [-2, -1, 1, 2] {
            assert_eq!(w.get(x + dx, top - 1), Block::Leaves);
            assert_eq!(w.get(x + dx, top - 2), Block::Leaves);
        }
        assert_eq!(w.get(x - 2, top - 3), Block::Air);
        assert_eq!(w.get(x - 1, top - 3), Block::Leaves);
    }
    assert!(trees > 20);
    assert!(last.unwrap() >= WORLD_W - 3 - 14);
}

#[test]
fn blob_walk_turns_visited_stone_into_ore() {
    let mut w = World::terrain(&flat(50));
    // start on stone at (10, 100), walk right, then down-left, then stay
    w.walk_blob(Block::IronOre, 10, 100, &vec![(1, 0), (-1, 1), (0, 0), (1, 1)]);
    assert_eq!(w.get(10, 100), Block::IronOre);
    assert_eq!(w.get(11, 100), Block::IronOre);
    assert_eq!(w.get(10, 101), Block::IronOre);
    // the last move is taken after the last tile is visited
    assert_eq!(w.get(11, 102), Block::Stone);
    assert_eq!(w.get(9, 100), Block::Stone);
    assert_eq!(w.get(12, 100), Block::Stone);
}

#[test]
fn blob_walk_leaves_other_blocks_alone() {
    let mut w = World::terrain(&flat(50));
    w.walk_blob(Block::CoalOre, 5, 49, &vec![(0, 1), (0, 1), (0, 1), (0, 1), (0, 1)]);
    assert_eq!(w.get(5, 49), Block::Air);
    assert_eq!(w.get(5, 50), Block::Grass);
    assert_eq!(w.get(5, 53), Block::Dirt);
    // (5, 54) would be the sixth tile, but five moves visit five tiles
    assert_eq!(w.get(5, 54), Block::Stone);
}

#[test]
fn grown_tree_has_trunk_and_crown() {
    let mut w = World::terrain(&flat(60));
    w.grow_tree(100, 60, 4);
    for y in 56..60 {
        assert_eq!(w.get(100, y), Block::Wood);
    }
    assert_eq!(w.get(100, 55), Block::Leaves);
    assert_eq!(w.get(98, 55), Block::Leaves);
    assert_eq!(w.get(102, 55), Block::Leaves);
    assert_eq!(w.get(101, 53), Block::Leaves);
    assert_eq!(w.get(99, 54), Block::Leaves);
    assert_eq!(w.get(100, 54), Block::Air);
    assert_eq!(w.get(98, 53), Block::Air);
    assert_eq!(w.get(100, 60), Block::Grass);
}
