use termcraft::block::Block;
use termcraft::world::{World, SEA_LEVEL, WORLD_H, WORLD_W};

fn empty_world() -> World {
    World::from_bytes(&vec![0u8; (WORLD_W * WORLD_H) as usize], (3, 4)).unwrap()
}

#[test]
fn outside_the_grid() {
    let w = empty_world();
    assert_eq!(w.get(-1, 10), Block::Bedrock);
    assert_eq!(w.get(WORLD_W, 10), Block::Bedrock);
    assert_eq!(w.get(10, WORLD_H), Block::Bedrock);
    assert_eq!(w.get(10, -1), Block::Air);
    assert_eq!(w.get(-1, -1), Block::Bedrock);
}

#[test]
fn set_then_get() {
    let mut w = empty_world();
    w.set(5, 7, Block::Stone);
    assert_eq!(w.get(5, 7), Block::Stone);
    assert_eq!(w.get(6, 7), Block::Air);
    assert_eq!(w.get(5, 8), Block::Air);
    w.set(-1, 7, Block::Stone);
    w.set(5, WORLD_H, Block::Stone);
    assert_eq!(w.to_bytes().iter().filter(|&&v| v != 0).count(), 1);
    assert_eq!(w.spawn(), (3, 4));
}

#[test]
fn surface_is_first_solid_row() {
    let mut w = empty_world();
    assert_eq!(w.surface_at(10), WORLD_H);
    w.set(10, 50, Block::Water);
    w.set(10, 60, Block::Torch);
    w.set(10, 70, Block::Dirt);
    w.set(10, 90, Block::Stone);
    assert_eq!(w.surface_at(10), 70);
    assert_eq!(w.surface_at(-5), 0);
}

#[test]
fn bytes_length_is_checked() {
    assert!(World::from_bytes(&[0u8; 10], (0, 0)).is_none());
    assert!(World::from_bytes(&vec![0u8; (WORLD_W * WORLD_H) as usize + 1], (0, 0)).is_none());
}

#[test]
fn bytes_roundtrip_keeps_every_tile() {
    let mut w = empty_world();
    w.set(0, 0, Block::Grass);
    w.set(599, 159, Block::Bedrock);
    w.set(300, 80, Block::StoneBrick);
    let bytes = w.to_bytes();
    assert_eq!(bytes.len(), (WORLD_W * WORLD_H) as usize);
    assert_eq!(bytes[0], 1);
    assert_eq!(bytes[80 * 600 + 300], 14);
    let w2 = World::from_bytes(&bytes, w.spawn()).unwrap();
    for y in 0..WORLD_H {
        for x in 0..WORLD_W {
            assert_eq!(w.get(x, y), w2.get(x, y));
        }
    }
    assert_eq!(w2.spawn(), w.spawn());
}

#[test]
fn unknown_bytes_load_as_air() {
    let mut bytes = vec![3u8; (WORLD_W * WORLD_H) as usize];
    bytes[5] = 99;
    let w = World::from_bytes(&bytes, (0, 0)).unwrap();
    assert_eq!(w.get(5, 0), Block::Air);
    assert_eq!(w.get(4, 0), Block::Stone);
}

#[test]
fn water_falls_one_tile() {
    let mut w = empty_world();
    w.set(10, 20, Block::Water);
    w.flow_water();
    assert_eq!(w.get(10, 21), Block::Water);
    assert_eq!(w.get(10, 22), Block::Air);
    assert_eq!(w.get(9, 20), Block::Air);
    assert_eq!(w.get(11, 20), Block::Air);
    w.flow_water();
    assert_eq!(w.get(10, 22), Block::Water);
}

#[test]
fn water_spreads_on_solid_ground() {
    let mut w = empty_world();
    w.set(10, 21, Block::Stone);
    w.set(10, 20, Block::Water);
    w.flow_water();
    assert_eq!(w.get(9, 20), Block::Water);
    assert_eq!(w.get(11, 20), Block::Water);
    assert_eq!(w.get(10, 21), Block::Stone);
    assert_eq!(w.get(8, 20), Block::Air);
}

#[test]
fn water_spreads_on_water_but_not_on_torches() {
    let mut w = empty_world();
    w.set(10, 21, Block::Water);
    w.set(10, 20, Block::Water);
    w.set(30, 21, Block::Torch);
    w.set(30, 20, Block::Water);
    w.flow_water();
    assert_eq!(w.get(9, 20), Block::Water);
    assert_eq!(w.get(11, 20), Block::Water);
    assert_eq!(w.get(29, 20), Block::Air);
    assert_eq!(w.get(31, 20), Block::Air);
    assert_eq!(w.get(30, 21), Block::Torch);
}

#[test]
fn water_on_the_last_row_stays_put() {
    let mut w = empty_world();
    w.set(10, WORLD_H - 1, Block::Water);
    w.flow_water();
    assert_eq!(w.get(9, WORLD_H - 1), Block::Air);
    assert_eq!(w.get(11, WORLD_H - 1), Block::Air);
}

#[test]
fn water_does_not_leave_the_grid() {
    let mut w = empty_world();
    w.set(0, 20, Block::Water);
    w.set(0, 21, Block::Stone);
    w.flow_water();
    assert_eq!(w.get(1, 20), Block::Water);
    assert_eq!(w.get(-1, 20), Block::Bedrock);
}

#[test]
fn solid_region_queries() {
    let mut w = empty_world();
    assert!(!w.any_solid_in(10, 12, 10, 12));
    w.set(12, 12, Block::Leaves);
    assert!(w.any_solid_in(10, 12, 10, 12));
    assert!(!w.any_solid_in(10, 11, 10, 12));
    w.set(11, 11, Block::Water);
    assert!(!w.any_solid_in(10, 11, 10, 11));
    assert!(w.any_solid_in(-1, 0, 5, 5));
    assert!(!w.any_solid_in(0, 0, -5, -1));
    assert!(!w.any_solid_in(5, 4, 0, 10));
    assert_eq!(SEA_LEVEL, 72);
}
