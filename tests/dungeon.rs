use bracket_random::prelude::RandomNumberGenerator;
use rustlike::dungeon::{generate_dungeon, generate_layout, DungeonError, Layout, RectangularRoom};
use rustlike::line::Point;
use rustlike::map::{floor_tile, wall_tile, TileMap};

fn tile_at(m: &TileMap, x: i32, y: i32) -> rustlike::map::Tile {
    m.get(x as u32, y as u32).unwrap()
}

#[test]
fn room_geometry() {
    let r = RectangularRoom::new(3, 4, 6, 8);
    assert_eq!((r.x1, r.y1, r.x2, r.y2), (3, 4, 9, 12));
    assert_eq!(r.center(), Point::new(6, 8));
    let (xs, ys) = r.inner();
    assert_eq!(xs, 4..9);
    assert_eq!(ys, 5..12);
}

#[test]
fn touching_rooms_intersect() {
    let a = RectangularRoom::new(0, 0, 5, 5);
    let touching = RectangularRoom::new(5, 2, 3, 3);
    let apart = RectangularRoom::new(6, 0, 3, 3);
    let below = RectangularRoom::new(0, 6, 3, 3);
    assert!(a.intersects(&touching));
    assert!(touching.intersects(&a));
    assert!(!a.intersects(&apart));
    assert!(!a.intersects(&below));
}

#[test]
fn placing_rooms_carves_interiors_and_corridor() {
    let mut l = Layout::new(30, 20, 4, 8);
    let a = RectangularRoom::new(1, 1, 6, 6);
    let b = RectangularRoom::new(15, 10, 6, 6);
    assert!(!l.overlaps_any(&a));
    l.place(a, true);
    assert_eq!(l.corridors.len(), 0);
    assert_eq!(tile_at(&l.map, 1, 1), wall_tile());
    assert_eq!(tile_at(&l.map, 2, 2), floor_tile());
    assert_eq!(tile_at(&l.map, 6, 6), floor_tile());
    assert_eq!(tile_at(&l.map, 7, 6), wall_tile());
    assert!(!l.overlaps_any(&b));
    assert!(l.overlaps_any(&RectangularRoom::new(7, 7, 4, 4)));
    l.place(b, true);
    assert_eq!(l.rooms.len(), 2);
    assert_eq!(l.corridors.len(), 1);
    let path = &l.corridors[0];
    assert_eq!(path[0], (4, 4));
    assert_eq!(path[path.len() - 1], (18, 13));
    assert_eq!(path.len(), 24);
    assert!(path.contains(&(18, 4)));
    for &(x, y) in path {
        assert_eq!(tile_at(&l.map, x, y), floor_tile());
    }
    assert_eq!(tile_at(&l.map, 18, 3), wall_tile());
}

#[test]
fn invalid_parameters_are_refused() {
    let mut rng = RandomNumberGenerator::seeded(1);
    assert_eq!(generate_dungeon(&mut rng, 80, 45, 30, 6, 10).err(), Some(DungeonError::InvalidParameters));
    assert_eq!(generate_dungeon(&mut rng, 10, 45, 30, 10, 6).err(), Some(DungeonError::InvalidParameters));
    assert_eq!(generate_dungeon(&mut rng, 80, 10, 30, 10, 6).err(), Some(DungeonError::InvalidParameters));
    assert!(generate_dungeon(&mut rng, 11, 11, 3, 10, 6).is_ok());
}

#[test]
fn zero_rooms_gives_all_wall_and_failure() {
    let mut rng = RandomNumberGenerator::seeded(7);
    let l = generate_layout(&mut rng, 80, 45, 0, 10, 6);
    assert!(l.rooms.is_empty());
    assert!(l.map.tiles.iter().all(|t| *t == wall_tile()));
    assert_eq!(generate_dungeon(&mut rng, 80, 45, 0, 10, 6).err(), Some(DungeonError::GenerationFailed));
}

#[test]
fn generated_layouts_keep_their_rules() {
    for seed in 0..40u64 {
        let mut rng = RandomNumberGenerator::seeded(seed);
        let l = generate_layout(&mut rng, 80, 45, 30, 10, 6);
        assert!(!l.rooms.is_empty());
        for (i, r) in l.rooms.iter().enumerate() {
            assert!(r.x2 < 80 && r.y2 < 45);
            assert!((6..=10).contains(&(r.x2 - r.x1)) && (6..=10).contains(&(r.y2 - r.y1)));
            for (j, o) in l.rooms.iter().enumerate() {
                if i != j {
                    assert!(!r.intersects(o));
                }
            }
        }
        let c = l.rooms[0].center();
        assert_eq!(tile_at(&l.map, c.x, c.y), floor_tile());
        for (i, path) in l.corridors.iter().enumerate() {
            let a = l.rooms[i].center();
            let b = l.rooms[i + 1].center();
            assert_eq!(path[0], (a.x, a.y));
            assert_eq!(path[path.len() - 1], (b.x, b.y));
            let turns = path.windows(2).all(|w| (w[1].0 - w[0].0).abs() + (w[1].1 - w[0].1).abs() == 1);
            assert!(turns);
            for &(x, y) in path {
                assert_eq!(tile_at(&l.map, x, y), floor_tile());
            }
        }
    }
}

#[test]
fn same_seed_gives_same_dungeon() {
    let mut r1 = RandomNumberGenerator::seeded(2024);
    let mut r2 = RandomNumberGenerator::seeded(2024);
    let (m1, s1) = generate_dungeon(&mut r1, 80, 45, 30, 10, 6).unwrap();
    let (m2, s2) = generate_dungeon(&mut r2, 80, 45, 30, 10, 6).unwrap();
    assert_eq!(m1.tiles, m2.tiles);
    assert_eq!((m1.width, m1.height), (m2.width, m2.height));
    assert_eq!(s1, s2);
}

#[test]
fn standard_sizes_with_fixed_seed() {
    let mut rng = RandomNumberGenerator::seeded(42);
    let l = generate_layout(&mut rng, 80, 45, 30, 10, 6);
    assert!(!l.rooms.is_empty());
    assert_eq!(l.corridors.len(), l.rooms.len() - 1);
    let mut rng = RandomNumberGenerator::seeded(42);
    let (m, start) = generate_dungeon(&mut rng, 80, 45, 30, 10, 6).unwrap();
    assert_eq!(start, l.rooms[0].center());
    assert_eq!(m.tiles, l.map.tiles);
    assert_eq!(tile_at(&m, start.x, start.y), floor_tile());
    assert_eq!(tile_at(&m, 0, 0), wall_tile());
    assert_eq!(tile_at(&m, 79, 44), wall_tile());
    assert_eq!(tile_at(&m, 0, 44), wall_tile());
    assert_eq!(l.rooms.len(), 13);
    assert_eq!(start, Point::new(9, 26));
    assert_eq!((l.rooms[1].x1, l.rooms[1].y1, l.rooms[1].x2, l.rooms[1].y2), (48, 36, 54, 44));
    assert_eq!(tile_at(&m, 5, 23), floor_tile());
    assert_eq!(tile_at(&m, 49, 37), floor_tile());
    assert_eq!(tile_at(&m, 51, 39), floor_tile());
    assert_eq!(tile_at(&m, 4, 22), wall_tile());
    assert_eq!(tile_at(&m, 48, 44), wall_tile());
}

