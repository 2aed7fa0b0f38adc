use rustlike::map::{floor_tile, wall_tile, Graphic, MapError, Tile, TileMap};

#[test]
fn new_map_is_all_wall() {
    let m = TileMap::new(7, 5);
    assert_eq!(m.tiles.len(), 35);
    assert!(m.tiles.iter().all(|t| *t == wall_tile()));
    assert!(!wall_tile().walkable);
    assert!(floor_tile().walkable);
}

#[test]
fn tile_constants_look() {
    assert_eq!(floor_tile().graphic.ch, ' ');
    assert_eq!(floor_tile().graphic.bg, (50, 50, 150));
    assert_eq!(wall_tile().graphic.ch, '#');
    assert_eq!(wall_tile().graphic.bg, (0, 0, 100));
    let t = Tile::new(true, Graphic::new('x', (1, 2, 3), (4, 5, 6)));
    assert_eq!(t.graphic.fg, (1, 2, 3));
}

#[test]
fn index_is_row_major() {
    let m = TileMap::new(10, 4);
    assert_eq!(m.map_idx(0, 0), Ok(0));
    assert_eq!(m.map_idx(3, 0), Ok(3));
    assert_eq!(m.map_idx(3, 2), Ok(23));
    assert_eq!(m.map_idx(9, 3), Ok(39));
}

#[test]
fn index_out_of_bounds_is_refused() {
    let m = TileMap::new(10, 4);
    assert_eq!(m.map_idx(10, 0), Err(MapError::OutOfBounds));
    assert_eq!(m.map_idx(0, 4), Err(MapError::OutOfBounds));
    assert_eq!(m.map_idx(u32::MAX, u32::MAX), Err(MapError::OutOfBounds));
}

#[test]
fn get_and_set_in_bounds() {
    let mut m = TileMap::new(6, 3);
    assert_eq!(m.set(4, 2, floor_tile()), Ok(()));
    assert_eq!(m.get(4, 2), Ok(floor_tile()));
    assert_eq!(m.get(2, 4 - 2), Ok(wall_tile()));
    assert_eq!(m.tiles[16], floor_tile());
}

#[test]
fn out_of_bounds_is_refused() {
    let mut m = TileMap::new(6, 3);
    assert_eq!(m.get(6, 0), Err(MapError::OutOfBounds));
    assert_eq!(m.get(0, 3), Err(MapError::OutOfBounds));
    assert_eq!(m.set(6, 0, floor_tile()), Err(MapError::OutOfBounds));
    assert!(m.tiles.iter().all(|t| *t == wall_tile()));
}

#[test]
fn carving_floor_twice_changes_nothing() {
    let mut m = TileMap::new(5, 5);
    m.set(2, 3, floor_tile()).unwrap();
    let before = m.tiles.clone();
    m.set(2, 3, floor_tile()).unwrap();
    assert_eq!(m.tiles, before);
}
