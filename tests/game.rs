use bracket_random::prelude::RandomNumberGenerator;
use rustlike::game::{Player, State};
use rustlike::map::{floor_tile, TileMap};

fn small_state() -> State {
    let mut map = TileMap::new(4, 3);
    map.set(1, 1, floor_tile()).unwrap();
    map.set(2, 1, floor_tile()).unwrap();
    map.set(0, 0, floor_tile()).unwrap();
    State { player: Player { x: 1, y: 1 }, map }
}

#[test]
fn move_onto_floor() {
    let mut s = small_state();
    s.move_player(1, 0);
    assert_eq!(s.player, Player { x: 2, y: 1 });
}

#[test]
fn move_into_wall_is_dropped() {
    let mut s = small_state();
    s.move_player(0, 1);
    assert_eq!(s.player, Player { x: 1, y: 1 });
}

#[test]
fn move_off_grid_is_dropped() {
    let mut s = small_state();
    s.player = Player { x: 0, y: 0 };
    s.move_player(-1, 0);
    assert_eq!(s.player, Player { x: 0, y: 0 });
    s.move_player(0, -1);
    assert_eq!(s.player, Player { x: 0, y: 0 });
}

#[test]
fn new_state_starts_on_floor() {
    let mut rng = RandomNumberGenerator::seeded(5);
    let s = State::new(&mut rng).unwrap();
    assert_eq!(s.map.get(s.player.x, s.player.y), Ok(floor_tile()));
}
