use vstd::prelude::*;
use bracket_random::prelude::RandomNumberGenerator;
use crate::dungeon::{DungeonError, Layout, generate_dungeon, params_valid};
use crate::map::{MapError, TileMap};

verus! {

pub const MAP_WIDTH: u32 = 80;
pub const MAP_HEIGHT: u32 = 45;
pub const MAP_MAX_ROOMS: u32 = 30;
pub const ROOM_MAX_SIZE: u32 = 10;
pub const ROOM_MIN_SIZE: u32 = 6;

/// Where the player stands on the grid.
#[derive(Clone, Copy, Debug, PartialEq, Eq, Structural)]
pub struct Player {
    pub x: u32,
    pub y: u32,
}

/// A level being played: its grid and the player on it.
pub struct State {
    pub player: Player,
    pub map: TileMap,
}

impl State {
    /// Generates a level with the game's sizes and puts the player at its
    /// starting point.
    pub fn new(rng: &mut RandomNumberGenerator) -> (r: Result<State, DungeonError>)
        ensures
            r is Ok,
            exists|l: Layout|
                {
                    &&& l.wf()
                    &&& l.map.width == MAP_WIDTH
                    &&& l.map.height == MAP_HEIGHT
                    &&& l.room_min_size == ROOM_MIN_SIZE
                    &&& l.room_max_size == ROOM_MAX_SIZE
                    &&& 0 < l.rooms@.len() <= MAP_MAX_ROOMS
                    &&& #[trigger] l.map == r->Ok_0.map
                    &&& r->Ok_0.player.x == l.rooms@[0].center_spec().x
                    &&& r->Ok_0.player.y == l.rooms@[0].center_spec().y
                },
    {
        assert(params_valid(MAP_WIDTH, MAP_HEIGHT, ROOM_MIN_SIZE, ROOM_MAX_SIZE));
        match generate_dungeon(rng, MAP_WIDTH, MAP_HEIGHT, MAP_MAX_ROOMS, ROOM_MAX_SIZE, ROOM_MIN_SIZE) {
            Ok((map, start)) => {
                let player = Player { x: start.x as u32, y: start.y as u32 };
                Ok(State { player, map })
            },
            Err(e) => Err(e),
        }
    }

    /// Moves the player by `(dx, dy)` when the destination lies on the grid
    /// and is walkable; otherwise the player stays where it is.
    pub fn move_player(&mut self, dx: i8, dy: i8)
        requires
            old(self).map.wf(),
        ensures
            final(self).map == old(self).map,
            ({
                let nx = old(self).player.x + dx;
                let ny = old(self).player.y + dy;
                if old(self).map.in_bounds(nx, ny) && old(self).map.cell(nx, ny).walkable {
                    final(self).player.x == nx && final(self).player.y == ny
                } else {
                    final(self).player == old(self).player
                }
            }),
    {
        let nx: i64 = self.player.x as i64 + dx as i64;
        let ny: i64 = self.player.y as i64 + dy as i64;
        if nx < 0 || ny < 0 || nx >= self.map.width as i64 || ny >= self.map.height as i64 {
            return;
        }
        let target: Result<crate::map::Tile, MapError> = self.map.get(nx as u32, ny as u32);
        if let Ok(tile) = target {
            if tile.walkable {
                self.player = Player { x: nx as u32, y: ny as u32 };
            }
        }
    }
}

} // verus!
