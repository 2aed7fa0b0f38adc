use vstd::prelude::*;

verus! {

/// How a tile is drawn: a glyph with a foreground and a background colour.
#[derive(Clone, Copy, Debug, PartialEq, Eq)]
pub struct Graphic {
    pub ch: char,
    pub fg: (u8, u8, u8),
    pub bg: (u8, u8, u8),
}

impl Graphic {
    pub fn new(ch: char, fg: (u8, u8, u8), bg: (u8, u8, u8)) -> (r: Graphic)
        ensures
            r.ch == ch,
            r.fg == fg,
            r.bg == bg,
    {
        Graphic { ch, fg, bg }
    }
}

/// One cell of the grid: whether it can be walked on, and how it looks.
#[derive(Clone, Copy, Debug, PartialEq, Eq)]
pub struct Tile {
    pub walkable: bool,
    pub graphic: Graphic,
}

impl Tile {
    pub fn new(walkable: bool, graphic: Graphic) -> (r: Tile)
        ensures
            r.walkable == walkable,
            r.graphic == graphic,
    {
        Tile { walkable, graphic }
    }
}

pub open spec fn floor_spec() -> Tile {
    Tile { walkable: true, graphic: Graphic { ch: ' ', fg: (255, 255, 255), bg: (50, 50, 150) } }
}

pub open spec fn wall_spec() -> Tile {
    Tile { walkable: false, graphic: Graphic { ch: '#', fg: (255, 255, 255), bg: (0, 0, 100) } }
}

/// The walkable tile that rooms and corridors are carved with.
pub fn floor_tile() -> (r: Tile)
    ensures
        r == floor_spec(),
{
    Tile::new(true, Graphic::new(' ', (255, 255, 255), (50, 50, 150)))
}

/// The tile that fills the grid before anything is carved.
pub fn wall_tile() -> (r: Tile)
    ensures
        r == wall_spec(),
{
    Tile::new(false, Graphic::new('#', (255, 255, 255), (0, 0, 100)))
}

/// Row-major position of `(x, y)` in a grid `w` cells wide.
pub open spec fn index_of(w: int, x: int, y: int) -> int {
    y * w + x
}

pub proof fn lemma_index_in_range(w: int, h: int, x: int, y: int)
    requires
        0 <= x < w,
        0 <= y < h,
    ensures
        0 <= index_of(w, x, y) < w * h,
{
    assert(0 <= y * w + x < w * h) by (nonlinear_arith)
        requires
            0 <= x < w,
            0 <= y < h,
    ;
}

pub proof fn lemma_index_injective(w: int, x1: int, y1: int, x2: int, y2: int)
    requires
        0 <= x1 < w,
        0 <= x2 < w,
        0 <= y1,
        0 <= y2,
        index_of(w, x1, y1) == index_of(w, x2, y2),
    ensures
        x1 == x2,
        y1 == y2,
{
    assert(y1 == y2) by (nonlinear_arith)
        requires
            0 <= x1 < w,
            0 <= x2 < w,
            0 <= y1,
            0 <= y2,
            y1 * w + x1 == y2 * w + x2,
    ;
}

/// Why an access to the grid was refused.
#[derive(Clone, Copy, Debug, PartialEq, Eq, Structural)]
pub enum MapError {
    OutOfBounds,
}

/// A fixed-size grid of tiles, stored row by row.
pub struct TileMap {
    pub width: u32,
    pub height: u32,
    pub tiles: Vec<Tile>,
}

impl TileMap {
    /// Every coordinate in bounds has exactly one slot.
    pub open spec fn wf(&self) -> bool {
        self.tiles@.len() == self.width as int * self.height as int
    }

    pub open spec fn in_bounds(&self, x: int, y: int) -> bool {
        0 <= x < self.width && 0 <= y < self.height
    }

    /// The tile at `(x, y)`.
    pub open spec fn cell(&self, x: int, y: int) -> Tile {
        self.tiles@[index_of(self.width as int, x, y)]
    }

    /// A grid of the given size filled with walls.
    pub fn new(width: u32, height: u32) -> (r: TileMap)
        requires
            width as int * height as int <= usize::MAX,
        ensures
            r.wf(),
            r.width == width,
            r.height == height,
            forall|i: int| 0 <= i < r.tiles@.len() ==> r.tiles@[i] == wall_spec(),
    {
        let size: usize = (width as usize) * (height as usize);
        let wall = wall_tile();
        let mut tiles: Vec<Tile> = Vec::with_capacity(size);
        let mut i: usize = 0;
        while i < size
            invariant
                i <= size,
                tiles@.len() == i,
                wall == wall_spec(),
                forall|k: int| 0 <= k < tiles@.len() ==> tiles@[k] == wall_spec(),
            decreases size - i,
        {
            tiles.push(wall);
            i = i + 1;
        }
        TileMap { width, height, tiles }
    }

    /// Position of `(x, y)` in `tiles`, or `OutOfBounds` when the point lies
    /// outside the grid.
    pub fn map_idx(&self, x: u32, y: u32) -> (r: Result<usize, MapError>)
        requires
            self.wf(),
        ensures
            self.in_bounds(x as int, y as int) ==> r is Ok && r->Ok_0 as int == index_of(
                self.width as int,
                x as int,
                y as int,
            ) && r->Ok_0 < self.tiles@.len(),
            !self.in_bounds(x as int, y as int) ==> r == Err::<usize, MapError>(
                MapError::OutOfBounds,
            ),
    {
        if x >= self.width || y >= self.height {
            return Err(MapError::OutOfBounds);
        }
        let n = self.tiles.len();
        proof {
            lemma_index_in_range(self.width as int, self.height as int, x as int, y as int);
            assert(0 <= y as int * self.width as int) by (nonlinear_arith);
        }
        Ok((y as usize) * (self.width as usize) + (x as usize))
    }

    /// The tile at `(x, y)`, or `OutOfBounds` when the point lies outside the grid.
    pub fn get(&self, x: u32, y: u32) -> (r: Result<Tile, MapError>)
        requires
            self.wf(),
        ensures
            self.in_bounds(x as int, y as int) ==> r == Ok::<Tile, MapError>(
                self.cell(x as int, y as int),
            ),
            !self.in_bounds(x as int, y as int) ==> r == Err::<Tile, MapError>(
                MapError::OutOfBounds,
            ),
    {
        match self.map_idx(x, y) {
            Ok(i) => Ok(self.tiles[i]),
            Err(e) => Err(e),
        }
    }

    /// Replaces the tile at `(x, y)`; a point outside the grid is refused with
    /// `OutOfBounds` and changes nothing.
    pub fn set(&mut self, x: u32, y: u32, tile: Tile) -> (r: Result<(), MapError>)
        requires
            old(self).wf(),
        ensures
            final(self).wf(),
            final(self).width == old(self).width,
            final(self).height == old(self).height,
            old(self).in_bounds(x as int, y as int) ==> r == Ok::<(), MapError>(()),
            !old(self).in_bounds(x as int, y as int) ==> r == Err::<(), MapError>(
                MapError::OutOfBounds,
            ) && *final(self) == *old(self),
            forall|a: int, b: int|
                #![trigger final(self).cell(a, b)]
                old(self).in_bounds(a, b) ==> final(self).cell(a, b) == if a == x && b == y {
                    tile
                } else {
                    old(self).cell(a, b)
                },
            old(self).in_bounds(x as int, y as int) && old(self).cell(x as int, y as int) == tile
                ==> final(self).tiles@ == old(self).tiles@,
    {
        let found = self.map_idx(x, y);
        if let Ok(i) = found {
            self.tiles.set(i, tile);
            proof {
                let w = self.width as int;
                assert forall|a: int, b: int|
                    #![trigger self.cell(a, b)]
                    old(self).in_bounds(a, b) implies self.cell(a, b) == if a == x && b == y {
                        tile
                    } else {
                        old(self).cell(a, b)
                    } by {
                    lemma_index_in_range(w, self.height as int, a, b);
                    if index_of(w, a, b) == i as int {
                        lemma_index_injective(w, a, b, x as int, y as int);
                    }
                }
                if old(self).cell(x as int, y as int) == tile {
                    assert(self.tiles@ =~= old(self).tiles@);
                }
            }
            Ok(())
        } else {
            Err(MapError::OutOfBounds)
        }
    }
}

/// Carving a floor tile into a cell that already holds one leaves the grid
/// exactly as it was.
pub proof fn lemma_carve_idempotent(m: TileMap, x: int, y: int)
    requires
        m.wf(),
        m.in_bounds(x, y),
        m.cell(x, y) == floor_spec(),
    ensures
        m.tiles@.update(index_of(m.width as int, x, y), floor_spec()) == m.tiles@,
{
    lemma_index_in_range(m.width as int, m.height as int, x, y);
    assert(m.tiles@.update(index_of(m.width as int, x, y), floor_spec()) =~= m.tiles@);
}

} // verus!
