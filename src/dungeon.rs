use vstd::prelude::*;
use std::ops::Range;
use bracket_random::prelude::RandomNumberGenerator;
use crate::line::{Point, corridor_cells, straight_run, chebyshev, tunnel_with_corner, lemma_scaled_sign};
use crate::map::{TileMap, floor_spec, wall_spec, floor_tile, index_of};

verus! {

#[verifier::external_type_specification]
#[verifier::external_body]
pub struct ExRandomNumberGenerator(RandomNumberGenerator);

/// Relies on bracket_random's `RandomNumberGenerator::range`: a value drawn
/// from `lo` (included) to `hi` (excluded); an empty range makes it panic.
#[verifier::external_body]
fn roll_range(rng: &mut RandomNumberGenerator, lo: u32, hi: u32) -> (r: u32)
    requires
        lo < hi,
    ensures
        lo <= r < hi,
{
    rng.range(lo, hi)
}

/// An axis-aligned rectangle of the grid, corners included.
#[derive(Clone, Copy, Debug, PartialEq, Eq, Structural)]
pub struct RectangularRoom {
    pub x1: u32,
    pub y1: u32,
    pub x2: u32,
    pub y2: u32,
}

impl RectangularRoom {
    pub fn new(x: u32, y: u32, width: u32, height: u32) -> (r: RectangularRoom)
        requires
            x + width <= u32::MAX,
            y + height <= u32::MAX,
        ensures
            r == (RectangularRoom { x1: x, y1: y, x2: (x + width) as u32, y2: (y + height) as u32 }),
    {
        RectangularRoom { x1: x, y1: y, x2: x + width, y2: y + height }
    }

    pub open spec fn center_spec(&self) -> Point {
        Point { x: ((self.x1 + self.x2) / 2) as i32, y: ((self.y1 + self.y2) / 2) as i32 }
    }

    /// The integer midpoint of each axis.
    pub fn center(&self) -> (r: Point)
        requires
            self.x1 <= i32::MAX,
            self.x2 <= i32::MAX,
            self.y1 <= i32::MAX,
            self.y2 <= i32::MAX,
        ensures
            r == self.center_spec(),
            0 <= r.x,
            0 <= r.y,
    {
        let cx = ((self.x1 as u64 + self.x2 as u64) / 2) as i32;
        let cy = ((self.y1 as u64 + self.y2 as u64) / 2) as i32;
        Point::new(cx, cy)
    }

    /// `(x, y)` lies strictly inside the rectangle, off its boundary.
    pub open spec fn in_inner(&self, x: int, y: int) -> bool {
        self.x1 < x < self.x2 && self.y1 < y < self.y2
    }

    /// The columns and rows of the interior, boundary left out.
    pub fn inner(&self) -> (r: (Range<u32>, Range<u32>))
        requires
            self.x1 < u32::MAX,
            self.y1 < u32::MAX,
        ensures
            r.0.start == self.x1 + 1,
            r.0.end == self.x2,
            r.1.start == self.y1 + 1,
            r.1.end == self.y2,
    {
        ((self.x1 + 1)..self.x2, (self.y1 + 1)..self.y2)
    }

    /// The two rectangles touch or overlap on both axes.
    pub open spec fn intersects_spec(&self, other: RectangularRoom) -> bool {
        self.x1 <= other.x2 && self.x2 >= other.x1 && self.y1 <= other.y2 && self.y2 >= other.y1
    }

    pub fn intersects(&self, other_room: &RectangularRoom) -> (r: bool)
        ensures
            r == self.intersects_spec(*other_room),
    {
        self.x1 <= other_room.x2 && self.x2 >= other_room.x1 && self.y1 <= other_room.y2
            && self.y2 >= other_room.y1
    }

    /// Each side is between the two sizes, and the rectangle lies in a
    /// `w` by `h` grid.
    pub open spec fn fits(&self, w: int, h: int, min: int, max: int) -> bool {
        &&& self.x1 <= self.x2
        &&& self.y1 <= self.y2
        &&& min <= self.x2 - self.x1 <= max
        &&& min <= self.y2 - self.y1 <= max
        &&& self.x2 < w
        &&& self.y2 < h
    }
}

/// `(x, y)` is one of the cells of `p`.
pub open spec fn on_path(p: Seq<(i32, i32)>, x: int, y: int) -> bool {
    exists|k: int| 0 <= k < p.len() && (#[trigger] p[k]).0 == x && p[k].1 == y
}

pub open spec fn in_some_room(rooms: Seq<RectangularRoom>, x: int, y: int) -> bool {
    exists|i: int| 0 <= i < rooms.len() && (#[trigger] rooms[i]).in_inner(x, y)
}

pub open spec fn on_some_corridor(paths: Seq<Seq<(i32, i32)>>, x: int, y: int) -> bool {
    exists|i: int| 0 <= i < paths.len() && on_path(#[trigger] paths[i], x, y)
}

/// Why a dungeon could not be generated.
#[derive(Clone, Copy, Debug, PartialEq, Eq, Structural)]
pub enum DungeonError {
    /// The sizes are out of order, or too large for the grid.
    InvalidParameters,
    /// No room was placed.
    GenerationFailed,
}

/// The parameters that a dungeon can be generated with: sizes in order, every
/// room size fits with a border of one tile, and the grid is addressable.
pub open spec fn params_valid(w: u32, h: u32, min: u32, max: u32) -> bool {
    &&& min <= max
    &&& max < w
    &&& max < h
    &&& w <= i32::MAX
    &&& h <= i32::MAX
    &&& w as int * h as int <= usize::MAX
}

/// A dungeon under construction: the grid, the rooms accepted so far in
/// order, and the corridor carved before each room but the first.
pub struct Layout {
    pub map: TileMap,
    pub room_min_size: u32,
    pub room_max_size: u32,
    pub rooms: Vec<RectangularRoom>,
    pub corridors: Vec<Vec<(i32, i32)>>,
}

impl Layout {
    pub open spec fn paths(&self) -> Seq<Seq<(i32, i32)>> {
        self.corridors@.map_values(|v: Vec<(i32, i32)>| v@)
    }

    /// `(x, y)` lies inside a room or on a corridor.
    pub open spec fn carved(&self, x: int, y: int) -> bool {
        in_some_room(self.rooms@, x, y) || on_some_corridor(self.paths(), x, y)
    }

    /// Corridor `i` joins the centers of rooms `i` and `i + 1`.
    pub open spec fn joins(&self, i: int) -> bool {
        let a = self.rooms@[i].center_spec();
        let b = self.rooms@[i + 1].center_spec();
        self.paths()[i] == corridor_cells(a, b, true) || self.paths()[i] == corridor_cells(
            a,
            b,
            false,
        )
    }

    pub open spec fn wf(&self) -> bool {
        &&& self.map.wf()
        &&& self.map.width <= i32::MAX
        &&& self.map.height <= i32::MAX
        &&& forall|i: int|
            0 <= i < self.rooms@.len() ==> (#[trigger] self.rooms@[i]).fits(
                self.map.width as int,
                self.map.height as int,
                self.room_min_size as int,
                self.room_max_size as int,
            )
        &&& forall|i: int, j: int|
            0 <= i < j < self.rooms@.len() ==> !(#[trigger] self.rooms@[i]).intersects_spec(
                #[trigger] self.rooms@[j],
            )
        &&& if self.rooms@.len() == 0 {
            self.corridors@.len() == 0
        } else {
            self.corridors@.len() + 1 == self.rooms@.len()
        }
        &&& forall|i: int| 0 <= i < self.corridors@.len() ==> #[trigger] self.joins(i)
        &&& forall|x: int, y: int|
            #![trigger self.map.cell(x, y)]
            self.map.in_bounds(x, y) ==> self.map.cell(x, y) == if self.carved(x, y) {
                floor_spec()
            } else {
                wall_spec()
            }
    }
}

/// Sets every interior cell of `room` to floor, leaving the rest of the grid as
/// it was.
fn carve_room(map: &mut TileMap, room: &RectangularRoom)
    requires
        old(map).wf(),
        room.x1 <= room.x2,
        room.y1 <= room.y2,
        room.x2 < old(map).width,
        room.y2 < old(map).height,
    ensures
        final(map).wf(),
        final(map).width == old(map).width,
        final(map).height == old(map).height,
        forall|a: int, b: int|
            #![trigger final(map).cell(a, b)]
            old(map).in_bounds(a, b) ==> final(map).cell(a, b) == if room.in_inner(a, b) {
                floor_spec()
            } else {
                old(map).cell(a, b)
            },
{
    let floor = floor_tile();
    let (xs, ys) = room.inner();
    let mut x: u32 = xs.start;
    while x < xs.end
        invariant
            map.wf(),
            map.width == old(map).width,
            map.height == old(map).height,
            floor == floor_spec(),
            xs.start == room.x1 + 1,
            xs.end == room.x2,
            ys.start == room.y1 + 1,
            ys.end == room.y2,
            room.x1 <= room.x2,
            room.y1 <= room.y2,
            room.x1 < x,
            x <= room.x2 || x == room.x1 + 1,
            room.x2 < map.width,
            room.y2 < map.height,
            forall|a: int, b: int|
                #![trigger map.cell(a, b)]
                old(map).in_bounds(a, b) ==> map.cell(a, b) == if room.x1 < a < x && room.y1 < b
                    < room.y2 {
                    floor_spec()
                } else {
                    old(map).cell(a, b)
                },
        decreases xs.end - x,
    {
        let mut y: u32 = ys.start;
        while y < ys.end
            invariant
                map.wf(),
                map.width == old(map).width,
                map.height == old(map).height,
                floor == floor_spec(),
                ys.start == room.y1 + 1,
                ys.end == room.y2,
                room.x1 < x < room.x2,
                room.x1 <= room.x2,
                room.y1 <= room.y2,
                room.y1 < y,
                y <= room.y2 || y == room.y1 + 1,
                room.x2 < map.width,
                room.y2 < map.height,
                forall|a: int, b: int|
                    #![trigger map.cell(a, b)]
                    old(map).in_bounds(a, b) ==> map.cell(a, b) == if (room.x1 < a < x && room.y1
                        < b < room.y2) || (a == x && room.y1 < b < y) {
                        floor_spec()
                    } else {
                        old(map).cell(a, b)
                    },
            decreases ys.end - y,
        {
            let _ = map.set(x, y, floor);
            y = y + 1;
        }
        x = x + 1;
    }
}

/// Sets every cell of `path` to floor, leaving the rest of the grid as it was.
fn carve_path(map: &mut TileMap, path: &Vec<(i32, i32)>)
    requires
        old(map).wf(),
        forall|k: int|
            0 <= k < path@.len() ==> old(map).in_bounds(
                (#[trigger] path@[k]).0 as int,
                path@[k].1 as int,
            ),
    ensures
        final(map).wf(),
        final(map).width == old(map).width,
        final(map).height == old(map).height,
        forall|a: int, b: int|
            #![trigger final(map).cell(a, b)]
            old(map).in_bounds(a, b) ==> final(map).cell(a, b) == if on_path(path@, a, b) {
                floor_spec()
            } else {
                old(map).cell(a, b)
            },
{
    let floor = floor_tile();
    let mut k: usize = 0;
    while k < path.len()
        invariant
            map.wf(),
            map.width == old(map).width,
            map.height == old(map).height,
            floor == floor_spec(),
            k <= path@.len(),
            forall|j: int|
                0 <= j < path@.len() ==> old(map).in_bounds(
                    (#[trigger] path@[j]).0 as int,
                    path@[j].1 as int,
                ),
            forall|a: int, b: int|
                #![trigger map.cell(a, b)]
                old(map).in_bounds(a, b) ==> map.cell(a, b) == if on_path(path@.take(k as int), a, b) {
                    floor_spec()
                } else {
                    old(map).cell(a, b)
                },
        decreases path@.len() - k,
    {
        let (px, py) = path[k];
        let _ = map.set(px as u32, py as u32, floor);
        proof {
            assert forall|a: int, b: int|
                #![trigger map.cell(a, b)]
                old(map).in_bounds(a, b) implies map.cell(a, b) == if on_path(
                    path@.take(k + 1),
                    a,
                    b,
                ) {
                    floor_spec()
                } else {
                    old(map).cell(a, b)
                } by {
                let t0 = path@.take(k as int);
                let t1 = path@.take(k + 1);
                if on_path(t0, a, b) {
                    let j = choose|j: int| 0 <= j < t0.len() && (#[trigger] t0[j]).0 == a && t0[j].1 == b;
                    assert(t1[j] == t0[j]);
                }
                if a == px && b == py {
                    assert(t1[k as int] == path@[k as int]);
                }
                if on_path(t1, a, b) {
                    let j = choose|j: int| 0 <= j < t1.len() && (#[trigger] t1[j]).0 == a && t1[j].1 == b;
                    if j < k {
                        assert(t0[j] == t1[j]);
                    }
                }
            }
        }
        k = k + 1;
    }
    proof {
        assert(path@.take(path@.len() as int) =~= path@);
    }
}

proof fn lemma_run_in_bounds(x0: i32, y0: i32, x1: i32, y1: i32, w: int, h: int)
    requires
        0 <= x0 < w,
        0 <= x1 < w,
        0 <= y0 < h,
        0 <= y1 < h,
        x0 == x1 || y0 == y1,
    ensures
        forall|k: int|
            0 <= k < straight_run(x0, y0, x1, y1).len() ==> {
                let c = #[trigger] straight_run(x0, y0, x1, y1)[k];
                0 <= c.0 < w && 0 <= c.1 < h
            },
{
    assert forall|k: int| 0 <= k < straight_run(x0, y0, x1, y1).len() implies {
        let c = #[trigger] straight_run(x0, y0, x1, y1)[k];
        0 <= c.0 < w && 0 <= c.1 < h
    } by {
        let dx = x1 - x0;
        let dy = y1 - y0;
        assert(k < chebyshev(x0 as int, y0 as int, x1 as int, y1 as int));
        lemma_scaled_sign(k, dx as int);
        lemma_scaled_sign(k, dy as int);
    }
}

/// Every cell of the corridor between two points of a `w` by `h` grid lies in
/// the grid.
proof fn lemma_corridor_in_bounds(start: Point, end: Point, hf: bool, w: int, h: int)
    requires
        0 <= start.x < w,
        0 <= end.x < w,
        0 <= start.y < h,
        0 <= end.y < h,
    ensures
        forall|k: int|
            0 <= k < corridor_cells(start, end, hf).len() ==> {
                let c = #[trigger] corridor_cells(start, end, hf)[k];
                0 <= c.0 < w && 0 <= c.1 < h
            },
{
    let c = crate::line::corner_of(start, end, hf);
    lemma_run_in_bounds(start.x, start.y, c.x, c.y, w, h);
    lemma_run_in_bounds(c.x, c.y, end.x, end.y, w, h);
    let s1 = straight_run(start.x, start.y, c.x, c.y);
    let s2 = straight_run(c.x, c.y, end.x, end.y);
    assert forall|k: int| 0 <= k < corridor_cells(start, end, hf).len() implies {
        let c = #[trigger] corridor_cells(start, end, hf)[k];
        0 <= c.0 < w && 0 <= c.1 < h
    } by {
        if k < s1.len() {
            assert(corridor_cells(start, end, hf)[k] == s1[k]);
        } else if k < s1.len() + s2.len() {
            assert(corridor_cells(start, end, hf)[k] == s2[k - s1.len()]);
        } else {
            assert(corridor_cells(start, end, hf)[k] == (end.x, end.y));
        }
    }
}

impl Layout {
    /// An empty layout: a grid of walls with no room.
    pub fn new(width: u32, height: u32, room_min_size: u32, room_max_size: u32) -> (r: Layout)
        requires
            width <= i32::MAX,
            height <= i32::MAX,
            width as int * height as int <= usize::MAX,
        ensures
            r.wf(),
            r.map.width == width,
            r.map.height == height,
            r.room_min_size == room_min_size,
            r.room_max_size == room_max_size,
            r.rooms@.len() == 0,
            r.corridors@.len() == 0,
    {
        let map = TileMap::new(width, height);
        let r = Layout {
            map,
            room_min_size,
            room_max_size,
            rooms: Vec::new(),
            corridors: Vec::new(),
        };
        proof {
            assert forall|x: int, y: int|
                #![trigger r.map.cell(x, y)]
                r.map.in_bounds(x, y) implies r.map.cell(x, y) == wall_spec() by {
                crate::map::lemma_index_in_range(width as int, height as int, x, y);
            }
        }
        r
    }

    /// `room` touches or overlaps one of the rooms placed so far.
    pub fn overlaps_any(&self, room: &RectangularRoom) -> (r: bool)
        ensures
            r == exists|i: int| 0 <= i < self.rooms@.len() && room.intersects_spec(#[trigger] self.rooms@[i]),
    {
        let mut i: usize = 0;
        while i < self.rooms.len()
            invariant
                i <= self.rooms@.len(),
                forall|j: int| 0 <= j < i ==> !room.intersects_spec(#[trigger] self.rooms@[j]),
            decreases self.rooms@.len() - i,
        {
            if room.intersects(&self.rooms[i]) {
                return true;
            }
            i = i + 1;
        }
        false
    }

    /// Accepts `room`: carves its interior and, unless it is the first room,
    /// the corridor from the center of the previous room to its own, turning
    /// as `horizontal_first` says.
    pub fn place(&mut self, room: RectangularRoom, horizontal_first: bool)
        requires
            old(self).wf(),
            room.fits(
                old(self).map.width as int,
                old(self).map.height as int,
                old(self).room_min_size as int,
                old(self).room_max_size as int,
            ),
            forall|i: int|
                0 <= i < old(self).rooms@.len() ==> !room.intersects_spec(
                    #[trigger] old(self).rooms@[i],
                ),
        ensures
            final(self).wf(),
            final(self).map.width == old(self).map.width,
            final(self).map.height == old(self).map.height,
            final(self).room_min_size == old(self).room_min_size,
            final(self).room_max_size == old(self).room_max_size,
            final(self).rooms@ == old(self).rooms@.push(room),
            old(self).rooms@.len() == 0 ==> final(self).paths() == old(self).paths(),
            old(self).rooms@.len() > 0 ==> final(self).paths() == old(self).paths().push(
                corridor_cells(old(self).rooms@.last().center_spec(), room.center_spec(), horizontal_first),
            ),
    {
        let ghost pre = *self;
        carve_room(&mut self.map, &room);
        let ghost mid = self.map;
        let ghost mut extra: Seq<(i32, i32)> = Seq::empty();
        let n = self.rooms.len();
        if n > 0 {
            let last = self.rooms[n - 1];
            let a = last.center();
            let b = room.center();
            let path = tunnel_with_corner(a, b, horizontal_first);
            proof {
                lemma_corridor_in_bounds(a, b, horizontal_first, self.map.width as int, self.map.height as int);
            }
            carve_path(&mut self.map, &path);
            proof {
                extra = path@;
            }
            self.corridors.push(path);
            proof {
                assert(self.paths() =~= pre.paths().push(path@));
            }
        } else {
            proof {
                assert(self.paths() =~= pre.paths());
            }
        }
        proof {
            assert forall|x: int, y: int|
                #![trigger self.map.cell(x, y)]
                self.map.in_bounds(x, y) implies self.map.cell(x, y) == if on_path(extra, x, y) {
                    floor_spec()
                } else {
                    mid.cell(x, y)
                } by {
                if n == 0 {
                    assert(!on_path(extra, x, y));
                }
            }
            assert(n > 0 ==> self.paths().last() == extra);
        }
        self.rooms.push(room);
        proof {
            let np = self.paths();
            assert forall|i: int| 0 <= i < self.corridors@.len() implies #[trigger] self.joins(i) by {
                if i < pre.corridors@.len() {
                    assert(pre.joins(i));
                    assert(np[i] == pre.paths()[i]);
                }
            }
            assert forall|x: int, y: int|
                #![trigger self.map.cell(x, y)]
                self.map.in_bounds(x, y) implies self.map.cell(x, y) == if self.carved(x, y) {
                    floor_spec()
                } else {
                    wall_spec()
                } by {
                assert(pre.map.cell(x, y) == if pre.carved(x, y) { floor_spec() } else { wall_spec() });
                assert(mid.cell(x, y) == if room.in_inner(x, y) { floor_spec() } else { pre.map.cell(x, y) });
                if in_some_room(pre.rooms@, x, y) {
                    let i = choose|i: int| 0 <= i < pre.rooms@.len() && (#[trigger] pre.rooms@[i]).in_inner(x, y);
                    assert(self.rooms@[i] == pre.rooms@[i]);
                }
                if room.in_inner(x, y) {
                    assert(self.rooms@[n as int] == room);
                }
                if in_some_room(self.rooms@, x, y) {
                    let i = choose|i: int| 0 <= i < self.rooms@.len() && (#[trigger] self.rooms@[i]).in_inner(x, y);
                    if i < n {
                        assert(pre.rooms@[i] == self.rooms@[i]);
                    }
                }
                if on_some_corridor(pre.paths(), x, y) {
                    let i = choose|i: int| 0 <= i < pre.paths().len() && on_path(#[trigger] pre.paths()[i], x, y);
                    assert(np[i] == pre.paths()[i]);
                }
                if on_some_corridor(np, x, y) {
                    let i = choose|i: int| 0 <= i < np.len() && on_path(#[trigger] np[i], x, y);
                    if i < pre.paths().len() {
                        assert(np[i] == pre.paths()[i]);
                    }
                }
                if on_path(extra, x, y) {
                    assert(n > 0);
                    assert(np[np.len() - 1] == extra);
                }
            }
        }
    }
}

/// The rooms kept from `candidates` tried in order: each one is kept unless it
/// touches or overlaps a room kept before it.
pub open spec fn accepted(candidates: Seq<RectangularRoom>) -> Seq<RectangularRoom>
    decreases candidates.len(),
{
    if candidates.len() == 0 {
        Seq::empty()
    } else {
        let kept = accepted(candidates.drop_last());
        let r = candidates.last();
        if exists|i: int| 0 <= i < kept.len() && r.intersects_spec(#[trigger] kept[i]) {
            kept
        } else {
            kept.push(r)
        }
    }
}

/// Runs `map_max_rooms` placement attempts on a grid of walls. Each attempt
/// draws a width, a height, then the left and top coordinates of a candidate
/// room; a candidate that touches no accepted room is placed, after a coin is
/// flipped for the turn of its corridor when it is not the first.
pub fn generate_layout(
    rng: &mut RandomNumberGenerator,
    map_width: u32,
    map_height: u32,
    map_max_rooms: u32,
    room_max_size: u32,
    room_min_size: u32,
) -> (r: Layout)
    requires
        params_valid(map_width, map_height, room_min_size, room_max_size),
    ensures
        r.wf(),
        r.map.width == map_width,
        r.map.height == map_height,
        r.room_min_size == room_min_size,
        r.room_max_size == room_max_size,
        r.rooms@.len() <= map_max_rooms,
        map_max_rooms > 0 <==> r.rooms@.len() > 0,
        exists|c: Seq<RectangularRoom>|
            {
                &&& c.len() == map_max_rooms
                &&& forall|i: int|
                    0 <= i < c.len() ==> (#[trigger] c[i]).fits(
                        map_width as int,
                        map_height as int,
                        room_min_size as int,
                        room_max_size as int,
                    )
                &&& r.rooms@ == #[trigger] accepted(c)
            },
{
    let mut layout = Layout::new(map_width, map_height, room_min_size, room_max_size);
    let mut n: u32 = 0;
    let ghost mut candidates: Seq<RectangularRoom> = Seq::empty();
    while n < map_max_rooms
        invariant
            params_valid(map_width, map_height, room_min_size, room_max_size),
            candidates.len() == n,
            forall|i: int|
                0 <= i < candidates.len() ==> (#[trigger] candidates[i]).fits(
                    map_width as int,
                    map_height as int,
                    room_min_size as int,
                    room_max_size as int,
                ),
            layout.rooms@ == accepted(candidates),
            layout.wf(),
            layout.map.width == map_width,
            layout.map.height == map_height,
            layout.room_min_size == room_min_size,
            layout.room_max_size == room_max_size,
            n <= map_max_rooms,
            layout.rooms@.len() <= n,
            n > 0 <==> layout.rooms@.len() > 0,
        decreases map_max_rooms - n,
    {
        let room_width = roll_range(rng, room_min_size, room_max_size + 1);
        let room_height = roll_range(rng, room_min_size, room_max_size + 1);
        let x = roll_range(rng, 0, map_width - room_width);
        let y = roll_range(rng, 0, map_height - room_height);
        let new_room = RectangularRoom::new(x, y, room_width, room_height);
        let ghost prev = candidates;
        proof {
            candidates = candidates.push(new_room);
            assert(candidates.drop_last() =~= prev);
        }
        if !layout.overlaps_any(&new_room) {
            let horizontal_first = if layout.rooms.len() > 0 {
                roll_range(rng, 0, 2) == 0
            } else {
                false
            };
            layout.place(new_room, horizontal_first);
        }
        n = n + 1;
    }
    proof {
        assert(layout.rooms@ == accepted(candidates));
    }
    layout
}

/// Generates a dungeon and returns its grid with the starting point, the
/// center of the first room placed.
pub fn generate_dungeon(
    rng: &mut RandomNumberGenerator,
    map_width: u32,
    map_height: u32,
    map_max_rooms: u32,
    room_max_size: u32,
    room_min_size: u32,
) -> (r: Result<(TileMap, Point), DungeonError>)
    ensures
        !params_valid(map_width, map_height, room_min_size, room_max_size) ==> r == Err::<
            (TileMap, Point),
            DungeonError,
        >(DungeonError::InvalidParameters),
        params_valid(map_width, map_height, room_min_size, room_max_size) && map_max_rooms == 0
            ==> r == Err::<(TileMap, Point), DungeonError>(DungeonError::GenerationFailed),
        params_valid(map_width, map_height, room_min_size, room_max_size) && map_max_rooms > 0
            ==> r is Ok && exists|l: Layout|
            {
                &&& l.wf()
                &&& l.map.width == map_width
                &&& l.map.height == map_height
                &&& l.room_min_size == room_min_size
                &&& l.room_max_size == room_max_size
                &&& 0 < l.rooms@.len() <= map_max_rooms
                &&& exists|c: Seq<RectangularRoom>|
                    {
                        &&& c.len() == map_max_rooms
                        &&& forall|i: int|
                            0 <= i < c.len() ==> (#[trigger] c[i]).fits(
                                map_width as int,
                                map_height as int,
                                room_min_size as int,
                                room_max_size as int,
                            )
                        &&& l.rooms@ == #[trigger] accepted(c)
                    }
                &&& #[trigger] l.map == r->Ok_0.0
                &&& r->Ok_0.1 == l.rooms@[0].center_spec()
            },
{
    let area = (map_width as usize).checked_mul(map_height as usize);
    if !(room_min_size <= room_max_size && room_max_size < map_width && room_max_size < map_height
        && map_width <= i32::MAX as u32 && map_height <= i32::MAX as u32 && area.is_some()) {
        return Err(DungeonError::InvalidParameters);
    }
    let layout = generate_layout(
        rng,
        map_width,
        map_height,
        map_max_rooms,
        room_max_size,
        room_min_size,
    );
    if layout.rooms.len() == 0 {
        return Err(DungeonError::GenerationFailed);
    }
    let start = layout.rooms[0].center();
    let ghost l = layout;
    let Layout { map, .. } = layout;
    proof {
        assert(l.map == map);
    }
    Ok((map, start))
}

/// Every accepted room lies inside the grid.
pub proof fn lemma_rooms_within_map(l: Layout)
    requires
        l.wf(),
    ensures
        forall|i: int|
            0 <= i < l.rooms@.len() ==> {
                let r = #[trigger] l.rooms@[i];
                r.x1 <= r.x2 < l.map.width && r.y1 <= r.y2 < l.map.height
            },
{
    assert forall|i: int| 0 <= i < l.rooms@.len() implies {
        let r = #[trigger] l.rooms@[i];
        r.x1 <= r.x2 < l.map.width && r.y1 <= r.y2 < l.map.height
    } by {
        assert(l.rooms@[i].fits(
            l.map.width as int,
            l.map.height as int,
            l.room_min_size as int,
            l.room_max_size as int,
        ));
    }
}

/// No two accepted rooms touch or overlap.
pub proof fn lemma_rooms_apart(l: Layout)
    requires
        l.wf(),
    ensures
        forall|i: int, j: int|
            0 <= i < l.rooms@.len() && 0 <= j < l.rooms@.len() && i != j ==> !(#[trigger] l.rooms@[i]).intersects_spec(
                #[trigger] l.rooms@[j],
            ),
{
    assert forall|i: int, j: int|
        0 <= i < l.rooms@.len() && 0 <= j < l.rooms@.len() && i != j implies !(#[trigger] l.rooms@[i]).intersects_spec(
            #[trigger] l.rooms@[j],
        ) by {
        if i < j {
            assert(!l.rooms@[i].intersects_spec(l.rooms@[j]));
        } else {
            assert(!l.rooms@[j].intersects_spec(l.rooms@[i]));
        }
    }
}

/// On one row or column, a straight run is empty exactly when its ends meet;
/// otherwise it starts at its first end.
proof fn lemma_run_start(x0: i32, y0: i32, x1: i32, y1: i32)
    requires
        x0 == x1 || y0 == y1,
    ensures
        straight_run(x0, y0, x1, y1).len() == 0 <==> (x0 == x1 && y0 == y1),
        straight_run(x0, y0, x1, y1).len() > 0 ==> straight_run(x0, y0, x1, y1)[0] == (x0, y0),
{
    lemma_scaled_sign(0, x1 - x0);
    lemma_scaled_sign(0, y1 - y0);
}

/// Every cell of every corridor is a floor tile of the grid, and corridor `i`
/// runs from the center of room `i` to the center of room `i + 1`.
pub proof fn lemma_corridors_on_floor(l: Layout)
    requires
        l.wf(),
    ensures
        forall|i: int, k: int|
            0 <= i < l.paths().len() && 0 <= k < l.paths()[i].len() ==> {
                let c = #[trigger] l.paths()[i][k];
                l.map.in_bounds(c.0 as int, c.1 as int) && l.map.cell(c.0 as int, c.1 as int)
                    == floor_spec()
            },
        forall|i: int|
            0 <= i < l.paths().len() ==> {
                let a = l.rooms@[i].center_spec();
                let b = l.rooms@[i + 1].center_spec();
                let p = #[trigger] l.paths()[i];
                p.len() > 0 && p[0] == (a.x, a.y) && p.last() == (b.x, b.y)
            },
{
    assert forall|i: int, k: int|
        0 <= i < l.paths().len() && 0 <= k < l.paths()[i].len() implies {
            let c = #[trigger] l.paths()[i][k];
            l.map.in_bounds(c.0 as int, c.1 as int) && l.map.cell(c.0 as int, c.1 as int)
                == floor_spec()
        } by {
        assert(l.joins(i));
        let a = l.rooms@[i].center_spec();
        let b = l.rooms@[i + 1].center_spec();
        assert(l.rooms@[i].fits(l.map.width as int, l.map.height as int, l.room_min_size as int, l.room_max_size as int));
        assert(l.rooms@[i + 1].fits(l.map.width as int, l.map.height as int, l.room_min_size as int, l.room_max_size as int));
        lemma_corridor_in_bounds(a, b, true, l.map.width as int, l.map.height as int);
        lemma_corridor_in_bounds(a, b, false, l.map.width as int, l.map.height as int);
        let c = l.paths()[i][k];
        assert(on_path(l.paths()[i], c.0 as int, c.1 as int));
        assert(l.carved(c.0 as int, c.1 as int));
    }
    assert forall|i: int| 0 <= i < l.paths().len() implies {
        let a = l.rooms@[i].center_spec();
        let b = l.rooms@[i + 1].center_spec();
        let p = #[trigger] l.paths()[i];
        p.len() > 0 && p[0] == (a.x, a.y) && p.last() == (b.x, b.y)
    } by {
        assert(l.joins(i));
        let a = l.rooms@[i].center_spec();
        let b = l.rooms@[i + 1].center_spec();
        let hf = l.paths()[i] == corridor_cells(a, b, true);
        let c = crate::line::corner_of(a, b, hf);
        lemma_run_start(a.x, a.y, c.x, c.y);
        lemma_run_start(c.x, c.y, b.x, b.y);
        let s1 = straight_run(a.x, a.y, c.x, c.y);
        let s2 = straight_run(c.x, c.y, b.x, b.y);
        let p = s1 + s2 + seq![(b.x, b.y)];
        assert(l.paths()[i] == p);
        if s1.len() > 0 {
            assert(p[0] == s1[0]);
        } else if s2.len() > 0 {
            assert(p[0] == s2[0]);
        } else {
            assert(p[0] == (b.x, b.y));
        }
        assert(p.last() == (b.x, b.y));
    }
}

/// The grid of a layout is fixed by its size, its rooms and its corridors:
/// two layouts that agree on those hold the same tiles.
pub proof fn lemma_grid_determined(l1: Layout, l2: Layout)
    requires
        l1.wf(),
        l2.wf(),
        l1.map.width == l2.map.width,
        l1.map.height == l2.map.height,
        l1.rooms@ == l2.rooms@,
        l1.paths() == l2.paths(),
    ensures
        l1.map.tiles@ == l2.map.tiles@,
{
    let w = l1.map.width as int;
    let h = l1.map.height as int;
    assert forall|i: int| 0 <= i < l1.map.tiles@.len() implies l1.map.tiles@[i] == l2.map.tiles@[i] by {
        let x = i % w;
        let y = i / w;
        assert(w > 0) by (nonlinear_arith)
            requires
                0 <= i < w * h,
                0 <= w,
                0 <= h,
        ;
        vstd::arithmetic::div_mod::lemma_fundamental_div_mod(i, w);
        assert(0 <= y < h) by (nonlinear_arith)
            requires
                0 <= i < w * h,
                w > 0,
                y == i / w,
        ;
        vstd::arithmetic::div_mod::lemma_mod_pos_bound(i, w);
        assert(y * w == w * y) by (nonlinear_arith);
        assert(index_of(w, x, y) == i);
        assert(l1.map.in_bounds(x, y));
        assert(l1.carved(x, y) == l2.carved(x, y));
        assert(l1.map.cell(x, y) == l2.map.cell(x, y));
    }
    assert(l1.map.tiles@ =~= l2.map.tiles@);
}

/// With rooms at least two tiles wide and high, the center of every room, where
/// its corridors begin and end, is a floor tile.
pub proof fn lemma_centers_on_floor(l: Layout)
    requires
        l.wf(),
        l.room_min_size >= 2,
    ensures
        forall|i: int|
            0 <= i < l.rooms@.len() ==> {
                let c = (#[trigger] l.rooms@[i]).center_spec();
                l.map.in_bounds(c.x as int, c.y as int) && l.map.cell(c.x as int, c.y as int)
                    == floor_spec()
            },
{
    assert forall|i: int| 0 <= i < l.rooms@.len() implies {
        let c = (#[trigger] l.rooms@[i]).center_spec();
        l.map.in_bounds(c.x as int, c.y as int) && l.map.cell(c.x as int, c.y as int)
            == floor_spec()
    } by {
        let r = l.rooms@[i];
        assert(r.fits(
            l.map.width as int,
            l.map.height as int,
            l.room_min_size as int,
            l.room_max_size as int,
        ));
        let c = r.center_spec();
        assert(r.in_inner(c.x as int, c.y as int));
        assert(in_some_room(l.rooms@, c.x as int, c.y as int));
        assert(l.carved(c.x as int, c.y as int));
    }
}

} // verus!
