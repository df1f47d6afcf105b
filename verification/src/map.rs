use vstd::prelude::*;

use crate::config::{MAP_HEIGHT, MAP_WIDTH, MAX_ROOMS, ROOM_MAX_SIZE, ROOM_MIN_SIZE};
use crate::rect::Rect;
use crate::rng::{lemma_pcg_range_bounds, pcg_bool, pcg_range, pcg_step, Pcg32};

verus! {

/// One grid cell's static map state.  `blocked` stops movement,
/// `block_sight` stops light, `explored` records that some tick has revealed
/// the cell to the player.
#[derive(Clone, Copy, Debug, PartialEq, Eq, Structural)]
pub struct Tile {
    pub blocked: bool,
    pub explored: bool,
    pub block_sight: bool,
}

/// The open, walkable, see-through tile produced by carving.
pub open spec fn tile_empty() -> Tile {
    Tile { blocked: false, explored: false, block_sight: false }
}

/// The solid tile every cell starts as.
pub open spec fn tile_wall() -> Tile {
    Tile { blocked: true, explored: false, block_sight: true }
}

impl Tile {
    pub fn empty() -> (t: Tile)
        ensures
            t == tile_empty(),
    {
        Tile { blocked: false, explored: false, block_sight: false }
    }

    pub fn wall() -> (t: Tile)
        ensures
            t == tile_wall(),
    {
        Tile { blocked: true, explored: false, block_sight: true }
    }
}

/// The dungeon grid plus the list of accepted rooms, kept for spawning.
pub struct GameMap {
    pub tiles: Vec<Vec<Tile>>,
    pub rooms: Vec<Rect>,
}

/// A carve covers the inclusive cell range `[x1, x2] x [y1, y2]` of the
/// rectangle; carved cells are open, all others stay walls.
pub open spec fn carve_contains(c: Rect, x: int, y: int) -> bool {
    c.x1 <= x <= c.x2 && c.y1 <= y <= c.y2
}

/// The inclusive cell range opened when a room is carved: its strict
/// interior.
pub open spec fn room_interior(room: Rect) -> Rect {
    Rect { x1: (room.x1 + 1) as i32, y1: (room.y1 + 1) as i32, x2: (room.x2 - 1) as i32, y2: (room.y2 - 1) as i32 }
}

/// The inclusive cell range opened by a horizontal tunnel between columns
/// `x1` and `x2` at row `y`.
pub open spec fn h_tunnel(x1: int, x2: int, y: int) -> Rect {
    if x1 <= x2 {
        Rect { x1: x1 as i32, y1: y as i32, x2: x2 as i32, y2: y as i32 }
    } else {
        Rect { x1: x2 as i32, y1: y as i32, x2: x1 as i32, y2: y as i32 }
    }
}

/// The inclusive cell range opened by a vertical tunnel between rows `y1`
/// and `y2` at column `x`.
pub open spec fn v_tunnel(y1: int, y2: int, x: int) -> Rect {
    if y1 <= y2 {
        Rect { x1: x as i32, y1: y1 as i32, x2: x as i32, y2: y2 as i32 }
    } else {
        Rect { x1: x as i32, y1: y2 as i32, x2: x as i32, y2: y1 as i32 }
    }
}

/// Whether some carve of the list covers the cell.
pub open spec fn covered(carves: Seq<Rect>, x: int, y: int) -> bool {
    exists|i: int| 0 <= i < carves.len() && carve_contains(#[trigger] carves[i], x, y)
}

/// The tile a cell holds once a list of carves has been painted over an
/// all-walls grid.
pub open spec fn tile_of(carves: Seq<Rect>, x: int, y: int) -> Tile {
    if covered(carves, x, y) {
        tile_empty()
    } else {
        tile_wall()
    }
}

pub broadcast proof fn lemma_covered_push(carves: Seq<Rect>, c: Rect, x: int, y: int)
    ensures
        #[trigger] covered(carves.push(c), x, y) <==> covered(carves, x, y) || carve_contains(c, x, y),
{
    if covered(carves, x, y) {
        let i = choose|i: int| 0 <= i < carves.len() && carve_contains(carves[i], x, y);
        assert(carves.push(c)[i] == carves[i]);
        assert(covered(carves.push(c), x, y));
    }
    if carve_contains(c, x, y) {
        assert(carves.push(c)[carves.len() as int] == c);
        assert(covered(carves.push(c), x, y));
    }
    if covered(carves.push(c), x, y) {
        let i = choose|i: int|
            0 <= i < carves.push(c).len() && carve_contains(carves.push(c)[i], x, y);
        if i < carves.len() {
            assert(carves[i] == carves.push(c)[i]);
        }
    }
}

impl GameMap {
    /// The tile at column `x`, row `y`.
    #[verifier::inline]
    pub open spec fn spec_tile(&self, x: int, y: int) -> Tile {
        self.tiles@[x]@[y]
    }

    /// The grid always spans exactly `MAP_WIDTH x MAP_HEIGHT` cells.
    pub open spec fn grid_wf(&self) -> bool {
        &&& self.tiles@.len() == MAP_WIDTH
        &&& forall|x: int|
            0 <= x < MAP_WIDTH ==> (#[trigger] self.tiles@[x])@.len() == MAP_HEIGHT
    }

    pub fn tile_at(&self, x: i32, y: i32) -> (t: &Tile)
        requires
            self.grid_wf(),
            0 <= x < MAP_WIDTH,
            0 <= y < MAP_HEIGHT,
        ensures
            *t == self.spec_tile(x as int, y as int),
    {
        &self.tiles[x as usize][y as usize]
    }

    /// Mark a cell as seen.  Only the `explored` flag changes, and only
    /// upward: this is what keeps exploration monotonic.
    pub fn set_explored(&mut self, x: i32, y: i32)
        requires
            old(self).grid_wf(),
            0 <= x < MAP_WIDTH,
            0 <= y < MAP_HEIGHT,
        ensures
            final(self).grid_wf(),
            final(self).rooms == old(self).rooms,
            final(self).spec_tile(x as int, y as int) == (Tile {
                explored: true,
                ..old(self).spec_tile(x as int, y as int)
            }),
            forall|i: int, j: int|
                0 <= i < MAP_WIDTH && 0 <= j < MAP_HEIGHT && !(i == x && j == y)
                    ==> final(self).spec_tile(i, j) == old(self).spec_tile(i, j),
    {
        let col = &mut self.tiles[x as usize];
        let t = col[y as usize];
        col.set(y as usize, Tile { explored: true, ..t });
    }

    /// Open every cell of the strict interior of an accepted room.
    #[verifier::loop_isolation(false)]
    pub fn create_room(&mut self, room: Rect)
        requires
            old(self).grid_wf(),
            room.x1 < i32::MAX,
            room.y1 < i32::MAX,
            room.x1 + 1 < room.x2 && room.y1 + 1 < room.y2 ==> 0 <= room.x1 && room.x2
                <= MAP_WIDTH && 0 <= room.y1 && room.y2 <= MAP_HEIGHT,
        ensures
            final(self).grid_wf(),
            final(self).rooms == old(self).rooms,
            forall|i: int, j: int|
                0 <= i < MAP_WIDTH && 0 <= j < MAP_HEIGHT ==> final(self).spec_tile(
                    i,
                    j,
                ) == (if room.x1 < i < room.x2 && room.y1 < j < room.y2 {
                    tile_empty()
                } else {
                    old(self).spec_tile(i, j)
                }),
    {
        let mut x = room.x1 + 1;
        while x < room.x2
            invariant
                room.x1 < x <= room.x2 || x == room.x1 + 1,
                self.grid_wf(),
                self.rooms == old(self).rooms,
                forall|i: int, j: int|
                    0 <= i < MAP_WIDTH && 0 <= j < MAP_HEIGHT ==> self.spec_tile(i, j)
                        == (if room.x1 < i < x && room.y1 < j < room.y2 {
                        tile_empty()
                    } else {
                        old(self).spec_tile(i, j)
                    }),
            decreases room.x2 - x,
        {
            let mut y = room.y1 + 1;
            while y < room.y2
                invariant
                    room.x1 < x < room.x2,
                    room.y1 < y <= room.y2 || y == room.y1 + 1,
                    self.grid_wf(),
                    self.rooms == old(self).rooms,
                    forall|i: int, j: int|
                        0 <= i < MAP_WIDTH && 0 <= j < MAP_HEIGHT ==> self.spec_tile(
                            i,
                            j,
                        ) == (if (room.x1 < i < x && room.y1 < j < room.y2) || (i == x && room.y1
                            < j < y) {
                            tile_empty()
                        } else {
                            old(self).spec_tile(i, j)
                        }),
                decreases room.y2 - y,
            {
                let col = &mut self.tiles[x as usize];
                col.set(y as usize, Tile::empty());
                y = y + 1;
            }
            x = x + 1;
        }
    }

    /// Open a one-cell-high corridor between columns `x1` and `x2` at row
    /// `y` (both ends included, in either order).
    #[verifier::loop_isolation(false)]
    pub fn create_h_tunnel(&mut self, x1: i32, x2: i32, y: i32)
        requires
            old(self).grid_wf(),
            0 <= x1 < MAP_WIDTH,
            0 <= x2 < MAP_WIDTH,
            0 <= y < MAP_HEIGHT,
        ensures
            final(self).grid_wf(),
            final(self).rooms == old(self).rooms,
            forall|i: int, j: int|
                0 <= i < MAP_WIDTH && 0 <= j < MAP_HEIGHT ==> final(self).spec_tile(
                    i,
                    j,
                ) == (if carve_contains(h_tunnel(x1 as int, x2 as int, y as int), i, j) {
                    tile_empty()
                } else {
                    old(self).spec_tile(i, j)
                }),
    {
        let lo = if x1 < x2 {
            x1
        } else {
            x2
        };
        let hi = if x1 < x2 {
            x2
        } else {
            x1
        };
        let mut x = lo;
        while x <= hi
            invariant
                lo <= x <= hi + 1,
                self.grid_wf(),
                self.rooms == old(self).rooms,
                forall|i: int, j: int|
                    0 <= i < MAP_WIDTH && 0 <= j < MAP_HEIGHT ==> self.spec_tile(i, j)
                        == (if lo <= i < x && j == y {
                        tile_empty()
                    } else {
                        old(self).spec_tile(i, j)
                    }),
            decreases hi + 1 - x,
        {
            let col = &mut self.tiles[x as usize];
            col.set(y as usize, Tile::empty());
            x = x + 1;
        }
    }

    /// Open a one-cell-wide corridor between rows `y1` and `y2` at column
    /// `x` (both ends included, in either order).
    #[verifier::loop_isolation(false)]
    pub fn create_v_tunnel(&mut self, y1: i32, y2: i32, x: i32)
        requires
            old(self).grid_wf(),
            0 <= y1 < MAP_HEIGHT,
            0 <= y2 < MAP_HEIGHT,
            0 <= x < MAP_WIDTH,
        ensures
            final(self).grid_wf(),
            final(self).rooms == old(self).rooms,
            forall|i: int, j: int|
                0 <= i < MAP_WIDTH && 0 <= j < MAP_HEIGHT ==> final(self).spec_tile(
                    i,
                    j,
                ) == (if carve_contains(v_tunnel(y1 as int, y2 as int, x as int), i, j) {
                    tile_empty()
                } else {
                    old(self).spec_tile(i, j)
                }),
    {
        let lo = if y1 < y2 {
            y1
        } else {
            y2
        };
        let hi = if y1 < y2 {
            y2
        } else {
            y1
        };
        let mut y = lo;
        while y <= hi
            invariant
                lo <= y <= hi + 1,
                self.grid_wf(),
                self.rooms == old(self).rooms,
                forall|i: int, j: int|
                    0 <= i < MAP_WIDTH && 0 <= j < MAP_HEIGHT ==> self.spec_tile(i, j)
                        == (if i == x && lo <= j < y {
                        tile_empty()
                    } else {
                        old(self).spec_tile(i, j)
                    }),
            decreases hi + 1 - y,
        {
            let col = &mut self.tiles[x as usize];
            col.set(y as usize, Tile::empty());
            y = y + 1;
        }
    }
}


/// The state threaded through room generation: the generator state, the
/// rooms accepted so far, and every rectangle carved open so far (room
/// interiors and tunnel legs, in carving order).
pub struct GenState {
    pub rng: u64,
    pub rooms: Seq<Rect>,
    pub carves: Seq<Rect>,
}

/// A room fits the grid with a one-cell wall margin and spans at least the
/// minimum size on both axes.
pub open spec fn room_in_grid(r: Rect) -> bool {
    &&& 0 <= r.x1
    &&& r.x1 + ROOM_MIN_SIZE <= r.x2 < MAP_WIDTH
    &&& 0 <= r.y1
    &&& r.y1 + ROOM_MIN_SIZE <= r.y2 < MAP_HEIGHT
}

/// A carve stays strictly inside the outer wall ring of the grid.
pub open spec fn carve_in_interior(c: Rect) -> bool {
    &&& 1 <= c.x1 <= c.x2 <= MAP_WIDTH - 2
    &&& 1 <= c.y1 <= c.y2 <= MAP_HEIGHT - 2
}

/// Later rooms were each tested against all earlier rooms and rejected on
/// any inclusive overlap.
pub open spec fn rooms_disjoint(rooms: Seq<Rect>) -> bool {
    forall|i: int, j: int|
        0 <= i < j < rooms.len() ==> !(#[trigger] rooms[j]).spec_intersects(#[trigger] rooms[i])
}

/// One generation attempt: sample a candidate room; if it overlaps nothing
/// accepted yet, carve its interior, connect it to the previously accepted
/// room by an L-shaped tunnel (the coin decides which leg is carved first),
/// and accept it.
pub open spec fn gen_attempt(st: GenState) -> GenState {
    let s0 = st.rng;
    let w = pcg_range(s0, ROOM_MIN_SIZE as int, ROOM_MAX_SIZE as int + 1);
    let s1 = pcg_step(s0);
    let h = pcg_range(s1, ROOM_MIN_SIZE as int, ROOM_MAX_SIZE as int + 1);
    let s2 = pcg_step(s1);
    let x = pcg_range(s2, 0, MAP_WIDTH as int - w);
    let s3 = pcg_step(s2);
    let y = pcg_range(s3, 0, MAP_HEIGHT as int - h);
    let s4 = pcg_step(s3);
    let room = Rect { x1: x as i32, y1: y as i32, x2: (x + w) as i32, y2: (y + h) as i32 };
    let failed = exists|j: int|
        0 <= j < st.rooms.len() && room.spec_intersects(#[trigger] st.rooms[j]);
    if failed {
        GenState { rng: s4, ..st }
    } else {
        let carves1 = st.carves.push(room_interior(room));
        if st.rooms.len() > 0 {
            let prev = st.rooms[st.rooms.len() - 1].spec_center();
            let cur = room.spec_center();
            let coin = pcg_bool(s4);
            let s5 = pcg_step(s4);
            let carves2 = if coin {
                carves1.push(h_tunnel(prev.0, cur.0, prev.1)).push(
                    v_tunnel(prev.1, cur.1, cur.0),
                )
            } else {
                carves1.push(v_tunnel(prev.1, cur.1, prev.0)).push(
                    h_tunnel(prev.0, cur.0, cur.1),
                )
            };
            GenState { rng: s5, rooms: st.rooms.push(room), carves: carves2 }
        } else {
            GenState { rng: s4, rooms: st.rooms.push(room), carves: carves1 }
        }
    }
}

/// `n` generation attempts from state `st`.
pub open spec fn gen_iter(st: GenState, n: nat) -> GenState
    decreases n,
{
    if n == 0 {
        st
    } else {
        gen_attempt(gen_iter(st, (n - 1) as nat))
    }
}

/// The complete generation run made from initial generator state `rng0`:
/// `MAX_ROOMS` attempts over an empty map.
pub open spec fn map_gen(rng0: u64) -> GenState {
    gen_iter(GenState { rng: rng0, rooms: Seq::empty(), carves: Seq::empty() }, MAX_ROOMS as nat)
}

/// The map is exactly the one that generation from `rng0` produces: the
/// accepted room list, and per cell the tile left by the carve list.  Since
/// `map_gen` is a function of `rng0` alone, two maps generated from equal
/// seeds are equal.
pub open spec fn generated_from(m: GameMap, rng0: u64) -> bool {
    &&& m.grid_wf()
    &&& m.rooms@ == map_gen(rng0).rooms
    &&& forall|x: int, y: int|
        0 <= x < MAP_WIDTH && 0 <= y < MAP_HEIGHT ==> m.spec_tile(x, y) == tile_of(
            map_gen(rng0).carves,
            x,
            y,
        )
}


/// The relation the generation loop maintains between the map being built,
/// and the model state: the rooms match, every cell holds exactly the tile
/// the carve list dictates, and the structural side conditions hold.
pub open spec fn gen_inv(m: GameMap, st: GenState) -> bool {
    &&& m.grid_wf()
    &&& m.rooms@ == st.rooms
    &&& forall|x: int, y: int|
        0 <= x < MAP_WIDTH && 0 <= y < MAP_HEIGHT ==> m.spec_tile(x, y) == tile_of(st.carves, x, y)
    &&& forall|k: int| 0 <= k < st.rooms.len() ==> room_in_grid(#[trigger] st.rooms[k])
    &&& rooms_disjoint(st.rooms)
    &&& forall|k: int| 0 <= k < st.carves.len() ==> carve_in_interior(#[trigger] st.carves[k])
    &&& forall|k: int| 0 <= k < st.rooms.len() ==> covered_interior(st.carves, #[trigger] st.rooms[k])
}

/// One exec generation attempt, mirroring `gen_attempt` exactly.
#[verifier::loop_isolation(false)]
#[verifier::rlimit(60)]
fn gen_one_attempt(map: &mut GameMap, rng: &mut Pcg32, Ghost(st): Ghost<GenState>) -> (r: Ghost<
    GenState,
>)
    requires
        gen_inv(*old(map), st),
        old(rng).state == st.rng,
    ensures
        r@ == gen_attempt(st),
        gen_inv(*final(map), r@),
        final(rng).state == r@.rng,
        old(map).rooms@.len() <= final(map).rooms@.len() <= old(map).rooms@.len() + 1,
        old(map).rooms@.len() == 0 ==> final(map).rooms@.len() == 1,
{
    broadcast use lemma_covered_push;

    let w = rng.gen_range(ROOM_MIN_SIZE, ROOM_MAX_SIZE + 1);
    let h = rng.gen_range(ROOM_MIN_SIZE, ROOM_MAX_SIZE + 1);
    let x = rng.gen_range(0, MAP_WIDTH - w);
    let y = rng.gen_range(0, MAP_HEIGHT - h);
    let new_room = Rect::new(x, y, w, h);
    proof {
        assert(room_in_grid(new_room));
    }

    let mut failed = false;
    let mut ri: usize = 0;
    while ri < map.rooms.len()
        invariant
            0 <= ri <= map.rooms@.len(),
            failed == exists|j: int|
                0 <= j < ri && new_room.spec_intersects(#[trigger] map.rooms@[j]),
        decreases map.rooms@.len() - ri,
    {
        if new_room.intersects_with(&map.rooms[ri]) {
            failed = true;
        }
        ri = ri + 1;
    }

    if !failed {
        map.create_room(new_room);
        let ghost c1 = st.carves.push(room_interior(new_room));
        proof {
            assert forall|i: int, j: int| 0 <= i < MAP_WIDTH && 0 <= j < MAP_HEIGHT implies
                map.spec_tile(i, j) == tile_of(c1, i, j) by {
                let t0 = tile_of(st.carves, i, j);
                let cc = carve_contains(room_interior(new_room), i, j);
                lemma_covered_push(st.carves, room_interior(new_room), i, j);
            }
        }
        let (new_x, new_y) = new_room.center();
        let ghost mut cfinal = c1;
        if map.rooms.len() > 0 {
            let last = map.rooms.len() - 1;
            let (prev_x, prev_y) = map.rooms[last].center();
            if rng.gen_bool() {
                map.create_h_tunnel(prev_x, new_x, prev_y);
                let ghost c2 = c1.push(h_tunnel(prev_x as int, new_x as int, prev_y as int));
                proof {
                    assert forall|i: int, j: int| 0 <= i < MAP_WIDTH && 0 <= j < MAP_HEIGHT implies
                        map.spec_tile(i, j) == tile_of(c2, i, j) by {
                        let t0 = tile_of(c1, i, j);
                        let cc = carve_contains(h_tunnel(prev_x as int, new_x as int, prev_y as int), i, j);
                        lemma_covered_push(c1, h_tunnel(prev_x as int, new_x as int, prev_y as int), i, j);
                    }
                }
                map.create_v_tunnel(prev_y, new_y, new_x);
                proof {
                    cfinal = c2.push(v_tunnel(prev_y as int, new_y as int, new_x as int));
                    assert forall|i: int, j: int| 0 <= i < MAP_WIDTH && 0 <= j < MAP_HEIGHT implies
                        map.spec_tile(i, j) == tile_of(cfinal, i, j) by {
                        let t0 = tile_of(c2, i, j);
                        let cc = carve_contains(v_tunnel(prev_y as int, new_y as int, new_x as int), i, j);
                        lemma_covered_push(c2, v_tunnel(prev_y as int, new_y as int, new_x as int), i, j);
                    }
                }
            } else {
                map.create_v_tunnel(prev_y, new_y, prev_x);
                let ghost c2 = c1.push(v_tunnel(prev_y as int, new_y as int, prev_x as int));
                proof {
                    assert forall|i: int, j: int| 0 <= i < MAP_WIDTH && 0 <= j < MAP_HEIGHT implies
                        map.spec_tile(i, j) == tile_of(c2, i, j) by {
                        let t0 = tile_of(c1, i, j);
                        let cc = carve_contains(v_tunnel(prev_y as int, new_y as int, prev_x as int), i, j);
                        lemma_covered_push(c1, v_tunnel(prev_y as int, new_y as int, prev_x as int), i, j);
                    }
                }
                map.create_h_tunnel(prev_x, new_x, new_y);
                proof {
                    cfinal = c2.push(h_tunnel(prev_x as int, new_x as int, new_y as int));
                    assert forall|i: int, j: int| 0 <= i < MAP_WIDTH && 0 <= j < MAP_HEIGHT implies
                        map.spec_tile(i, j) == tile_of(cfinal, i, j) by {
                        let t0 = tile_of(c2, i, j);
                        let cc = carve_contains(h_tunnel(prev_x as int, new_x as int, new_y as int), i, j);
                        lemma_covered_push(c2, h_tunnel(prev_x as int, new_x as int, new_y as int), i, j);
                    }
                }
            }
        }
        map.rooms.push(new_room);
        proof {
            let a = gen_attempt(st);
            assert(a.rooms == map.rooms@);
            assert(a.carves == cfinal);
            assert forall|k: int| 0 <= k < map.rooms@.len() implies covered_interior(
                a.carves,
                #[trigger] map.rooms@[k],
            ) by {
                if k < map.rooms@.len() - 1 {
                    let ci = choose|ci: int|
                        0 <= ci < st.carves.len() && st.carves[ci] == room_interior(map.rooms@[k]);
                    assert(a.carves[ci] == st.carves[ci]);
                } else {
                    assert(a.carves[st.carves.len() as int] == room_interior(new_room));
                }
            }
            assert forall|k: int| 0 <= k < a.carves.len() implies carve_in_interior(
                #[trigger] a.carves[k],
            ) by {
                if k < st.carves.len() {
                    assert(a.carves[k] == st.carves[k]);
                }
            }
        }
    }
    Ghost(gen_attempt(st))
}

impl GameMap {
    /// Generate the dungeon: attempt `MAX_ROOMS` random rooms, keep the
    /// non-overlapping ones, and connect consecutive accepted rooms with
    /// L-shaped tunnels.  The result is a function of the generator state
    /// alone, so generation is deterministic in the seed.
    #[verifier::loop_isolation(false)]
    #[verifier::rlimit(30)]
    pub fn new(rng: &mut Pcg32) -> (m: GameMap)
        ensures
            generated_from(m, old(rng).state),
            final(rng).state == map_gen(old(rng).state).rng,
            1 <= m.rooms@.len() <= MAX_ROOMS,
            forall|k: int| 0 <= k < m.rooms@.len() ==> room_in_grid(#[trigger] m.rooms@[k]),
            rooms_disjoint(m.rooms@),
            forall|k: int|
                0 <= k < map_gen(old(rng).state).carves.len() ==> carve_in_interior(
                    #[trigger] map_gen(old(rng).state).carves[k],
                ),
            forall|k: int, x: int, y: int|
                0 <= k < m.rooms@.len() && #[trigger] m.rooms@[k].interior_contains(x, y)
                    ==> m.spec_tile(x, y) == tile_empty(),
    {
        let ghost rng0 = rng.state;
        let ghost init = GenState { rng: rng0, rooms: Seq::empty(), carves: Seq::empty() };
        let mut tiles: Vec<Vec<Tile>> = Vec::new();
        while tiles.len() < MAP_WIDTH as usize
            invariant
                tiles@.len() <= MAP_WIDTH,
                forall|i: int|
                    0 <= i < tiles@.len() ==> (#[trigger] tiles@[i])@.len() == MAP_HEIGHT,
                forall|i: int, j: int|
                    0 <= i < tiles@.len() && 0 <= j < MAP_HEIGHT ==> tiles@[i]@[j] == tile_wall(),
            decreases MAP_WIDTH - tiles@.len(),
        {
            let mut col: Vec<Tile> = Vec::new();
            while col.len() < MAP_HEIGHT as usize
                invariant
                    col@.len() <= MAP_HEIGHT,
                    forall|j: int| 0 <= j < col@.len() ==> col@[j] == tile_wall(),
                decreases MAP_HEIGHT - col@.len(),
            {
                col.push(Tile::wall());
            }
            tiles.push(col);
        }
        let mut map = GameMap { tiles, rooms: Vec::new() };
        let ghost mut st = init;
        let mut attempt: i32 = 0;
        while attempt < MAX_ROOMS
            invariant
                0 <= attempt <= MAX_ROOMS,
                st == gen_iter(init, attempt as nat),
                rng.state == st.rng,
                gen_inv(map, st),
                map.rooms@.len() <= attempt,
                attempt > 0 ==> map.rooms@.len() >= 1,
            decreases MAX_ROOMS - attempt,
        {
            let r = gen_one_attempt(&mut map, rng, Ghost(st));
            proof {
                st = r@;
            }
            attempt = attempt + 1;
        }
        proof {
            assert forall|k: int, x2: int, y2: int|
                0 <= k < map.rooms@.len() && #[trigger] map.rooms@[k].interior_contains(x2, y2)
                    implies map.spec_tile(x2, y2) == tile_empty() by {
                let r = map.rooms@[k];
                let t0 = tile_of(st.carves, x2, y2);
                let ci = choose|ci: int|
                    0 <= ci < st.carves.len() && st.carves[ci] == room_interior(r);
                assert(carve_contains(st.carves[ci], x2, y2));
                assert(covered(st.carves, x2, y2));
                assert(carve_in_interior(st.carves[ci]));
            }
        }
        map
    }
}

/// The carve list holds the interior of the room.
pub open spec fn covered_interior(carves: Seq<Rect>, room: Rect) -> bool {
    exists|ci: int| 0 <= ci < carves.len() && #[trigger] carves[ci] == room_interior(room)
}


/// The structural facts that hold of every generation state reachable from
/// an empty map: accepted rooms sit inside the grid with the minimum size,
/// no later room overlaps an earlier one, every carve keeps off the border
/// ring, and every accepted room's interior is among the carves.
pub open spec fn gen_facts(st: GenState) -> bool {
    &&& forall|k: int| 0 <= k < st.rooms.len() ==> room_in_grid(#[trigger] st.rooms[k])
    &&& rooms_disjoint(st.rooms)
    &&& forall|k: int| 0 <= k < st.carves.len() ==> carve_in_interior(#[trigger] st.carves[k])
    &&& forall|k: int| 0 <= k < st.rooms.len() ==> covered_interior(st.carves, #[trigger] st.rooms[k])
}

proof fn lemma_gen_attempt_facts(st: GenState)
    requires
        gen_facts(st),
    ensures
        gen_facts(gen_attempt(st)),
        gen_attempt(st).rooms.len() >= st.rooms.len(),
        st.rooms.len() == 0 ==> gen_attempt(st).rooms.len() == 1,
{
    let s0 = st.rng;
    let w = pcg_range(s0, ROOM_MIN_SIZE as int, ROOM_MAX_SIZE as int + 1);
    let s1 = pcg_step(s0);
    let h = pcg_range(s1, ROOM_MIN_SIZE as int, ROOM_MAX_SIZE as int + 1);
    let s2 = pcg_step(s1);
    lemma_pcg_range_bounds(s0, ROOM_MIN_SIZE as int, ROOM_MAX_SIZE as int + 1);
    lemma_pcg_range_bounds(s1, ROOM_MIN_SIZE as int, ROOM_MAX_SIZE as int + 1);
    let x = pcg_range(s2, 0, MAP_WIDTH as int - w);
    let s3 = pcg_step(s2);
    let y = pcg_range(s3, 0, MAP_HEIGHT as int - h);
    lemma_pcg_range_bounds(s2, 0, MAP_WIDTH as int - w);
    lemma_pcg_range_bounds(s3, 0, MAP_HEIGHT as int - h);
    let room = Rect { x1: x as i32, y1: y as i32, x2: (x + w) as i32, y2: (y + h) as i32 };
    assert(room_in_grid(room));
    let failed = exists|j: int|
        0 <= j < st.rooms.len() && room.spec_intersects(#[trigger] st.rooms[j]);
    if !failed {
        let a = gen_attempt(st);
        let carves1 = st.carves.push(room_interior(room));
        assert(carve_in_interior(room_interior(room)));
        if st.rooms.len() > 0 {
            let prev_room = st.rooms[st.rooms.len() - 1];
            let prev = prev_room.spec_center();
            let cur = room.spec_center();
            assert(prev_room.x1 + 3 <= prev.0 <= prev_room.x2 - 3 && prev_room.y1 + 3 <= prev.1
                <= prev_room.y2 - 3);
            assert(room.x1 + 3 <= cur.0 <= room.x2 - 3 && room.y1 + 3 <= cur.1 <= room.y2 - 3);
            assert(carve_in_interior(h_tunnel(prev.0, cur.0, prev.1)));
            assert(carve_in_interior(h_tunnel(prev.0, cur.0, cur.1)));
            assert(carve_in_interior(v_tunnel(prev.1, cur.1, prev.0)));
            assert(carve_in_interior(v_tunnel(prev.1, cur.1, cur.0)));
        }
        assert forall|k: int| 0 <= k < a.carves.len() implies carve_in_interior(
            #[trigger] a.carves[k],
        ) by {
            if k < st.carves.len() {
                assert(a.carves[k] == st.carves[k]);
            }
        }
        assert forall|k: int| 0 <= k < a.rooms.len() implies covered_interior(
            a.carves,
            #[trigger] a.rooms[k],
        ) by {
            if k < st.rooms.len() {
                let ci = choose|ci: int|
                    0 <= ci < st.carves.len() && st.carves[ci] == room_interior(st.rooms[k]);
                assert(a.carves[ci] == st.carves[ci]);
                assert(a.rooms[k] == st.rooms[k]);
            } else {
                assert(a.rooms[k] == room);
                assert(a.carves[st.carves.len() as int] == room_interior(room));
            }
        }
    }
}

proof fn lemma_gen_iter_facts(st: GenState, n: nat)
    requires
        gen_facts(st),
    ensures
        gen_facts(gen_iter(st, n)),
        gen_iter(st, n).rooms.len() >= st.rooms.len(),
        n > 0 ==> gen_iter(st, n).rooms.len() >= 1,
    decreases n,
{
    if n > 0 {
        lemma_gen_iter_facts(st, (n - 1) as nat);
        lemma_gen_attempt_facts(gen_iter(st, (n - 1) as nat));
    }
}

/// The structural facts hold of every complete generation run, whatever the
/// seed.
pub proof fn lemma_map_gen_facts(rng0: u64)
    ensures
        gen_facts(map_gen(rng0)),
        map_gen(rng0).rooms.len() >= 1,
{
    let init = GenState { rng: rng0, rooms: Seq::empty(), carves: Seq::empty() };
    assert(gen_facts(init));
    lemma_gen_iter_facts(init, MAX_ROOMS as nat);
}

/// Law: generation is a function of the seed alone.  Two maps generated
/// from equal generator states have equal room lists and equal tile grids.
pub proof fn lemma_generation_deterministic(m1: GameMap, m2: GameMap, rng0: u64)
    requires
        generated_from(m1, rng0),
        generated_from(m2, rng0),
    ensures
        m1.rooms@ == m2.rooms@,
        forall|x: int, y: int|
            0 <= x < MAP_WIDTH && 0 <= y < MAP_HEIGHT ==> m1.spec_tile(x, y) == m2.spec_tile(x, y),
{
    assert forall|x: int, y: int| 0 <= x < MAP_WIDTH && 0 <= y < MAP_HEIGHT implies m1.spec_tile(
        x,
        y,
    ) == m2.spec_tile(x, y) by {
        let t0 = tile_of(map_gen(rng0).carves, x, y);
    }
}

/// Law: no two accepted rooms' bounding rectangles intersect, for any seed
/// and any run.
pub proof fn lemma_rooms_never_intersect(rng0: u64, i: int, j: int)
    requires
        0 <= i < map_gen(rng0).rooms.len(),
        0 <= j < map_gen(rng0).rooms.len(),
        i != j,
    ensures
        !map_gen(rng0).rooms[i].spec_intersects(map_gen(rng0).rooms[j]),
{
    lemma_map_gen_facts(rng0);
}

/// Law: every accepted room's interior is open (walkable and
/// non-sight-blocking) in the generated map.
pub proof fn lemma_room_interiors_open(m: GameMap, rng0: u64, k: int, x: int, y: int)
    requires
        generated_from(m, rng0),
        0 <= k < map_gen(rng0).rooms.len(),
        map_gen(rng0).rooms[k].interior_contains(x, y),
    ensures
        m.spec_tile(x, y) == tile_empty(),
        !m.spec_tile(x, y).blocked,
        !m.spec_tile(x, y).block_sight,
{
    lemma_map_gen_facts(rng0);
    let st = map_gen(rng0);
    let r = st.rooms[k];
    let ci = choose|ci: int| 0 <= ci < st.carves.len() && st.carves[ci] == room_interior(r);
    assert(carve_contains(st.carves[ci], x, y));
    assert(covered(st.carves, x, y));
    assert(carve_in_interior(st.carves[ci]));
    assert(m.spec_tile(x, y) == tile_of(st.carves, x, y));
}

/// Law: a cell that no room interior and no tunnel ever carved stays a
/// solid, sight-blocking wall.
pub proof fn lemma_untouched_cells_stay_walls(m: GameMap, rng0: u64, x: int, y: int)
    requires
        generated_from(m, rng0),
        0 <= x < MAP_WIDTH,
        0 <= y < MAP_HEIGHT,
        !covered(map_gen(rng0).carves, x, y),
    ensures
        m.spec_tile(x, y) == tile_wall(),
{
    assert(m.spec_tile(x, y) == tile_of(map_gen(rng0).carves, x, y));
}

/// The outermost ring of the grid is never carved, so it is solid wall in
/// every generated map; this is what keeps every entity strictly inside the
/// grid.
pub proof fn lemma_border_cells_walled(m: GameMap, rng0: u64, x: int, y: int)
    requires
        generated_from(m, rng0),
        0 <= x < MAP_WIDTH,
        0 <= y < MAP_HEIGHT,
        x == 0 || x == MAP_WIDTH - 1 || y == 0 || y == MAP_HEIGHT - 1,
    ensures
        m.spec_tile(x, y) == tile_wall(),
{
    lemma_map_gen_facts(rng0);
    let st = map_gen(rng0);
    assert(m.spec_tile(x, y) == tile_of(st.carves, x, y));
    if covered(st.carves, x, y) {
        let i = choose|i: int| 0 <= i < st.carves.len() && carve_contains(#[trigger] st.carves[i], x, y);
        assert(carve_in_interior(st.carves[i]));
        assert(false);
    }
}


/// Law: exploration is monotonic.  A render step leaves every tile's
/// `explored` flag at `explored || visible`, so a flag once set is never
/// cleared by any sequence of later steps.
pub proof fn lemma_explored_monotonic(pre: GameMap, post: GameMap, revealed: bool, x: int, y: int)
    requires
        0 <= x < MAP_WIDTH,
        0 <= y < MAP_HEIGHT,
        post.spec_tile(x, y) == (Tile {
            explored: pre.spec_tile(x, y).explored || revealed,
            ..pre.spec_tile(x, y)
        }),
        pre.spec_tile(x, y).explored,
    ensures
        post.spec_tile(x, y).explored,
{
}

} // verus!
