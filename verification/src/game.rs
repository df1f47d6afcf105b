use vstd::prelude::*;

use crate::ai::Ai;
use crate::colors::{
    black, darker_green, darker_red, desaturated_green, light_grey, light_red, red, spec_red,
    white,
};
use crate::config::{
    color_dark_ground, color_dark_wall, color_light_ground, color_light_wall,
    spec_color_dark_ground, spec_color_dark_wall, spec_color_light_ground, spec_color_light_wall,
    BAR_WIDTH, FOV_LIGHT_WALLS, MAP_HEIGHT, MAP_WIDTH, MAX_ROOMS, MAX_ROOM_MONSTERS, PANEL_HEIGHT,
    PANEL_Y, PLAYER, TORCH_RADIUS,
};
use crate::colors::{spec_black, spec_cyan};
use crate::object::marker_glyph;
use crate::draw::Tcod;
use crate::fov::{fov_model, Cell, FOV};
use crate::map::{generated_from, map_gen, room_in_grid, GameMap, Tile};
use crate::colors::Color;
use crate::mem::mut_two;
use crate::ai::action_step;
use crate::object::{
    attack_transition, lemma_attack_msgs_extend, msgs_extend, obj_ok, Fighter, Object,
};
use crate::rect::Rect;
use crate::rng::{lemma_pcg_steps_snoc, pcg_range, pcg_step, pcg_steps, Pcg32};
use crate::colors::{spec_darker_green, spec_desaturated_green};
use crate::ui::Messages;

verus! {

/// Per-session player bookkeeping: the position the last visibility refresh
/// was made from, and how many ticks the pending attack has been shown.
pub struct Player {
    pub prev_position: (i32, i32),
    pub attack_ticks: i32,
}

/// One simulated world: the random source, the dungeon, the visibility
/// grid, the entity list (the player always at index 0), the event log,
/// and the tick counter.
pub struct Game {
    pub rng: Pcg32,
    pub map: GameMap,
    pub messages: Messages,
    pub fov: FOV,
    pub objects: Vec<Object>,
    pub player: Player,
    pub tick: u64,
}

impl Game {
    /// The world invariant: the grids are consistent and sized alike, the
    /// outer wall ring is solid, and every entity is well-formed, sits
    /// strictly inside the walls, and (while alive with a fighter) has at
    /// least one hit point.
    pub open spec fn wf(&self) -> bool {
        &&& self.map.grid_wf()
        &&& forall|x: int, y: int|
            0 <= x < MAP_WIDTH && 0 <= y < MAP_HEIGHT && (x == 0 || x == MAP_WIDTH - 1 || y == 0
                || y == MAP_HEIGHT - 1) ==> (#[trigger] self.map.spec_tile(x, y)).blocked
        &&& self.fov.wf()
        &&& self.fov.w == MAP_WIDTH
        &&& self.fov.h == MAP_HEIGHT
        &&& 1 <= self.objects@.len() <= 1000
        &&& forall|k: int| 0 <= k < self.objects@.len() ==> obj_ok(#[trigger] self.objects@[k])
        &&& forall|k: int|
            0 <= k < self.objects@.len() ==> 1 <= (#[trigger] self.objects@[k]).x < MAP_WIDTH - 1
                && 1 <= self.objects@[k].y < MAP_HEIGHT - 1
        &&& forall|k: int|
            0 <= k < self.objects@.len() && (#[trigger] self.objects@[k]).alive
                && self.objects@[k].fighter is Some ==> self.objects@[k].fighter.unwrap().hp >= 1
        &&& forall|k: int|
            0 <= k < self.objects@.len() && (#[trigger] self.objects@[k]).attacking is Some ==> {
                let d = self.objects@[k].attacking.unwrap();
                -1 <= d.0 <= 1 && -1 <= d.1 <= 1
            }
        &&& forall|k: int|
            0 <= k < self.objects@.len() && (#[trigger] self.objects@[k]).ai is Some
                ==> self.objects@[k].ai.unwrap().speed >= 1
        &&& self.objects@[0].ai is None
        &&& match self.objects@[0].fighter {
            Option::Some(f) => f.mtype == 0,
            Option::None => true,
        }
        &&& 0 <= self.player.attack_ticks <= 5
        &&& self.messages.wf()
    }

    /// Whether the cell is impassable: a blocked map tile, or any blocking
    /// entity standing on it.
    pub open spec fn spec_blocked(&self, x: int, y: int) -> bool {
        blocked_in(self.map, self.objects@, x, y)
    }

    /// Collision test for one cell: the map tile, then every blocking
    /// entity.
    #[verifier::loop_isolation(false)]
    pub fn is_blocked(&self, x: i32, y: i32) -> (r: bool)
        requires
            self.wf(),
            0 <= x < MAP_WIDTH,
            0 <= y < MAP_HEIGHT,
        ensures
            r == self.spec_blocked(x as int, y as int),
    {
        if self.map.tile_at(x, y).blocked {
            return true;
        }
        let mut k: usize = 0;
        while k < self.objects.len()
            invariant
                k <= self.objects@.len(),
                forall|i: int|
                    0 <= i < k ==> !((#[trigger] self.objects@[i]).blocks && self.objects@[i].x == x
                        && self.objects@[i].y == y),
            decreases self.objects@.len() - k,
        {
            let o = &self.objects[k];
            if o.blocks && o.x == x && o.y == y {
                return true;
            }
            k = k + 1;
        }
        false
    }

    /// Move entity `id` by the given deltas, unless the destination cell is
    /// blocked by the map or by a blocking entity; a blocked move is a
    /// silent no-op.
    pub fn move_by(&mut self, id: usize, dx: i32, dy: i32)
        requires
            old(self).wf(),
            id < old(self).objects@.len(),
            0 <= old(self).objects@[id as int].x + dx < MAP_WIDTH,
            0 <= old(self).objects@[id as int].y + dy < MAP_HEIGHT,
        ensures
            final(self).wf(),
            *final(self) == (Game {
                objects: final(self).objects,
                ..*old(self)
            }),
            final(self).objects@ == old(self).objects@.update(
                id as int,
                if !old(self).spec_blocked(
                    old(self).objects@[id as int].x + dx,
                    old(self).objects@[id as int].y + dy,
                ) {
                    Object {
                        x: (old(self).objects@[id as int].x + dx) as i32,
                        y: (old(self).objects@[id as int].y + dy) as i32,
                        ..old(self).objects@[id as int]
                    }
                } else {
                    old(self).objects@[id as int]
                },
            ),
    {
        let (x, y) = self.objects[id].pos();
        if !self.is_blocked(x + dx, y + dy) {
            let o = &mut self.objects[id];
            o.move_by(dx, dy);
            proof {
                assert(!self.map.spec_tile(
                    old(self).objects@[id as int].x + dx,
                    old(self).objects@[id as int].y + dy,
                ).blocked);
                assert(self.objects@ =~= old(self).objects@.update(
                    id as int,
                    Object {
                        x: (old(self).objects@[id as int].x + dx) as i32,
                        y: (old(self).objects@[id as int].y + dy) as i32,
                        ..old(self).objects@[id as int]
                    },
                ));
            }
        } else {
            proof {
                assert(self.objects@ =~= old(self).objects@.update(
                    id as int,
                    old(self).objects@[id as int],
                ));
            }
        }
    }

    /// The single-cell step the straight-line steering takes toward a
    /// target: each axis of the delta vector, normalised and rounded
    /// independently.  Standing on the target gives no step.
    pub open spec fn steer_step(dx: int, dy: int) -> (int, int) {
        if dx == 0 && dy == 0 {
            (0, 0)
        } else {
            (
                if 4 * (dx * dx) >= dx * dx + dy * dy {
                    if dx > 0 {
                        1int
                    } else if dx < 0 {
                        -1int
                    } else {
                        0int
                    }
                } else {
                    0int
                },
                if 4 * (dy * dy) >= dx * dx + dy * dy {
                    if dy > 0 {
                        1int
                    } else if dy < 0 {
                        -1int
                    } else {
                        0int
                    }
                } else {
                    0int
                },
            )
        }
    }

    /// Naive straight-line steering: take the one-cell step toward the
    /// target (no pathfinding — an obstacle on the straight line stalls the
    /// entity indefinitely; this is documented behaviour).  Standing on the
    /// target is a no-op.
    pub fn move_towards(&mut self, id: usize, target_x: i32, target_y: i32)
        requires
            old(self).wf(),
            id < old(self).objects@.len(),
            0 <= target_x < MAP_WIDTH,
            0 <= target_y < MAP_HEIGHT,
        ensures
            final(self).wf(),
            *final(self) == (Game { objects: final(self).objects, ..*old(self) }),
            ({
                let o = old(self).objects@[id as int];
                let s = Game::steer_step(target_x - o.x, target_y - o.y);
                final(self).objects@ == old(self).objects@.update(
                    id as int,
                    if !(s.0 == 0 && s.1 == 0) && !old(self).spec_blocked(o.x + s.0, o.y + s.1) {
                        Object { x: (o.x + s.0) as i32, y: (o.y + s.1) as i32, ..o }
                    } else {
                        o
                    },
                )
            }),
    {
        let dx = target_x - self.objects[id].x;
        let dy = target_y - self.objects[id].y;
        if dx == 0 && dy == 0 {
            proof {
                assert(self.objects@ =~= old(self).objects@.update(
                    id as int,
                    old(self).objects@[id as int],
                ));
            }
            return ;
        }
        proof {
            assert(0 <= dx * dx <= 100 * 100 && 0 <= dy * dy <= 100 * 100 && (dx != 0 ==> dx * dx
                >= 1) && (dy != 0 ==> dy * dy >= 1)) by (nonlinear_arith)
                requires
                    -100 <= dx <= 100,
                    -100 <= dy <= 100,
            ;
        }
        let d2 = dx * dx + dy * dy;
        let sx = if 4 * (dx * dx) >= d2 {
            if dx > 0 {
                1
            } else {
                -1
            }
        } else {
            0
        };
        let sy = if 4 * (dy * dy) >= d2 {
            if dy > 0 {
                1
            } else {
                -1
            }
        } else {
            0
        };
        proof {
            let dxi = dx as int;
            let dyi = dy as int;
            let st = Game::steer_step(dxi, dyi);
            assert((4 * (dx * dx) >= d2) == (4 * (dxi * dxi) >= dxi * dxi + dyi * dyi));
            assert((4 * (dy * dy) >= d2) == (4 * (dyi * dyi) >= dxi * dxi + dyi * dyi));
            assert(st == ((
                if 4 * (dxi * dxi) >= dxi * dxi + dyi * dyi {
                    if dxi > 0 {
                        1int
                    } else if dxi < 0 {
                        -1int
                    } else {
                        0int
                    }
                } else {
                    0int
                },
                if 4 * (dyi * dyi) >= dxi * dxi + dyi * dyi {
                    if dyi > 0 {
                        1int
                    } else if dyi < 0 {
                        -1int
                    } else {
                        0int
                    }
                } else {
                    0int
                },
            )));
            assert(dxi == 0 ==> dxi * dxi == 0) by (nonlinear_arith);
            assert(dyi == 0 ==> dyi * dyi == 0) by (nonlinear_arith);
            if 4 * (dxi * dxi) >= dxi * dxi + dyi * dyi && dxi == 0 {
                assert(dyi * dyi <= 0);
                assert(dyi == 0);
                assert(false);
            }
            if 4 * (dyi * dyi) >= dxi * dxi + dyi * dyi && dyi == 0 {
                assert(dxi * dxi <= 0);
                assert(dxi == 0);
                assert(false);
            }
            assert(sx as int == st.0);
            assert(sy as int == st.1);
            assert((sx as int, sy as int) == Game::steer_step(dx as int, dy as int));
            assert(!(sx == 0 && sy == 0)) by (nonlinear_arith)
                requires
                    !(dx == 0 && dy == 0),
                    sx as int == (if 4 * (dx * dx) >= dx * dx + dy * dy {
                        if dx > 0 {
                            1int
                        } else if dx < 0 {
                            -1int
                        } else {
                            0int
                        }
                    } else {
                        0int
                    }),
                    sy as int == (if 4 * (dy * dy) >= dx * dx + dy * dy {
                        if dy > 0 {
                            1int
                        } else if dy < 0 {
                            -1int
                        } else {
                            0int
                        }
                    } else {
                        0int
                    }),
            ;
        }
        self.move_by(id, sx, sy);
    }

    /// Turn one key code into the player's intent: the arrow keys arm a
    /// directional attack, W/A/S/D step the player.  A dead player ignores
    /// all keys.  Always reports that the session continues.
    pub fn handle_keys(&mut self, key_code: i32) -> (r: bool)
        requires
            old(self).wf(),
        ensures
            final(self).wf(),
            r == false,
            !old(self).objects@[0].alive ==> *final(self) == *old(self),
            *final(self) == (Game { objects: final(self).objects, ..*old(self) }),
            old(self).objects@[0].alive ==> final(self).objects@ == old(self).objects@.update(
                0,
                ({
                    let p = old(self).objects@[0];
                    if key_code == 38 || key_code == 40 || key_code == 37 || key_code == 39 {
                        let d: (i32, i32) = if key_code == 38 {
                            (0i32, -1i32)
                        } else if key_code == 40 {
                            (0i32, 1i32)
                        } else if key_code == 37 {
                            (-1i32, 0i32)
                        } else {
                            (1i32, 0i32)
                        };
                        Object {
                            attacking: if p.attacking is None {
                                Option::Some(d)
                            } else {
                                p.attacking
                            },
                            ..p
                        }
                    } else if key_code == 87 || key_code == 83 || key_code == 65 || key_code
                        == 68 {
                        let d: (i32, i32) = if key_code == 87 {
                            (0i32, -1i32)
                        } else if key_code == 83 {
                            (0i32, 1i32)
                        } else if key_code == 65 {
                            (-1i32, 0i32)
                        } else {
                            (1i32, 0i32)
                        };
                        if !old(self).spec_blocked(p.x + d.0, p.y + d.1) {
                            Object { x: (p.x + d.0) as i32, y: (p.y + d.1) as i32, ..p }
                        } else {
                            p
                        }
                    } else {
                        p
                    }
                }),
            ),
    {
        if !self.objects[PLAYER].alive {
            return false;
        }

        if key_code == 38 {
            let p = &mut self.objects[PLAYER];
            p.start_attacking(0, -1);
        } else if key_code == 40 {
            let p = &mut self.objects[PLAYER];
            p.start_attacking(0, 1);
        } else if key_code == 37 {
            let p = &mut self.objects[PLAYER];
            p.start_attacking(-1, 0);
        } else if key_code == 39 {
            let p = &mut self.objects[PLAYER];
            p.start_attacking(1, 0);
        } else if key_code == 87 {
            self.move_by(PLAYER, 0, -1);
        } else if key_code == 83 {
            self.move_by(PLAYER, 0, 1);
        } else if key_code == 65 {
            self.move_by(PLAYER, -1, 0);
        } else if key_code == 68 {
            self.move_by(PLAYER, 1, 0);
        }
        proof {
            if !(key_code == 38 || key_code == 40 || key_code == 37 || key_code == 39 || key_code
                == 87 || key_code == 83 || key_code == 65 || key_code == 68) {
                assert(self.objects@ =~= old(self).objects@.update(0, old(self).objects@[0]));
            }
            if key_code == 38 || key_code == 40 || key_code == 37 || key_code == 39 {
                assert(self.objects@ =~= old(self).objects@.update(0, self.objects@[0]));
            }
        }
        false
    }
}


/// A monster as room population places it: an orc or a troll with its fixed
/// stat block, alive and blocking, somewhere strictly inside the room.
pub open spec fn monster_wf(o: Object, room: Rect) -> bool {
    &&& o.alive
    &&& o.blocks
    &&& room.x1 < o.x < room.x2
    &&& room.y1 < o.y < room.y2
    &&& o.attacking is None
    &&& {
        ||| {
            &&& o.glyph == 'o'
            &&& o.name@ == "orc"@
            &&& o.fighter == Option::Some(
                Fighter { max_hp: 10, hp: 10, defense: 0, power: 3, mtype: 1 },
            )
            &&& o.ai == Option::Some(Ai { speed: 5 })
        }
        ||| {
            &&& o.glyph == 'T'
            &&& o.name@ == "troll"@
            &&& o.fighter == Option::Some(
                Fighter { max_hp: 16, hp: 16, defense: 1, power: 4, mtype: 2 },
            )
            &&& o.ai == Option::Some(Ai { speed: 8 })
        }
    }
}

/// The entity is a monster placed inside one of the rooms after the first.
pub open spec fn monster_placed(o: Object, rooms: Seq<Rect>) -> bool {
    exists|rr: int| 1 <= rr < rooms.len() && monster_wf(o, #[trigger] rooms[rr])
}

/// The exact monster that three generator draws from state `s` place in a
/// room: a column, a row, and a kind roll (an orc on rolls 0 to 3, a troll
/// on roll 4).  Every observable field is a function of `s` and the room.
pub open spec fn spawned_monster(s: u64, room: Rect, o: Object) -> bool {
    let x = pcg_range(s, room.x1 + 1, room.x2 as int);
    let s1 = pcg_step(s);
    let y = pcg_range(s1, room.y1 + 1, room.y2 as int);
    let s2 = pcg_step(s1);
    let roll = pcg_range(s2, 0, 5);
    &&& o.x == x
    &&& o.y == y
    &&& o.alive
    &&& o.blocks
    &&& o.attacking is None
    &&& if roll < 4 {
        &&& o.glyph == 'o'
        &&& o.color == spec_desaturated_green()
        &&& o.name@ == "orc"@
        &&& o.fighter == Option::Some(
            Fighter { max_hp: 10, hp: 10, defense: 0, power: 3, mtype: 1 },
        )
        &&& o.ai == Option::Some(Ai { speed: 5 })
    } else {
        &&& o.glyph == 'T'
        &&& o.color == spec_darker_green()
        &&& o.name@ == "troll"@
        &&& o.fighter == Option::Some(
            Fighter { max_hp: 16, hp: 16, defense: 1, power: 4, mtype: 2 },
        )
        &&& o.ai == Option::Some(Ai { speed: 8 })
    }
}

/// How many monsters a run of `place_objects` from state `s` appends.
pub open spec fn spawn_room_count(s: u64) -> int {
    pcg_range(s, 0, MAX_ROOM_MONSTERS as int + 1)
}

/// The generator state left after populating one room from state `s`: one
/// draw for the count and three per monster.
pub open spec fn spawn_room_rng(s: u64) -> u64 {
    pcg_steps(s, (1 + 3 * spawn_room_count(s)) as nat)
}

/// The generator state before room `i` is populated, starting from the
/// post-generation state `s` (rooms 1 to `i - 1` already populated, in
/// order; the first room never holds monsters).
pub open spec fn spawn_rng(s: u64, i: int) -> u64
    decreases i,
{
    if i <= 1 {
        s
    } else {
        spawn_room_rng(spawn_rng(s, i - 1))
    }
}

/// How many monsters stand in the entity list before room `i`'s own.
pub open spec fn spawn_count(s: u64, i: int) -> int
    decreases i,
{
    if i <= 1 {
        0
    } else {
        spawn_count(s, i - 1) + spawn_room_count(spawn_rng(s, i - 1))
    }
}

/// The world `Game::new(seed)` builds, every observable pinned as a
/// function of the seed: the map, the player at the first room's centre,
/// each room's monsters (count, cells, kinds, in room order), the welcome
/// log line, the tick counter and the generator's final state.
pub open spec fn world_from(g: Game, seed: u64) -> bool {
    let rng0 = pcg_step(seed);
    let s = map_gen(rng0).rng;
    let nrooms = g.map.rooms@.len() as int;
    &&& generated_from(g.map, rng0)
    &&& 1 <= nrooms <= MAX_ROOMS
    &&& g.objects@.len() == 1 + spawn_count(s, nrooms)
    &&& ({
        let p = g.objects@[0];
        &&& p.alive
        &&& p.name@ == "player"@
        &&& p.glyph == '@'
        &&& p.color == crate::colors::spec_white()
        &&& !p.blocks
        &&& p.fighter == Option::Some(
            Fighter { max_hp: 30, hp: 30, defense: 2, power: 5, mtype: 0 },
        )
        &&& p.ai is None
        &&& p.attacking is None
        &&& (p.x as int, p.y as int) == g.map.rooms@[0].spec_center()
    })
    &&& forall|ri: int, j: int|
        1 <= ri < nrooms && 0 <= j < spawn_room_count(spawn_rng(s, ri))
            ==> #[trigger] spawned_monster(
            pcg_steps(spawn_rng(s, ri), (1 + 3 * j) as nat),
            g.map.rooms@[ri],
            g.objects@[1 + spawn_count(s, ri) + j],
        )
    &&& g.rng.state == spawn_rng(s, nrooms)
    &&& g.messages.messages@.len() == 1
    &&& g.messages.messages@[0].0@
        == "Welcome stranger! Prepare to perish in the Tombs of the Ancient Kings."@
    &&& g.messages.messages@[0].1 == spec_red()
    &&& g.tick == 0
    &&& g.player.prev_position == (-1i32, -1i32)
    &&& g.player.attack_ticks == 0
}

/// Entities agree on every observable field.
pub open spec fn entity_obs_eq(a: Object, b: Object) -> bool {
    &&& a.x == b.x
    &&& a.y == b.y
    &&& a.glyph == b.glyph
    &&& a.color == b.color
    &&& a.name@ == b.name@
    &&& a.blocks == b.blocks
    &&& a.alive == b.alive
    &&& a.fighter == b.fighter
    &&& a.ai == b.ai
    &&& a.attacking == b.attacking
}

/// Room populations never shrink the running monster count.
proof fn lemma_spawn_count_nonneg(s: u64, i: int)
    ensures
        spawn_count(s, i) >= 0,
    decreases i,
{
    if i > 1 {
        lemma_spawn_count_nonneg(s, i - 1);
        crate::rng::lemma_pcg_range_bounds(spawn_rng(s, i - 1), 0, MAX_ROOM_MONSTERS as int + 1);
    }
}

/// A room's whole run of monsters sits below every later room's run.
proof fn lemma_spawn_count_mono(s: u64, a: int, b: int)
    requires
        1 <= a < b,
    ensures
        spawn_count(s, a) + spawn_room_count(spawn_rng(s, a)) <= spawn_count(s, b),
    decreases b,
{
    if b == a + 1 {
        assert(spawn_count(s, b) == spawn_count(s, b - 1) + spawn_room_count(
            spawn_rng(s, b - 1),
        ));
    } else {
        lemma_spawn_count_mono(s, a, b - 1);
        crate::rng::lemma_pcg_range_bounds(spawn_rng(s, b - 1), 0, MAX_ROOM_MONSTERS as int + 1);
        assert(spawn_count(s, b) == spawn_count(s, b - 1) + spawn_room_count(
            spawn_rng(s, b - 1),
        ));
    }
}

/// Every monster slot of a created world belongs to exactly one room's run
/// of monsters.
proof fn lemma_spawn_slot(s: u64, n: int, m: int)
    requires
        1 <= n,
        0 <= m < spawn_count(s, n),
    ensures
        exists|ri: int|
            1 <= ri < n && #[trigger] spawn_count(s, ri) <= m && m < spawn_count(s, ri)
                + spawn_room_count(spawn_rng(s, ri)),
    decreases n,
{
    if n <= 1 {
        assert(false);
    } else if m < spawn_count(s, n - 1) {
        lemma_spawn_slot(s, n - 1, m);
        let ri = choose|ri: int|
            1 <= ri < n - 1 && #[trigger] spawn_count(s, ri) <= m && m < spawn_count(s, ri)
                + spawn_room_count(spawn_rng(s, ri));
        assert(1 <= ri < n && spawn_count(s, ri) <= m && m < spawn_count(s, ri)
            + spawn_room_count(spawn_rng(s, ri)));
    } else {
        assert(spawn_count(s, n) == spawn_count(s, n - 1) + spawn_room_count(
            spawn_rng(s, n - 1),
        ));
        assert(1 <= n - 1 && spawn_count(s, n - 1) <= m && m < spawn_count(s, n - 1)
            + spawn_room_count(spawn_rng(s, n - 1)));
    }
}

/// Law: world creation is deterministic in the seed.  Two worlds created
/// from equal seeds have equal room lists and tile grids, observably equal
/// entity lists, equal logs, equal tick counters and equal generator
/// states.
pub proof fn lemma_worlds_deterministic(a: Game, b: Game, seed: u64)
    requires
        world_from(a, seed),
        world_from(b, seed),
    ensures
        a.map.rooms@ == b.map.rooms@,
        forall|x: int, y: int|
            0 <= x < MAP_WIDTH && 0 <= y < MAP_HEIGHT ==> a.map.spec_tile(x, y) == b.map.spec_tile(
                x,
                y,
            ),
        a.objects@.len() == b.objects@.len(),
        forall|k: int|
            0 <= k < a.objects@.len() ==> entity_obs_eq(
                #[trigger] a.objects@[k],
                #[trigger] b.objects@[k],
            ),
        a.messages.messages@.len() == b.messages.messages@.len(),
        a.messages.messages@[0].0@ == b.messages.messages@[0].0@,
        a.messages.messages@[0].1 == b.messages.messages@[0].1,
        a.rng == b.rng,
        a.tick == b.tick,
        a.player.prev_position == b.player.prev_position,
        a.player.attack_ticks == b.player.attack_ticks,
{
    let rng0 = pcg_step(seed);
    let s = map_gen(rng0).rng;
    crate::map::lemma_generation_deterministic(a.map, b.map, rng0);
    let nrooms = a.map.rooms@.len() as int;
    assert(b.map.rooms@.len() as int == nrooms);
    assert forall|k: int| 0 <= k < a.objects@.len() implies entity_obs_eq(
        #[trigger] a.objects@[k],
        #[trigger] b.objects@[k],
    ) by {
        if k >= 1 {
            lemma_spawn_slot(s, nrooms, k - 1);
            let ri = choose|ri: int|
                1 <= ri < nrooms && #[trigger] spawn_count(s, ri) <= k - 1 && k - 1 < spawn_count(
                    s,
                    ri,
                ) + spawn_room_count(spawn_rng(s, ri));
            let j = k - 1 - spawn_count(s, ri);
            assert(spawned_monster(
                pcg_steps(spawn_rng(s, ri), (1 + 3 * j) as nat),
                a.map.rooms@[ri],
                a.objects@[1 + spawn_count(s, ri) + j],
            ));
            assert(spawned_monster(
                pcg_steps(spawn_rng(s, ri), (1 + 3 * j) as nat),
                b.map.rooms@[ri],
                b.objects@[1 + spawn_count(s, ri) + j],
            ));
            assert(a.map.rooms@[ri] == b.map.rooms@[ri]);
        }
    }
}

/// Populate one room with zero to `MAX_ROOM_MONSTERS` monsters at random
/// interior cells; each is independently an orc (four chances in five) or a
/// troll.  The count, every monster's cell and kind, and the generator's
/// final state are functions of the entry state alone.
#[verifier::loop_isolation(false)]
fn place_objects(rng: &mut Pcg32, room: &Rect, objects: &mut Vec<Object>)
    requires
        room_in_grid(*room),
    ensures
        old(objects)@.len() <= final(objects)@.len() <= old(objects)@.len()
            + MAX_ROOM_MONSTERS,
        forall|k: int|
            0 <= k < old(objects)@.len() ==> #[trigger] final(objects)@[k] == old(objects)@[k],
        forall|k: int|
            old(objects)@.len() <= k < final(objects)@.len() ==> monster_wf(
                #[trigger] final(objects)@[k],
                *room,
            ) && obj_ok(final(objects)@[k]),
        final(objects)@.len() == old(objects)@.len() + spawn_room_count(old(rng).state),
        final(rng).state == spawn_room_rng(old(rng).state),
        forall|i: int|
            0 <= i < spawn_room_count(old(rng).state) ==> spawned_monster(
                pcg_steps(old(rng).state, (1 + 3 * i) as nat),
                *room,
                #[trigger] final(objects)@[old(objects)@.len() + i],
            ),
{
    proof {
        reveal_strlit("orc");
        reveal_strlit("troll");
    }
    let ghost s0 = rng.state;
    let num_monsters = rng.gen_range(0, MAX_ROOM_MONSTERS + 1);
    proof {
        lemma_pcg_steps_snoc(s0, 0);
        assert(rng.state == pcg_steps(s0, 1));
    }
    let mut placed: i32 = 0;
    while placed < num_monsters
        invariant
            0 <= placed <= num_monsters,
            num_monsters == spawn_room_count(s0),
            rng.state == pcg_steps(s0, (1 + 3 * placed) as nat),
            old(objects)@.len() <= objects@.len() == old(objects)@.len() + placed,
            forall|k: int|
                0 <= k < old(objects)@.len() ==> #[trigger] objects@[k] == old(objects)@[k],
            forall|k: int|
                old(objects)@.len() <= k < objects@.len() ==> monster_wf(
                    #[trigger] objects@[k],
                    *room,
                ) && obj_ok(objects@[k]),
            forall|i: int|
                0 <= i < placed ==> spawned_monster(
                    pcg_steps(s0, (1 + 3 * i) as nat),
                    *room,
                    #[trigger] objects@[old(objects)@.len() + i],
                ),
        decreases num_monsters - placed,
    {
        let x = rng.gen_range(room.x1 + 1, room.x2);
        let y = rng.gen_range(room.y1 + 1, room.y2);

        let roll = rng.gen_range(0, 5);
        let mut monster = if roll < 4 {
            let mut orc = Object::new(x, y, 'o', desaturated_green(), "orc", true);
            orc.fighter = Option::Some(
                Fighter { max_hp: 10, hp: 10, defense: 0, power: 3, mtype: 1 },
            );
            orc.ai = Option::Some(Ai { speed: 5 });
            orc
        } else {
            let mut troll = Object::new(x, y, 'T', darker_green(), "troll", true);
            troll.fighter = Option::Some(
                Fighter { max_hp: 16, hp: 16, defense: 1, power: 4, mtype: 2 },
            );
            troll.ai = Option::Some(Ai { speed: 8 });
            troll
        };

        monster.alive = true;
        objects.push(monster);
        proof {
            lemma_pcg_steps_snoc(s0, (1 + 3 * placed) as nat);
            lemma_pcg_steps_snoc(s0, (1 + 3 * placed + 1) as nat);
            lemma_pcg_steps_snoc(s0, (1 + 3 * placed + 2) as nat);
            assert((1 + 3 * placed + 1) as nat == (1 + 3 * placed) as nat + 1);
            assert((1 + 3 * placed + 2) as nat == (1 + 3 * placed + 1) as nat + 1);
            assert((1 + 3 * (placed + 1)) as nat == (1 + 3 * placed + 2) as nat + 1);
            assert(spawned_monster(
                pcg_steps(s0, (1 + 3 * placed) as nat),
                *room,
                objects@[old(objects)@.len() + placed],
            ));
        }
        placed = placed + 1;
    }
}

impl Game {
    /// Create a freshly generated world from a seed: generate the dungeon,
    /// seed the visibility grid from it, put the player at the centre of
    /// the first room, populate every later room with monsters, and log the
    /// welcome line.  The map is a function of the seed alone.
    #[verifier::loop_isolation(false)]
    #[verifier::rlimit(60)]
    pub fn new(seed: u64) -> (g: Game)
        ensures
            g.wf(),
            g.tick == 0,
            g.player.prev_position == (-1i32, -1i32),
            g.player.attack_ticks == 0,
            generated_from(g.map, pcg_step(seed)),
            g.map.rooms@.len() >= 1,
            ({
                let p = g.objects@[0];
                &&& p.alive
                &&& p.name@ == "player"@
                &&& p.glyph == '@'
                &&& !p.blocks
                &&& p.fighter == Option::Some(
                    Fighter { max_hp: 30, hp: 30, defense: 2, power: 5, mtype: 0 },
                )
                &&& p.ai is None
                &&& p.attacking is None
                &&& (p.x as int, p.y as int) == g.map.rooms@[0].spec_center()
            }),
            forall|k: int|
                1 <= k < g.objects@.len() ==> monster_placed(
                    #[trigger] g.objects@[k],
                    g.map.rooms@,
                ),
            forall|x: int, y: int|
                0 <= x < MAP_WIDTH && 0 <= y < MAP_HEIGHT ==> g.fov.cells@[x + y * MAP_WIDTH]
                    == (Cell {
                    transparent: !g.map.spec_tile(x, y).block_sight,
                    walkable: !g.map.spec_tile(x, y).blocked,
                    fov: false,
                }),
            g.messages.messages@.len() == 1,
            g.messages.messages@[0].0@
                == "Welcome stranger! Prepare to perish in the Tombs of the Ancient Kings."@,
            g.messages.messages@[0].1 == spec_red(),
            world_from(g, seed),
    {
        let mut rng = Pcg32::new(seed);

        let mut player = Object::new(0, 0, '@', white(), "player", false);
        player.alive = true;
        player.fighter = Option::Some(
            Fighter { max_hp: 30, hp: 30, defense: 2, power: 5, mtype: 0 },
        );
        proof {
            reveal_strlit("player");
        }

        let map = GameMap::new(&mut rng);
        let ghost rng0 = pcg_step(seed);
        let mut objects: Vec<Object> = Vec::new();
        objects.push(player);
        let mut game = Game {
            map,
            messages: Messages::new(),
            fov: FOV::new(MAP_WIDTH, MAP_HEIGHT),
            objects,
            rng,
            tick: 0,
            player: Player { prev_position: (-1, -1), attack_ticks: 0 },
        };

        // Seed the visibility grid from the generated map, cell by cell in
        // offset order.
        let ghost g0 = game;
        let mut y: i32 = 0;
        while y < MAP_HEIGHT
            invariant
                0 <= y <= MAP_HEIGHT,
                game == (Game { fov: game.fov, ..g0 }),
                game.fov.wf(),
                game.fov.w == MAP_WIDTH,
                game.fov.h == MAP_HEIGHT,
                forall|i: int|
                    0 <= i < y * MAP_WIDTH ==> #[trigger] game.fov.cells@[i] == (Cell {
                        transparent: !g0.map.spec_tile(i % (MAP_WIDTH as int), i / (MAP_WIDTH as int)).block_sight,
                        walkable: !g0.map.spec_tile(i % (MAP_WIDTH as int), i / (MAP_WIDTH as int)).blocked,
                        fov: false,
                    }),
                forall|i: int|
                    y * MAP_WIDTH <= i < MAP_WIDTH * MAP_HEIGHT ==> #[trigger] game.fov.cells@[i]
                        == (Cell { transparent: false, walkable: false, fov: false }),
            decreases MAP_HEIGHT - y,
        {
            let mut x: i32 = 0;
            while x < MAP_WIDTH
                invariant
                    0 <= y < MAP_HEIGHT,
                    0 <= x <= MAP_WIDTH,
                    game == (Game { fov: game.fov, ..g0 }),
                    game.fov.wf(),
                    game.fov.w == MAP_WIDTH,
                    game.fov.h == MAP_HEIGHT,
                    forall|i: int|
                        0 <= i < y * MAP_WIDTH + x ==> #[trigger] game.fov.cells@[i] == (Cell {
                            transparent: !g0.map.spec_tile(i % (MAP_WIDTH as int), i / (MAP_WIDTH as int)).block_sight,
                            walkable: !g0.map.spec_tile(i % (MAP_WIDTH as int), i / (MAP_WIDTH as int)).blocked,
                            fov: false,
                        }),
                    forall|i: int|
                        y * MAP_WIDTH + x <= i < MAP_WIDTH * MAP_HEIGHT ==> #[trigger] game.fov
                            .cells@[i] == (Cell { transparent: false, walkable: false, fov: false }),
                decreases MAP_WIDTH - x,
            {
                let t = *game.map.tile_at(x, y);
                game.fov.set(x, y, !t.block_sight, !t.blocked);
                proof {
                    crate::fov::lemma_off_inverse(MAP_WIDTH as int, x as int, y as int);
                }
                x = x + 1;
            }
            y = y + 1;
        }

        // Spawn the player at the centre of the first room, then populate
        // every later room with monsters.
        let (px, py) = game.map.rooms[0].center();
        proof {
            let r0 = game.map.rooms@[0];
            vstd::arithmetic::div_mod::lemma_div_is_ordered(
                2 * r0.x1 + 6,
                r0.x1 + r0.x2,
                2,
            );
            vstd::arithmetic::div_mod::lemma_div_is_ordered(
                r0.x1 + r0.x2,
                2 * (MAP_WIDTH as int) - 4,
                2,
            );
            vstd::arithmetic::div_mod::lemma_div_is_ordered(
                2 * r0.y1 + 6,
                r0.y1 + r0.y2,
                2,
            );
            vstd::arithmetic::div_mod::lemma_div_is_ordered(
                r0.y1 + r0.y2,
                2 * (MAP_HEIGHT as int) - 4,
                2,
            );
            assert(1 <= px < MAP_WIDTH - 1 && 1 <= py < MAP_HEIGHT - 1);
        }
        {
            let p = &mut game.objects[PLAYER];
            p.set_pos(px, py);
        }

        let ghost g1 = game;
        let ghost sgen = game.rng.state;
        let mut ri: usize = 1;
        while ri < game.map.rooms.len()
            invariant
                1 <= ri <= game.map.rooms@.len(),
                game == (Game { objects: game.objects, rng: game.rng, ..g1 }),
                game.objects@.len() >= 1,
                game.objects@.len() <= 1 + 2 * (ri - 1),
                game.map.rooms@.len() <= MAX_ROOMS,
                game.objects@[0] == g1.objects@[0],
                game.rng.state == spawn_rng(sgen, ri as int),
                game.objects@.len() == 1 + spawn_count(sgen, ri as int),
                forall|k: int|
                    1 <= k < game.objects@.len() ==> monster_placed(
                        #[trigger] game.objects@[k],
                        game.map.rooms@,
                    ),
                forall|rr: int, j: int|
                    1 <= rr < ri && 0 <= j < spawn_room_count(spawn_rng(sgen, rr))
                        ==> #[trigger] spawned_monster(
                        pcg_steps(spawn_rng(sgen, rr), (1 + 3 * j) as nat),
                        game.map.rooms@[rr],
                        game.objects@[1 + spawn_count(sgen, rr) + j],
                    ),
            decreases game.map.rooms@.len() - ri,
        {
            let room = game.map.rooms[ri];
            let ghost pre_objs = game.objects@;
            place_objects(&mut game.rng, &room, &mut game.objects);
            proof {
                assert(spawn_rng(sgen, ri as int + 1) == spawn_room_rng(spawn_rng(sgen, ri as int)));
                assert(spawn_count(sgen, ri as int + 1) == spawn_count(sgen, ri as int)
                    + spawn_room_count(spawn_rng(sgen, ri as int)));
                assert forall|rr: int, j: int|
                    1 <= rr < ri as int + 1 && 0 <= j < spawn_room_count(spawn_rng(sgen, rr))
                        implies #[trigger] spawned_monster(
                    pcg_steps(spawn_rng(sgen, rr), (1 + 3 * j) as nat),
                    game.map.rooms@[rr],
                    game.objects@[1 + spawn_count(sgen, rr) + j],
                ) by {
                    if rr < ri as int {
                        assert(spawned_monster(
                            pcg_steps(spawn_rng(sgen, rr), (1 + 3 * j) as nat),
                            game.map.rooms@[rr],
                            pre_objs[1 + spawn_count(sgen, rr) + j],
                        ));
                        lemma_spawn_count_mono(sgen, rr, ri as int);
                        lemma_spawn_count_nonneg(sgen, rr);
                        assert(1 + spawn_count(sgen, rr) + j < pre_objs.len());
                        assert(game.objects@[1 + spawn_count(sgen, rr) + j] == pre_objs[1
                            + spawn_count(sgen, rr) + j]);
                    } else {
                        assert(spawned_monster(
                            pcg_steps(spawn_rng(sgen, rr), (1 + 3 * j) as nat),
                            room,
                            game.objects@[pre_objs.len() + j],
                        ));
                        assert(pre_objs.len() as int == 1 + spawn_count(sgen, rr));
                    }
                }
                assert forall|k: int| 1 <= k < game.objects@.len() implies monster_placed(
                    #[trigger] game.objects@[k],
                    game.map.rooms@,
                ) by {
                    if k < pre_objs.len() {
                        assert(game.objects@[k] == pre_objs[k]);
                        assert(monster_placed(pre_objs[k], game.map.rooms@));
                    } else {
                        assert(monster_wf(game.objects@[k], room));
                        assert(game.map.rooms@[ri as int] == room);
                        assert(monster_placed(game.objects@[k], game.map.rooms@));
                    }
                }
            }
            ri = ri + 1;
        }

        proof {
            reveal_strlit("Welcome stranger! Prepare to perish in the Tombs of the Ancient Kings.");
        }
        let ghost pre_add = game;
        game.messages.add(
            "Welcome stranger! Prepare to perish in the Tombs of the Ancient Kings.".to_owned(),
            red(),
        );

        proof {
            assert forall|x: int, yy: int|
                0 <= x < MAP_WIDTH && 0 <= yy < MAP_HEIGHT && (x == 0 || x == MAP_WIDTH - 1 || yy
                    == 0 || yy == MAP_HEIGHT - 1) implies (#[trigger] game.map.spec_tile(
                x,
                yy,
            )).blocked by {
                crate::map::lemma_border_cells_walled(game.map, rng0, x, yy);
            }
            reveal_strlit("orc");
            reveal_strlit("troll");
            reveal_strlit("player");
            assert forall|k: int| 0 <= k < game.objects@.len() implies {
                &&& obj_ok(#[trigger] game.objects@[k])
                &&& 1 <= game.objects@[k].x < MAP_WIDTH - 1
                &&& 1 <= game.objects@[k].y < MAP_HEIGHT - 1
                &&& (game.objects@[k].alive && game.objects@[k].fighter is Some
                    ==> game.objects@[k].fighter.unwrap().hp >= 1)
                &&& (game.objects@[k].attacking is Some ==> {
                    let d = game.objects@[k].attacking.unwrap();
                    -1 <= d.0 <= 1 && -1 <= d.1 <= 1
                })
            } by {
                if k >= 1 {
                    assert(monster_placed(game.objects@[k], game.map.rooms@));
                    let rr = choose|rr: int|
                        1 <= rr < game.map.rooms@.len() && monster_wf(
                            game.objects@[k],
                            #[trigger] game.map.rooms@[rr],
                        );
                    assert(room_in_grid(game.map.rooms@[rr]));
                }
            }
            assert forall|x: int, yy: int|
                0 <= x < MAP_WIDTH && 0 <= yy < MAP_HEIGHT implies #[trigger] game.fov.cells@[x
                + yy * MAP_WIDTH] == (Cell {
                transparent: !game.map.spec_tile(x, yy).block_sight,
                walkable: !game.map.spec_tile(x, yy).blocked,
                fov: false,
            }) by {
                crate::fov::lemma_off_bounds(MAP_WIDTH as int, MAP_HEIGHT as int, x, yy);
                crate::fov::lemma_off_inverse(MAP_WIDTH as int, x, yy);
            }
        }
        game
    }
}


impl Game {
    /// Advance the world one tick, in fixed order: refresh visibility if
    /// the viewer moved since the last refresh (edge-triggered on the
    /// recorded previous position); let every non-player entity with
    /// behaviour act in increasing index order (`monsters_phase`, skipped
    /// wholesale once the player is dead); resolve the player's pending
    /// directional attack against every alive entity on the targeted cell
    /// (`attack_resolution`), clearing the intent after its five-tick
    /// window; and count the tick.  The player never moves during a tick,
    /// the map is untouched, and the log only grows.
    #[verifier::loop_isolation(false)]
    #[verifier::rlimit(60)]
    pub fn update(&mut self)
        requires
            old(self).wf(),
            old(self).tick < u64::MAX,
        ensures
            final(self).wf(),
            final(self).tick == old(self).tick + 1,
            final(self).map == old(self).map,
            final(self).rng == old(self).rng,
            final(self).objects@.len() == old(self).objects@.len(),
            final(self).objects@[0].x == old(self).objects@[0].x,
            final(self).objects@[0].y == old(self).objects@[0].y,
            final(self).player.prev_position == (
                old(self).objects@[0].x,
                old(self).objects@[0].y,
            ),
            msgs_extend(old(self).messages.messages@, final(self).messages.messages@),
            forall|k: int|
                1 <= k < old(self).objects@.len() ==> {
                    let a = #[trigger] old(self).objects@[k];
                    let b = final(self).objects@[k];
                    -1 <= b.x - a.x <= 1 && -1 <= b.y - a.y <= 1
                },
            ({
                let p = old(self).objects@[0];
                if old(self).player.prev_position != (p.x, p.y) {
                    &&& final(self).fov.wf()
                    &&& final(self).fov.w == old(self).fov.w
                    &&& final(self).fov.h == old(self).fov.h
                    &&& forall|i: int|
                        0 <= i < old(self).fov.cells@.len() ==> #[trigger] final(self).fov.cells@[i]
                            == (Cell {
                            fov: fov_model(
                                old(self).fov.cells@,
                                MAP_WIDTH as int,
                                MAP_HEIGHT as int,
                                p.x,
                                p.y,
                                TORCH_RADIUS,
                                FOV_LIGHT_WALLS,
                                i,
                            ),
                            ..old(self).fov.cells@[i]
                        })
                } else {
                    final(self).fov == old(self).fov
                }
            }),
            ({
                let p = old(self).objects@[0];
                match p.attacking {
                    Option::Some(_) => final(self).player.attack_ticks == (
                    if old(self).player.attack_ticks + 1 >= 5 {
                        0int
                    } else {
                        old(self).player.attack_ticks + 1
                    }) && final(self).objects@[0].attacking == (
                    if old(self).player.attack_ticks + 1 >= 5 {
                        Option::<(i32, i32)>::None
                    } else {
                        p.attacking
                    }),
                    Option::None => final(self).player.attack_ticks == old(
                        self,
                    ).player.attack_ticks && final(self).objects@[0].attacking is None,
                }
            }),
            exists|o1: Seq<Object>, m1: Seq<(String, Color)>|
                {
                    &&& #[trigger] monsters_phase(*old(self), final(self).fov, o1, m1)
                    &&& match o1[0].attacking {
                        Option::Some(d) => exists|o2: Seq<Object>|
                            {
                                &&& #[trigger] attack_resolution(
                                    o1[0].x,
                                    o1[0].y,
                                    d.0,
                                    d.1,
                                    o1,
                                    m1,
                                    o2,
                                    final(self).messages.messages@,
                                )
                                &&& final(self).objects@ == (if old(self).player.attack_ticks + 1
                                    >= 5 {
                                    o2.update(0, Object { attacking: Option::None, ..o2[0] })
                                } else {
                                    o2
                                })
                            },
                        Option::None => final(self).objects@ == o1 && final(self).messages.messages@
                            == m1,
                    }
                },
    {
        // Refresh the visibility grid if the viewer moved since the last
        // refresh, then re-arm the edge trigger.
        let pos = self.objects[PLAYER].pos();
        if self.player.prev_position.0 != pos.0 || self.player.prev_position.1 != pos.1 {
            self.fov.compute_fov(pos.0, pos.1, TORCH_RADIUS, FOV_LIGHT_WALLS);
        }
        self.player.prev_position = pos;

        let ghost g1 = *self;
        let ghost mut trace_o: Seq<Seq<Object>> = seq![g1.objects@];
        let ghost mut trace_m: Seq<Seq<(String, Color)>> = seq![g1.messages.messages@];

        // Non-player action phase, in stable index order.
        if self.objects[PLAYER].alive {
            let mut id: usize = 1;
            while id < self.objects.len()
                invariant
                    1 <= id <= self.objects@.len(),
                    self.wf(),
                    self.objects@.len() == g1.objects@.len(),
                    self.tick == g1.tick,
                    self.map == g1.map,
                    self.fov == g1.fov,
                    self.rng == g1.rng,
                    self.player == g1.player,
                    self.objects@[0].x == g1.objects@[0].x,
                    self.objects@[0].y == g1.objects@[0].y,
                    self.objects@[0].attacking == g1.objects@[0].attacking,
                    msgs_extend(g1.messages.messages@, self.messages.messages@),
                    forall|k: int|
                        id <= k < self.objects@.len() ==> #[trigger] self.objects@[k]
                            == g1.objects@[k],
                    forall|k: int|
                        1 <= k < id ==> {
                            let a = #[trigger] g1.objects@[k];
                            let b = self.objects@[k];
                            -1 <= b.x - a.x <= 1 && -1 <= b.y - a.y <= 1
                        },
                    trace_o.len() == id,
                    trace_m.len() == id,
                    trace_o[0] == g1.objects@,
                    trace_m[0] == g1.messages.messages@,
                    trace_o.last() == self.objects@,
                    trace_m.last() == self.messages.messages@,
                    ai_steps_ok(g1.tick, g1.fov, g1.map, trace_o, trace_m),
                decreases self.objects@.len() - id,
            {
                let ghost pre = *self;
                let ai = self.objects[id].ai;
                match ai {
                    Option::Some(a) => {
                        a.action(id, self);
                        proof {
                            crate::object::lemma_extend_trans(
                                g1.messages.messages@,
                                pre.messages.messages@,
                                self.messages.messages@,
                            );
                        }
                    },
                    Option::None => {},
                }
                proof {
                    trace_o = trace_o.push(self.objects@);
                    trace_m = trace_m.push(self.messages.messages@);
                    assert(ai_steps_ok(g1.tick, g1.fov, g1.map, trace_o, trace_m)) by {
                        assert(trace_o[id as int - 1] == pre.objects@);
                        assert forall|i: int| 1 <= i < trace_o.len() implies {
                            let prev_o = #[trigger] trace_o[i - 1];
                            let prev_m = trace_m[i - 1];
                            match prev_o[i].ai {
                                Option::Some(a2) => action_step(
                                    a2.speed,
                                    i,
                                    g1.tick,
                                    g1.fov,
                                    g1.map,
                                    prev_o,
                                    prev_m,
                                    trace_o[i],
                                    trace_m[i],
                                ),
                                Option::None => trace_o[i] == prev_o && trace_m[i] == prev_m,
                            }
                        } by {
                            if i < id as int {
                                assert(trace_o[i - 1] == trace_o.drop_last()[i - 1]);
                                assert(trace_o[i] == trace_o.drop_last()[i]);
                                assert(trace_m[i - 1] == trace_m.drop_last()[i - 1]);
                                assert(trace_m[i] == trace_m.drop_last()[i]);
                            }
                        }
                    }
                }
                id = id + 1;
            }
        }

        let ghost g2 = *self;

        // Player attack resolution phase: the pending directional attack
        // hits every alive entity on the targeted cell; the intent clears
        // after its five-tick window.
        match self.objects[PLAYER].attacking {
            Option::Some((ax, ay)) => {
                let (px, py) = self.objects[PLAYER].pos();
                let ghost mut atrace_o: Seq<Seq<Object>> = seq![g2.objects@];
                let ghost mut atrace_m: Seq<Seq<(String, Color)>> = seq![g2.messages.messages@];
                let mut id: usize = 1;
                while id < self.objects.len()
                    invariant
                        1 <= id <= self.objects@.len(),
                        self.wf(),
                        self.objects@.len() == g2.objects@.len(),
                        self.tick == g2.tick,
                        self.map == g2.map,
                        self.fov == g2.fov,
                        self.rng == g2.rng,
                        self.player == g2.player,
                        self.objects@[0].x == g2.objects@[0].x,
                        self.objects@[0].y == g2.objects@[0].y,
                        self.objects@[0].attacking == g2.objects@[0].attacking,
                        msgs_extend(g2.messages.messages@, self.messages.messages@),
                        forall|k: int|
                            1 <= k < self.objects@.len() ==> (#[trigger] self.objects@[k]).x
                                == g2.objects@[k].x && self.objects@[k].y == g2.objects@[k].y,
                        atrace_o.len() == id,
                        atrace_m.len() == id,
                        atrace_o[0] == g2.objects@,
                        atrace_m[0] == g2.messages.messages@,
                        atrace_o.last() == self.objects@,
                        atrace_m.last() == self.messages.messages@,
                        attack_steps_ok(px, py, ax, ay, atrace_o, atrace_m),
                    decreases self.objects@.len() - id,
                {
                    let ghost pre = *self;
                    if self.objects[id].alive {
                        let (x, y) = self.objects[id].pos();
                        let dx = px + ax - x;
                        let dy = py + ay - y;

                        if dx == 0 && dy == 0 {
                            let (target, source) = mut_two(id, PLAYER, &mut self.objects);
                            source.attack(target, &mut self.messages);
                            proof {
                                assert(self.objects@ =~= pre.objects@.update(
                                    id as int,
                                    self.objects@[id as int],
                                ));
                                lemma_attack_msgs_extend(
                                    pre.objects@[0],
                                    pre.objects@[id as int],
                                    self.objects@[id as int],
                                    pre.messages.messages@,
                                    self.messages.messages@,
                                );
                                crate::object::lemma_extend_trans(
                                    g2.messages.messages@,
                                    pre.messages.messages@,
                                    self.messages.messages@,
                                );
                            }
                        }
                    }
                    proof {
                        atrace_o = atrace_o.push(self.objects@);
                        atrace_m = atrace_m.push(self.messages.messages@);
                        assert(attack_steps_ok(px, py, ax, ay, atrace_o, atrace_m)) by {
                            assert(atrace_o[id as int - 1] == pre.objects@);
                            assert forall|i: int| 1 <= i < atrace_o.len() implies {
                                let prev_o = #[trigger] atrace_o[i - 1];
                                let prev_m = atrace_m[i - 1];
                                let t = prev_o[i];
                                if t.alive && px + ax == t.x && py + ay == t.y {
                                    &&& atrace_o[i].len() == prev_o.len()
                                    &&& forall|k: int|
                                        0 <= k < prev_o.len() && k != i
                                            ==> #[trigger] atrace_o[i][k] == prev_o[k]
                                    &&& attack_transition(
                                        prev_o[0],
                                        t,
                                        atrace_o[i][i],
                                        prev_m,
                                        atrace_m[i],
                                    )
                                } else {
                                    atrace_o[i] == prev_o && atrace_m[i] == prev_m
                                }
                            } by {
                                if i < id as int {
                                    assert(atrace_o[i - 1] == atrace_o.drop_last()[i - 1]);
                                    assert(atrace_o[i] == atrace_o.drop_last()[i]);
                                    assert(atrace_m[i - 1] == atrace_m.drop_last()[i - 1]);
                                    assert(atrace_m[i] == atrace_m.drop_last()[i]);
                                }
                            }
                        }
                    }
                    id = id + 1;
                }

                proof {
                    assert(attack_resolution(
                        px,
                        py,
                        ax,
                        ay,
                        g2.objects@,
                        g2.messages.messages@,
                        self.objects@,
                        self.messages.messages@,
                    ));
                }
                let ghost g3 = *self;
                self.player.attack_ticks = self.player.attack_ticks + 1;
                if self.player.attack_ticks >= 5 {
                    self.player.attack_ticks = 0;
                    let p = &mut self.objects[PLAYER];
                    p.stop_attacking();
                    proof {
                        assert(self.objects@ =~= g3.objects@.update(
                            0,
                            Object { attacking: Option::None, ..g3.objects@[0] },
                        ));
                    }
                }
            },
            Option::None => {},
        }

        self.tick = self.tick + 1;
        proof {
            crate::object::lemma_extend_trans(
                old(self).messages.messages@,
                g1.messages.messages@,
                self.messages.messages@,
            );
            if old(self).objects@[0].alive {
                assert(ai_steps_ok(
                    old(self).tick,
                    self.fov,
                    old(self).map,
                    trace_o,
                    trace_m,
                ));
            }
            assert(monsters_phase(*old(self), self.fov, g2.objects@, g2.messages.messages@));
        }
    }
}


/// Whether the cell is impassable for the given map and entity list: a
/// blocked map tile, or any blocking entity standing on it.
pub open spec fn blocked_in(map: GameMap, objs: Seq<Object>, x: int, y: int) -> bool {
    ||| map.spec_tile(x, y).blocked
    ||| exists|k: int|
        0 <= k < objs.len() && (#[trigger] objs[k]).blocks && objs[k].x == x && objs[k].y == y
}

/// The snapshots of the non-player action phase, in index order:
/// `to[i]`/`tm[i]` are the entity list and the log after the entities with
/// indices up to `i` have had their turn, so entity `i` (for `1 <= i`)
/// steps the world from snapshot `i - 1` to snapshot `i` — the deliberate
/// increasing-index tie-break for simultaneous actions.  Entities without
/// behaviour change nothing.
pub open spec fn ai_steps_ok(
    tick: u64,
    fv: FOV,
    map: GameMap,
    to: Seq<Seq<Object>>,
    tm: Seq<Seq<(String, Color)>>,
) -> bool {
    &&& to.len() == tm.len()
    &&& forall|i: int|
        1 <= i < to.len() ==> {
            let prev_o = #[trigger] to[i - 1];
            let prev_m = tm[i - 1];
            match prev_o[i].ai {
                Option::Some(a) => action_step(
                    a.speed,
                    i,
                    tick,
                    fv,
                    map,
                    prev_o,
                    prev_m,
                    to[i],
                    tm[i],
                ),
                Option::None => to[i] == prev_o && tm[i] == prev_m,
            }
        }
}

/// The whole non-player action phase of one tick: skipped wholesale when
/// the player is dead; otherwise some chain of snapshots, one per entity
/// index, steps the world from the tick's start to `post_o`/`post_m`
/// against the freshly refreshed visibility grid.
pub open spec fn monsters_phase(
    pre: Game,
    fv: FOV,
    post_o: Seq<Object>,
    post_m: Seq<(String, Color)>,
) -> bool {
    if pre.objects@[0].alive {
        exists|to: Seq<Seq<Object>>, tm: Seq<Seq<(String, Color)>>|
            {
                &&& #[trigger] ai_steps_ok(pre.tick, fv, pre.map, to, tm)
                &&& to.len() == pre.objects@.len()
                &&& to[0] == pre.objects@
                &&& tm[0] == pre.messages.messages@
                &&& to.last() == post_o
                &&& tm.last() == post_m
            }
    } else {
        post_o == pre.objects@ && post_m == pre.messages.messages@
    }
}

/// Along an idle action phase the snapshots never change.
proof fn lemma_idle_trace(
    tick: u64,
    fv: FOV,
    map: GameMap,
    to: Seq<Seq<Object>>,
    tm: Seq<Seq<(String, Color)>>,
    n: int,
)
    requires
        ai_steps_ok(tick, fv, map, to, tm),
        0 <= n < to.len(),
        forall|k: int|
            1 <= k < to.len() ==> ((#[trigger] to[0][k]).ai is None || !fv.visible(
                to[0][k].x as int,
                to[0][k].y as int,
            )),
    ensures
        to[n] == to[0],
        tm[n] == tm[0],
    decreases n,
{
    if n > 0 {
        lemma_idle_trace(tick, fv, map, to, tm, n - 1);
        assert(to[n - 1] == to[0]);
        match to[n - 1][n].ai {
            Option::Some(a) => {
                assert(!fv.visible(to[0][n].x as int, to[0][n].y as int));
            },
            Option::None => {},
        }
    }
}

/// Law: entities that are out of the viewer's sight (or carry no
/// behaviour) rest.  If no monster's cell is inside the visible set, the
/// whole action phase changes nothing — in particular the player's fighter
/// is untouched by such a tick.
pub proof fn lemma_unseen_monsters_rest(
    pre: Game,
    fv: FOV,
    o1: Seq<Object>,
    m1: Seq<(String, Color)>,
)
    requires
        pre.objects@.len() >= 1,
        monsters_phase(pre, fv, o1, m1),
        forall|k: int|
            1 <= k < pre.objects@.len() ==> ((#[trigger] pre.objects@[k]).ai is None
                || !fv.visible(pre.objects@[k].x as int, pre.objects@[k].y as int)),
    ensures
        o1 == pre.objects@,
        m1 == pre.messages.messages@,
{
    if pre.objects@[0].alive {
        let (to, tm) = choose|to: Seq<Seq<Object>>, tm: Seq<Seq<(String, Color)>>|
            {
                &&& #[trigger] ai_steps_ok(pre.tick, fv, pre.map, to, tm)
                &&& to.len() == pre.objects@.len()
                &&& to[0] == pre.objects@
                &&& tm[0] == pre.messages.messages@
                &&& to.last() == o1
                &&& tm.last() == m1
            };
        lemma_idle_trace(pre.tick, fv, pre.map, to, tm, to.len() - 1);
    }
}

/// The snapshots of the player's attack resolution, in index order: entity
/// `i` (for `1 <= i`) steps the world from snapshot `i - 1` to snapshot
/// `i`; an alive entity standing on the targeted cell `(px + ax, py + ay)`
/// takes exactly one hit from the player (the entity at index 0), anything
/// else changes nothing.
pub open spec fn attack_steps_ok(
    px: i32,
    py: i32,
    ax: i32,
    ay: i32,
    to: Seq<Seq<Object>>,
    tm: Seq<Seq<(String, Color)>>,
) -> bool {
    &&& to.len() == tm.len()
    &&& forall|i: int|
        1 <= i < to.len() ==> {
            let prev_o = #[trigger] to[i - 1];
            let prev_m = tm[i - 1];
            let t = prev_o[i];
            if t.alive && px + ax == t.x && py + ay == t.y {
                &&& to[i].len() == prev_o.len()
                &&& forall|k: int|
                    0 <= k < prev_o.len() && k != i ==> #[trigger] to[i][k] == prev_o[k]
                &&& attack_transition(prev_o[0], t, to[i][i], prev_m, tm[i])
            } else {
                to[i] == prev_o && tm[i] == prev_m
            }
        }
}

/// The whole attack-resolution phase for a pending intent `(ax, ay)` of a
/// player standing at `(px, py)`: some chain of snapshots, one per entity
/// index, steps the world from `pre_o`/`pre_m` to `post_o`/`post_m`.
pub open spec fn attack_resolution(
    px: i32,
    py: i32,
    ax: i32,
    ay: i32,
    pre_o: Seq<Object>,
    pre_m: Seq<(String, Color)>,
    post_o: Seq<Object>,
    post_m: Seq<(String, Color)>,
) -> bool {
    exists|to: Seq<Seq<Object>>, tm: Seq<Seq<(String, Color)>>|
        {
            &&& #[trigger] attack_steps_ok(px, py, ax, ay, to, tm)
            &&& to.len() == pre_o.len()
            &&& to[0] == pre_o
            &&& tm[0] == pre_m
            &&& to.last() == post_o
            &&& tm.last() == post_m
        }
}

/// The entity stands on the queried cell and is currently visible.
pub open spec fn name_match(o: Object, fv: FOV, x: int, y: int) -> bool {
    o.x == x && o.y == y && fv.visible(o.x as int, o.y as int)
}

/// The comma-separated names of the matching entities from index `k` on;
/// `first` tells whether a separator is still owed before the next name.
pub open spec fn names_text_from(
    objs: Seq<Object>,
    fv: FOV,
    x: int,
    y: int,
    k: int,
    first: bool,
) -> Seq<char>
    decreases objs.len() - k,
{
    if k < 0 || k >= objs.len() {
        Seq::empty()
    } else if name_match(objs[k], fv, x, y) {
        (if first {
            Seq::<char>::empty()
        } else {
            ", "@
        }) + objs[k].name@ + names_text_from(objs, fv, x, y, k + 1, false)
    } else {
        names_text_from(objs, fv, x, y, k + 1, first)
    }
}

/// The tail of the name listing is short: each entity contributes its name
/// and at most one separator.
proof fn lemma_names_text_len(objs: Seq<Object>, fv: FOV, x: int, y: int, k: int, first: bool)
    requires
        forall|i: int| 0 <= i < objs.len() ==> (#[trigger] objs[i]).name@.len() <= 2000,
    ensures
        names_text_from(objs, fv, x, y, k, first).len() <= (if objs.len() - k >= 0 {
            (objs.len() - k) * 2002
        } else {
            0
        }),
    decreases objs.len() - k,
{
    reveal_strlit(", ");
    if 0 <= k < objs.len() {
        lemma_names_text_len(objs, fv, x, y, k + 1, if name_match(objs[k], fv, x, y) {
            false
        } else {
            first
        });
        assert((objs.len() - k) * 2002 == (objs.len() - (k + 1)) * 2002 + 2002) by (nonlinear_arith);
        assert((objs.len() - (k + 1)) * 2002 >= 0) by (nonlinear_arith)
            requires
                objs.len() - (k + 1) >= 0,
        ;
    } else if k < 0 {
        assert((objs.len() - k) * 2002 >= 0) by (nonlinear_arith)
            requires
                objs.len() - k >= 0,
        ;
    }
}

/// Entities sorted for drawing: dead before alive, and within that
/// non-blocking before blocking, so overlapping draws layer correctly.
pub open spec fn draw_key(o: Object) -> int {
    (if o.alive {
        2int
    } else {
        0int
    }) + (if o.blocks {
        1int
    } else {
        0int
    })
}

impl Game {
    /// The names of every visible entity under the queried cell, joined
    /// with commas (empty when none).
    #[verifier::loop_isolation(false)]
    pub fn get_names_at(&self, mouse: (i32, i32)) -> (r: String)
        requires
            self.wf(),
        ensures
            r@ == names_text_from(
                self.objects@,
                self.fov,
                mouse.0 as int,
                mouse.1 as int,
                0,
                true,
            ),
            r@.len() <= 1000 * 2002,
    {
        let (x, y) = mouse;
        proof {
            reveal_strlit(", ");
        }
        let mut out = String::new();
        let mut first = true;
        let mut k: usize = 0;
        while k < self.objects.len()
            invariant
                0 <= k <= self.objects@.len(),
                names_text_from(self.objects@, self.fov, x as int, y as int, 0, true) == out@
                    + names_text_from(self.objects@, self.fov, x as int, y as int, k as int, first),
            decreases self.objects@.len() - k,
        {
            let o = &self.objects[k];
            if o.x == x && o.y == y && self.fov.is_in_fov(o.x, o.y) {
                if !first {
                    out.append(", ");
                }
                out.append(o.name.as_str());
                first = false;
            }
            proof {
                assert(names_text_from(self.objects@, self.fov, x as int, y as int, 0, true) =~= out@
                    + names_text_from(
                    self.objects@,
                    self.fov,
                    x as int,
                    y as int,
                    k as int + 1,
                    first,
                ));
            }
            k = k + 1;
        }
        proof {
            assert(names_text_from(self.objects@, self.fov, x as int, y as int, 0, true) =~= out@);
            lemma_names_text_len(self.objects@, self.fov, x as int, y as int, 0, true);
        }
        out
    }

    /// The visible entities, in the promised drawing order: exactly the
    /// entities whose cell is currently visible, dead before alive, then
    /// non-blocking before blocking, ties broken by entity index.
    #[verifier::loop_isolation(false)]
    pub fn visible_draw_order(&self) -> (r: Vec<usize>)
        requires
            self.fov.wf(),
        ensures
            draw_order_ok(self.objects@, self.fov, r@),
    {
        let mut to_draw: Vec<usize> = Vec::new();
        let mut k: usize = 0;
        while k < self.objects.len()
            invariant
                k <= self.objects@.len(),
                forall|n: int| 0 <= n < to_draw@.len() ==> (#[trigger] to_draw@[n]) < k,
                forall|n: int|
                    0 <= n < to_draw@.len() ==> self.fov.visible(
                        self.objects@[(#[trigger] to_draw@[n]) as int].x as int,
                        self.objects@[to_draw@[n] as int].y as int,
                    ),
                forall|a: int, b: int|
                    0 <= a < b < to_draw@.len() ==> #[trigger] to_draw@[a] < #[trigger] to_draw@[b],
                forall|kk: int|
                    0 <= kk < k && self.fov.visible(
                        (#[trigger] self.objects@[kk]).x as int,
                        self.objects@[kk].y as int,
                    ) ==> to_draw@.contains(kk as usize),
            decreases self.objects@.len() - k,
        {
            let ghost pre = to_draw@;
            let o = &self.objects[k];
            if self.fov.is_in_fov(o.x, o.y) {
                to_draw.push(k);
            }
            proof {
                assert forall|kk: int|
                    0 <= kk < k + 1 && self.fov.visible(
                        (#[trigger] self.objects@[kk]).x as int,
                        self.objects@[kk].y as int,
                    ) implies to_draw@.contains(kk as usize) by {
                    if kk < k {
                        let n = choose|n: int| 0 <= n < pre.len() && pre[n] == kk as usize;
                        assert(to_draw@[n] == kk as usize);
                    } else {
                        assert(to_draw@[pre.len() as int] == kk as usize);
                    }
                }
            }
            k = k + 1;
        }
        let ghost unsorted = to_draw@;
        sort_draw_indices(&self.objects, &mut to_draw);
        proof {
            broadcast use vstd::seq_lib::group_to_multiset_ensures;

            assert forall|kk: int|
                0 <= kk < self.objects@.len() && self.fov.visible(
                    (#[trigger] self.objects@[kk]).x as int,
                    self.objects@[kk].y as int,
                ) implies to_draw@.contains(kk as usize) by {
                assert(unsorted.contains(kk as usize));
                assert(unsorted.to_multiset().count(kk as usize) > 0);
            }
            assert forall|n: int| 0 <= n < to_draw@.len() implies self.fov.visible(
                self.objects@[(#[trigger] to_draw@[n]) as int].x as int,
                self.objects@[to_draw@[n] as int].y as int,
            ) by {
                assert(to_draw@.to_multiset().count(to_draw@[n]) > 0);
                assert(unsorted.contains(to_draw@[n]));
                let m = choose|m: int| 0 <= m < unsorted.len() && unsorted[m] == to_draw@[n];
            }
        }
        to_draw
    }
}

/// The background colour one render pass paints for a map cell: black
/// until the cell is explored (being currently visible explores it), then
/// the wall or ground shade, lit when currently visible.
pub open spec fn tile_shade(g: Game, x: int, y: int) -> Color {
    let t = g.map.spec_tile(x, y);
    let visible = g.fov.visible(x, y);
    if t.explored || visible {
        if visible {
            if t.block_sight {
                spec_color_light_wall()
            } else {
                spec_color_light_ground()
            }
        } else {
            if t.block_sight {
                spec_color_dark_wall()
            } else {
                spec_color_dark_ground()
            }
        }
    } else {
        spec_black()
    }
}

/// What one entity paints on a cell: the cyan attack marker one cell along
/// a pending attack, else its glyph at its own position, else nothing.
pub open spec fn entity_paint(o: Object, i: int, j: int) -> Option<(char, Color)> {
    match o.attacking {
        Option::Some(d) => {
            if i == o.x + d.0 && j == o.y + d.1 {
                Option::Some((marker_glyph(d), spec_cyan()))
            } else if i == o.x && j == o.y {
                Option::Some((o.glyph, o.color))
            } else {
                Option::None
            }
        },
        Option::None => {
            if i == o.x && j == o.y {
                Option::Some((o.glyph, o.color))
            } else {
                Option::None
            }
        },
    }
}

/// The glyph layer the suffix `order[n..]` of the drawing order leaves on
/// one cell of a blank canvas: later entities paint over earlier ones.
pub open spec fn drawn_from(
    objs: Seq<Object>,
    order: Seq<usize>,
    n: int,
    i: int,
    j: int,
) -> Option<(char, Color)>
    decreases order.len() - n,
{
    if n < 0 || n >= order.len() {
        Option::None
    } else {
        match drawn_from(objs, order, n + 1, i, j) {
            Option::Some(p) => Option::Some(p),
            Option::None => entity_paint(objs[order[n] as int], i, j),
        }
    }
}

/// `r` is the drawing order of the visible entities: exactly the indices
/// of the entities standing on currently visible cells, sorted by
/// `draw_key` ascending (dead before alive, then non-blocking before
/// blocking) and, within equal keys, by entity index.  These conditions
/// determine `r` uniquely.
pub open spec fn draw_order_ok(objs: Seq<Object>, fv: FOV, r: Seq<usize>) -> bool {
    &&& forall|n: int| 0 <= n < r.len() ==> (#[trigger] r[n]) < objs.len()
    &&& forall|n: int|
        0 <= n < r.len() ==> fv.visible(
            objs[(#[trigger] r[n]) as int].x as int,
            objs[r[n] as int].y as int,
        )
    &&& forall|k: int|
        0 <= k < objs.len() && fv.visible(
            (#[trigger] objs[k]).x as int,
            objs[k].y as int,
        ) ==> r.contains(k as usize)
    &&& forall|a: int, b: int|
        0 <= a < b < r.len() ==> draw_key(objs[(#[trigger] r[a]) as int]) <= draw_key(
            objs[(#[trigger] r[b]) as int],
        )
    &&& forall|a: int, b: int|
        0 <= a < b < r.len() && draw_key(objs[(#[trigger] r[a]) as int]) == draw_key(
            objs[(#[trigger] r[b]) as int],
        ) ==> r[a] < r[b]
}

/// Stable insertion sort of entity indices by drawing order: dead
/// entities before alive ones, non-blocking before blocking.  The result
/// is a permutation of the input (same multiset) in ascending key order, and
/// entries with equal keys keep their index order (the input is strictly
/// increasing), so the output order is uniquely determined.
#[verifier::loop_isolation(false)]
fn sort_draw_indices(objects: &Vec<Object>, idxs: &mut Vec<usize>)
    requires
        forall|i: int| 0 <= i < old(idxs)@.len() ==> #[trigger] old(idxs)@[i] < objects@.len(),
        forall|i: int, j: int|
            0 <= i < j < old(idxs)@.len() ==> #[trigger] old(idxs)@[i] < #[trigger] old(idxs)@[j],
    ensures
        final(idxs)@.len() == old(idxs)@.len(),
        forall|i: int| 0 <= i < final(idxs)@.len() ==> #[trigger] final(idxs)@[i] < objects@.len(),
        final(idxs)@.to_multiset() == old(idxs)@.to_multiset(),
        forall|i: int, j: int|
            0 <= i < j < final(idxs)@.len() ==> draw_key(objects@[#[trigger] final(idxs)@[i] as int])
                <= draw_key(objects@[#[trigger] final(idxs)@[j] as int]),
        forall|i: int, j: int|
            0 <= i < j < final(idxs)@.len() && draw_key(objects@[(#[trigger] final(idxs)@[i]) as int])
                == draw_key(objects@[(#[trigger] final(idxs)@[j]) as int]) ==> final(idxs)@[i]
                < final(idxs)@[j],
{
    let n = idxs.len();
    let mut s: usize = 1;
    while s < n
        invariant
            1 <= s,
            n == idxs@.len(),
            forall|i: int| 0 <= i < idxs@.len() ==> #[trigger] idxs@[i] < objects@.len(),
            idxs@.to_multiset() == old(idxs)@.to_multiset(),
            forall|i: int, j: int|
                0 <= i < j < s && j < idxs@.len() ==> draw_key(
                    objects@[#[trigger] idxs@[i] as int],
                ) <= draw_key(objects@[#[trigger] idxs@[j] as int]),
            forall|i: int, j: int|
                0 <= i < j < idxs@.len() && draw_key(objects@[(#[trigger] idxs@[i]) as int])
                    == draw_key(objects@[(#[trigger] idxs@[j]) as int]) ==> idxs@[i] < idxs@[j],
        decreases n - s,
    {
        let mut t = s;
        while t > 0
            invariant
                0 <= t <= s < n,
                n == idxs@.len(),
                forall|i: int| 0 <= i < idxs@.len() ==> #[trigger] idxs@[i] < objects@.len(),
                idxs@.to_multiset() == old(idxs)@.to_multiset(),
                forall|i: int, j: int|
                    0 <= i < j <= s && j < idxs@.len() && i != t && j != t ==> draw_key(
                        objects@[#[trigger] idxs@[i] as int],
                    ) <= draw_key(objects@[#[trigger] idxs@[j] as int]),
                forall|i: int, j: int|
                    0 <= i < j < idxs@.len() && draw_key(objects@[(#[trigger] idxs@[i]) as int])
                        == draw_key(objects@[(#[trigger] idxs@[j]) as int]) ==> idxs@[i]
                        < idxs@[j],
                forall|i: int|
                    t < i <= s ==> draw_key(objects@[idxs@[t as int] as int]) <= draw_key(
                        objects@[#[trigger] idxs@[i] as int],
                    ),
            decreases t,
        {
            let a = idxs[t - 1];
            let b = idxs[t];
            let ka = {
                let o = &objects[a];
                (if o.alive {
                    2
                } else {
                    0
                }) + (if o.blocks {
                    1
                } else {
                    0
                })
            };
            let kb = {
                let o = &objects[b];
                (if o.alive {
                    2
                } else {
                    0
                }) + (if o.blocks {
                    1
                } else {
                    0
                })
            };
            if ka > kb {
                let ghost pre = idxs@;
                idxs.set(t - 1, b);
                idxs.set(t, a);
                proof {
                    broadcast use vstd::seq_lib::group_to_multiset_ensures;

                    let m1 = pre.update(t - 1, pre[t as int]);
                    assert(idxs@ =~= m1.update(t as int, pre[t - 1]));
                    assert(m1[t as int] == pre[t as int]);
                    assert(pre.contains(pre[t - 1]) && pre.contains(pre[t as int]));
                    assert(m1.contains(pre[t - 1]) || true);
                    assert(idxs@.to_multiset() =~= pre.to_multiset());
                }
            } else {
                break ;
            }
            t = t - 1;
        }
        s = s + 1;
    }
}


impl Game {
    /// Render the world into the console: explored tiles get their
    /// background shade (lit when currently visible), every visible entity
    /// is drawn in layering order (dead before alive, non-blocking before
    /// blocking), then the hit-point bar, the message log, and the names of
    /// the entities under the mouse.  Every currently visible tile is
    /// marked explored; exploration is never cleared, and nothing else of
    /// the world changes.
    #[verifier::loop_isolation(false)]
    #[verifier::rlimit(60)]
    pub fn render(&mut self, tcod: &mut Tcod, mouse: (i32, i32))
        requires
            old(self).wf(),
            old(tcod).wf(),
            old(tcod).w == crate::config::SCREEN_WIDTH,
            old(tcod).h == crate::config::SCREEN_HEIGHT,
        ensures
            final(self).wf(),
            final(tcod).wf(),
            final(tcod).w == old(tcod).w,
            final(tcod).h == old(tcod).h,
            *final(self) == (Game { map: final(self).map, ..*old(self) }),
            final(self).map.rooms == old(self).map.rooms,
            final(self).map.grid_wf(),
            forall|x: int, y: int|
                0 <= x < MAP_WIDTH && 0 <= y < MAP_HEIGHT ==> final(self).map.spec_tile(x, y)
                    == (Tile {
                    explored: old(self).map.spec_tile(x, y).explored || old(self).fov.visible(
                        x,
                        y,
                    ),
                    ..old(self).map.spec_tile(x, y)
                }),
            forall|i: int, j: int|
                #![trigger tile_shade(*old(self), i, j)]
                0 <= i < MAP_WIDTH && 0 <= j < MAP_HEIGHT ==> final(tcod).spec_bg(i, j)
                    == Option::Some(tile_shade(*old(self), i, j)),
            exists|order: Seq<usize>|
                {
                    &&& #[trigger] draw_order_ok(old(self).objects@, old(self).fov, order)
                    &&& forall|i: int, j: int|
                        0 <= i < MAP_WIDTH && 0 <= j < MAP_HEIGHT ==> final(tcod).spec_char(i, j)
                            == drawn_from(old(self).objects@, order, 0, i, j)
                },
    {
        tcod.background(black());
        tcod.clear_chars();

        let ghost g0 = *self;

        // Paint every explored tile's background, revealing tiles that are
        // currently visible.
        let mut y: i32 = 0;
        while y < MAP_HEIGHT
            invariant
                0 <= y <= MAP_HEIGHT,
                *self == (Game { map: self.map, ..g0 }),
                self.map.grid_wf(),
                self.map.rooms == g0.map.rooms,
                tcod.wf(),
                tcod.w == old(tcod).w,
                tcod.h == old(tcod).h,
                forall|i: int, j: int|
                    0 <= i < MAP_WIDTH && 0 <= j < MAP_HEIGHT ==> self.map.spec_tile(i, j) == (if j
                        < y {
                        Tile {
                            explored: g0.map.spec_tile(i, j).explored || g0.fov.visible(i, j),
                            ..g0.map.spec_tile(i, j)
                        }
                    } else {
                        g0.map.spec_tile(i, j)
                    }),
                forall|i: int, j: int|
                    #![trigger tcod.bg@[i]@[j]]
                    0 <= i < MAP_WIDTH && 0 <= j < MAP_HEIGHT ==> tcod.spec_bg(i, j) == (if j < y {
                        Option::Some(tile_shade(g0, i, j))
                    } else {
                        Option::Some(spec_black())
                    }),
                forall|i: int, j: int|
                    0 <= i < old(tcod).w && 0 <= j < old(tcod).h ==> tcod.spec_char(i, j) is None,
            decreases MAP_HEIGHT - y,
        {
            let mut x: i32 = 0;
            while x < MAP_WIDTH
                invariant
                    0 <= y < MAP_HEIGHT,
                    0 <= x <= MAP_WIDTH,
                    *self == (Game { map: self.map, ..g0 }),
                    self.map.grid_wf(),
                    self.map.rooms == g0.map.rooms,
                    tcod.wf(),
                    tcod.w == old(tcod).w,
                    tcod.h == old(tcod).h,
                    forall|i: int, j: int|
                        0 <= i < MAP_WIDTH && 0 <= j < MAP_HEIGHT ==> self.map.spec_tile(i, j) == (
                        if j < y || (j == y && i < x) {
                            Tile {
                                explored: g0.map.spec_tile(i, j).explored || g0.fov.visible(i, j),
                                ..g0.map.spec_tile(i, j)
                            }
                        } else {
                            g0.map.spec_tile(i, j)
                        }),
                    forall|i: int, j: int|
                        #![trigger tcod.bg@[i]@[j]]
                        0 <= i < MAP_WIDTH && 0 <= j < MAP_HEIGHT ==> tcod.spec_bg(i, j) == (if j
                            < y || (j == y && i < x) {
                            Option::Some(tile_shade(g0, i, j))
                        } else {
                            Option::Some(spec_black())
                        }),
                    forall|i: int, j: int|
                        0 <= i < old(tcod).w && 0 <= j < old(tcod).h ==> tcod.spec_char(i, j)
                            is None,
                decreases MAP_WIDTH - x,
            {
                let visible = self.fov.is_in_fov(x, y);
                let mut explored = self.map.tile_at(x, y).explored;
                if visible {
                    // Since it's visible, explore it.
                    explored = true;
                    self.map.set_explored(x, y);
                }
                if explored {
                    let wall = self.map.tile_at(x, y).block_sight;
                    let color = if visible {
                        if wall {
                            crate::config::color_light_wall()
                        } else {
                            crate::config::color_light_ground()
                        }
                    } else {
                        if wall {
                            crate::config::color_dark_wall()
                        } else {
                            crate::config::color_dark_ground()
                        }
                    };
                    tcod.put_char_background(x, y, color);
                }
                x = x + 1;
            }
            y = y + 1;
        }

        // Draw the visible entities in the promised layering order.
        let to_draw = self.visible_draw_order();
        let ghost order = to_draw@;
        let ghost objs = self.objects@;

        let mut di: usize = 0;
        while di < to_draw.len()
            invariant
                di <= order.len(),
                to_draw@ == order,
                self.objects@ == objs,
                draw_order_ok(objs, g0.fov, order),
                *self == (Game { map: self.map, ..g0 }),
                g0.wf(),
                tcod.wf(),
                tcod.w == old(tcod).w,
                tcod.h == old(tcod).h,
                forall|i: int, j: int|
                    #![trigger tcod.bg@[i]@[j]]
                    0 <= i < MAP_WIDTH && 0 <= j < MAP_HEIGHT ==> tcod.spec_bg(i, j)
                        == Option::Some(tile_shade(g0, i, j)),
                forall|i: int, j: int|
                    0 <= i < old(tcod).w && 0 <= j < old(tcod).h ==> drawn_from(
                        objs,
                        order,
                        0,
                        i,
                        j,
                    ) == (match drawn_from(objs, order, di as int, i, j) {
                        Option::Some(p) => Option::Some(p),
                        Option::None => tcod.spec_char(i, j),
                    }),
            decreases to_draw@.len() - di,
        {
            let idx = to_draw[di];
            let o = &self.objects[idx];
            let ghost pre_tcod = *tcod;
            o.draw(tcod);
            proof {
                assert forall|i: int, j: int|
                    0 <= i < old(tcod).w && 0 <= j < old(tcod).h implies drawn_from(
                    objs,
                    order,
                    0,
                    i,
                    j,
                ) == (match drawn_from(objs, order, di as int + 1, i, j) {
                    Option::Some(p) => Option::Some(p),
                    Option::None => tcod.spec_char(i, j),
                }) by {
                    assert(tcod.spec_char(i, j) == (match entity_paint(objs[order[di as int] as int], i, j) {
                        Option::Some(p) => Option::Some(p),
                        Option::None => pre_tcod.spec_char(i, j),
                    }));
                }
            }
            di = di + 1;
        }
        proof {
            assert forall|i: int, j: int|
                0 <= i < old(tcod).w && 0 <= j < old(tcod).h implies tcod.spec_char(i, j)
                == drawn_from(objs, order, 0, i, j) by {}
        }

        // The player's hit-point bar.
        let hp = match self.objects[PLAYER].fighter {
            Option::Some(f) => f.hp,
            Option::None => 0,
        };
        let max_hp = match self.objects[PLAYER].fighter {
            Option::Some(f) => f.max_hp,
            Option::None => 0,
        };
        proof {
            reveal_strlit("HP");
        }
        crate::ui::render_bar(
            tcod,
            1,
            1,
            BAR_WIDTH,
            "HP",
            hp,
            max_hp,
            light_red(),
            darker_red(),
        );

        self.messages.draw(tcod);

        // Names of the entities under the mouse.
        tcod.stroke(light_grey());
        let names = self.get_names_at(mouse);
        tcod.print_rect(&names, 1, PANEL_Y + PANEL_HEIGHT - 2, BAR_WIDTH, 0);
    }
}

} // verus!
