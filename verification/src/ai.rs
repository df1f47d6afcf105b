use vstd::prelude::*;

use crate::colors::Color;
use crate::config::PLAYER;
use crate::fov::FOV;
use crate::game::{blocked_in, Game};
use crate::map::GameMap;
use crate::mem::mut_two;
use crate::object::{attack_transition, lemma_attack_msgs_extend, msgs_extend, Object};

verus! {

/// Scheduled-behaviour capability: the entity acts only on ticks that are
/// multiples of `speed`, so a higher speed value means fewer actions.
#[derive(Clone, Copy, Debug, PartialEq, Eq, Structural)]
pub struct Ai {
    pub speed: i32,
}

/// How one scheduled monster turn transforms the entity list and the log.
/// On ticks that are not multiples of the speed nothing happens.  Otherwise,
/// if the monster's cell is visible and the player has hit points left, the
/// monster strikes the player when within Chebyshev distance one (only the
/// player's slot and the log change, per `attack_transition`), and otherwise
/// takes one straight-line step toward the player, blocked by the map and by
/// blocking entities.
pub open spec fn action_step(
    speed: i32,
    id: int,
    tick: u64,
    fv: FOV,
    map: GameMap,
    pre_o: Seq<Object>,
    pre_m: Seq<(String, Color)>,
    post_o: Seq<Object>,
    post_m: Seq<(String, Color)>,
) -> bool {
    let m = pre_o[id];
    let p = pre_o[0];
    let gate = tick % (speed as u64) == 0 && fv.visible(m.x as int, m.y as int) && (p.fighter
        is Some && p.fighter.unwrap().hp > 0);
    if !gate {
        post_o == pre_o && post_m == pre_m
    } else {
        let dx = p.x - m.x;
        let dy = p.y - m.y;
        if -1 <= dx <= 1 && -1 <= dy <= 1 {
            // Close enough: one melee hit on the player.
            &&& post_o.len() == pre_o.len()
            &&& forall|k: int| 0 <= k < pre_o.len() && k != 0 ==> #[trigger] post_o[k] == pre_o[k]
            &&& attack_transition(m, p, post_o[0], pre_m, post_m)
        } else {
            // Far away: one straight-line step toward the player.
            let s = Game::steer_step(dx as int, dy as int);
            &&& post_m == pre_m
            &&& post_o == pre_o.update(
                id,
                if !(s.0 == 0 && s.1 == 0) && !blocked_in(map, pre_o, m.x + s.0, m.y + s.1) {
                    Object { x: (m.x + s.0) as i32, y: (m.y + s.1) as i32, ..m }
                } else {
                    m
                },
            )
        }
    }
}

impl Ai {
    /// One scheduled turn of a basic monster.  Gated to ticks that are
    /// multiples of its speed; otherwise, if the monster is inside the
    /// viewer's visible set and the player still has hit points, it attacks
    /// when within Chebyshev distance one and takes one straight-line step
    /// toward the player when farther.
    #[verifier::rlimit(60)]
    pub fn action(&self, monster_id: usize, game: &mut Game)
        requires
            old(game).wf(),
            1 <= monster_id < old(game).objects@.len(),
            self.speed >= 1,
        ensures
            final(game).wf(),
            final(game).tick == old(game).tick,
            final(game).map == old(game).map,
            final(game).fov == old(game).fov,
            final(game).rng == old(game).rng,
            final(game).player == old(game).player,
            final(game).objects@.len() == old(game).objects@.len(),
            msgs_extend(old(game).messages.messages@, final(game).messages.messages@),
            forall|k: int|
                0 <= k < old(game).objects@.len() && k != 0 && k != monster_id
                    ==> #[trigger] final(game).objects@[k] == old(game).objects@[k],
            action_step(
                self.speed,
                monster_id as int,
                old(game).tick,
                old(game).fov,
                old(game).map,
                old(game).objects@,
                old(game).messages.messages@,
                final(game).objects@,
                final(game).messages.messages@,
            ),
    {
        if game.tick % (self.speed as u64) != 0 {
            return ;
        }

        // A basic monster takes its turn; if you can see it, it can see you.
        let (monster_x, monster_y) = game.objects[monster_id].pos();
        let player_has_hp = match game.objects[PLAYER].fighter {
            Option::Some(f) => f.hp > 0,
            Option::None => false,
        };
        if game.fov.is_in_fov(monster_x, monster_y) && player_has_hp {
            let dx = game.objects[PLAYER].x - game.objects[monster_id].x;
            let dy = game.objects[PLAYER].y - game.objects[monster_id].y;

            if -1 <= dy && dy <= 1 && -1 <= dx && dx <= 1 {
                // Close enough: attack!
                let (monster, player) = mut_two(monster_id, PLAYER, &mut game.objects);
                monster.attack(player, &mut game.messages);
                proof {
                    assert(game.objects@ =~= old(game).objects@.update(
                        0,
                        game.objects@[0],
                    ));
                    lemma_attack_msgs_extend(
                        old(game).objects@[monster_id as int],
                        old(game).objects@[0],
                        game.objects@[0],
                        old(game).messages.messages@,
                        game.messages.messages@,
                    );
                }
            } else {
                // Move toward the player if far away.
                let (player_x, player_y) = game.objects[PLAYER].pos();
                game.move_towards(monster_id, player_x, player_y);
            }
        }
    }
}

} // verus!
