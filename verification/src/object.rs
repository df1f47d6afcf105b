use vstd::prelude::*;

use crate::ai::Ai;
use crate::colors::{
    cyan, dark_red, orange, red, spec_cyan, spec_dark_red, spec_orange, spec_red, spec_white,
    white, Color,
};
use crate::draw::Tcod;
use crate::ui::{dec_digits, u32_to_string, Messages};

verus! {

/// Combat capability: hit points, attack and defence stats, and a tag that
/// tells the player (tag zero) apart from monster kinds.
#[derive(Clone, Copy, Debug, PartialEq, Eq, Structural)]
pub struct Fighter {
    pub max_hp: i32,
    pub hp: i32,
    pub defense: i32,
    pub power: i32,
    pub mtype: i32,
}

/// Stats stay in ranges the combat arithmetic can never overflow.
pub open spec fn fighter_ok(f: Fighter) -> bool {
    &&& -2000 <= f.hp <= 1000000
    &&& 0 <= f.max_hp <= 1000000
    &&& 0 <= f.power <= 1000
    &&& 0 <= f.defense <= 1000
}

/// A world entity: the player, a monster, or an inert prop/corpse.  Death
/// is a state change, never removal, so indices into the entity list stay
/// stable.
pub struct Object {
    pub x: i32,
    pub y: i32,
    pub glyph: char,
    pub color: Color,
    pub name: String,
    pub blocks: bool,
    pub alive: bool,
    pub fighter: Option<Fighter>,
    pub ai: Option<Ai>,
    pub attacking: Option<(i32, i32)>,
}

/// The entity's name is short enough for log lines, and its stats (if any)
/// are in range.  A corpse's name may carry the "remains of" prefix, hence
/// the looser blanket bound.
pub open spec fn obj_ok(o: Object) -> bool {
    &&& o.name@.len() <= 2000
    &&& match o.fighter {
        Option::Some(f) => fighter_ok(f) && o.name@.len() <= 1000,
        Option::None => true,
    }
}

/// The attack stat an entity contributes, zero without a fighter.
pub open spec fn spec_power(o: Object) -> int {
    match o.fighter {
        Option::Some(f) => f.power as int,
        Option::None => 0,
    }
}

/// The defence stat an entity contributes, zero without a fighter.
pub open spec fn spec_defense(o: Object) -> int {
    match o.fighter {
        Option::Some(f) => f.defense as int,
        Option::None => 0,
    }
}

/// The melee damage formula: attacker power minus target defence.
pub open spec fn spec_damage(attacker: Object, target: Object) -> int {
    spec_power(attacker) - spec_defense(target)
}

/// The hit points the target's fighter is left with: positive damage is
/// subtracted, non-positive damage leaves them untouched.
pub open spec fn spec_hp_after(f: Fighter, damage: int) -> int {
    if damage > 0 {
        f.hp - damage
    } else {
        f.hp as int
    }
}

/// Whether taking `damage` kills the entity: it has a fighter and ends at
/// or below zero hit points.
pub open spec fn spec_dies(o: Object, damage: int) -> bool {
    match o.fighter {
        Option::Some(f) => spec_hp_after(f, damage) <= 0,
        Option::None => false,
    }
}

/// How `take_damage` transforms an entity.  Without a fighter nothing
/// changes.  A surviving fighter just loses hit points.  A dying player
/// (tag zero) turns into a corpse visually but keeps its record; a dying
/// monster becomes inert scenery: non-blocking, no fighter, no behaviour,
/// renamed to its remains.
pub open spec fn damage_transition(pre: Object, post: Object, damage: int) -> bool {
    match pre.fighter {
        Option::None => post == pre,
        Option::Some(f) => {
            let hp2 = spec_hp_after(f, damage);
            if hp2 > 0 {
                post == (Object {
                    fighter: Option::Some(Fighter { hp: hp2 as i32, ..f }),
                    ..pre
                })
            } else if f.mtype == 0 {
                post == (Object {
                    glyph: '%',
                    color: spec_dark_red(),
                    alive: false,
                    fighter: Option::Some(Fighter { hp: hp2 as i32, ..f }),
                    ..pre
                })
            } else {
                &&& post.x == pre.x
                &&& post.y == pre.y
                &&& post.glyph == '%'
                &&& post.color == spec_dark_red()
                &&& post.name@ == "remains of "@ + pre.name@
                &&& post.blocks == false
                &&& post.alive == false
                &&& post.fighter is None
                &&& post.ai is None
                &&& post.attacking == pre.attacking
            }
        },
    }
}

/// The glyph the attack marker shows for a strike direction.
pub open spec fn marker_glyph(d: (i32, i32)) -> char {
    if d == (0i32, 1i32) || d == (0i32, -1i32) {
        '|'
    } else {
        '-'
    }
}

/// The log grew by exactly one record with this text and colour.
pub open spec fn pushed_msg(
    pre: Seq<(String, Color)>,
    post: Seq<(String, Color)>,
    text: Seq<char>,
    color: Color,
) -> bool {
    &&& post.len() == pre.len() + 1
    &&& post.subrange(0, pre.len() as int) == pre
    &&& post[pre.len() as int].0@ == text
    &&& post[pre.len() as int].1 == color
}

/// The record a death appends to the log, if the damage kills.
pub open spec fn death_message(pre: Object, post_msgs: Seq<(String, Color)>, from: Seq<(String, Color)>) -> bool {
    match pre.fighter {
        Option::Some(f) => {
            if f.mtype == 0 {
                pushed_msg(from, post_msgs, "You died!"@, spec_red())
            } else {
                pushed_msg(from, post_msgs, pre.name@ + " is dead!"@, spec_orange())
            }
        },
        Option::None => post_msgs == from,
    }
}

/// How one melee hit transforms the target and the log: non-positive
/// damage leaves the target untouched and logs the ineffective blow; a
/// positive hit logs it, applies `damage_transition`, and appends the death
/// record if the target died.  The attacker itself never changes.
pub open spec fn attack_transition(
    attacker: Object,
    pre_target: Object,
    post_target: Object,
    pre_msgs: Seq<(String, Color)>,
    post_msgs: Seq<(String, Color)>,
) -> bool {
    let d = spec_damage(attacker, pre_target);
    if d <= 0 {
        &&& post_target == pre_target
        &&& pushed_msg(
            pre_msgs,
            post_msgs,
            no_effect_text(attacker.name@, pre_target.name@),
            spec_white(),
        )
    } else {
        &&& damage_transition(pre_target, post_target, d)
        &&& exists|mid: Seq<(String, Color)>|
            {
                &&& #[trigger] pushed_msg(
                    pre_msgs,
                    mid,
                    hit_text(attacker.name@, pre_target.name@, d),
                    spec_white(),
                )
                &&& if spec_dies(pre_target, d) {
                    death_message(pre_target, post_msgs, mid)
                } else {
                    post_msgs == mid
                }
            }
    }
}

/// The log line for a landed hit.
pub open spec fn hit_text(attacker: Seq<char>, target: Seq<char>, damage: int) -> Seq<char> {
    attacker + " attacks "@ + target + " for "@ + dec_digits(damage) + " hit points."@
}

/// The log line for a hit that bounced off.
pub open spec fn no_effect_text(attacker: Seq<char>, target: Seq<char>) -> Seq<char> {
    attacker + " attacks "@ + target + " but it has no effect!"@
}

impl Fighter {
    /// Run the death transition for the entity this fighter belongs to:
    /// the player (tag zero) turns into a corpse but keeps its record; any
    /// monster becomes inert scenery renamed to its remains.  Exactly one
    /// log record is appended.
    pub fn on_death(&self, object: &mut Object, messages: &mut Messages)
        requires
            old(object).name@.len() <= 1000,
            old(messages).wf(),
            old(object).fighter is Some ==> old(object).fighter.unwrap().mtype == self.mtype,
        ensures
            final(messages).wf(),
            old(object).fighter is Some ==> death_message(
                *old(object),
                final(messages).messages@,
                old(messages).messages@,
            ),
            self.mtype == 0 ==> *final(object) == (Object {
                glyph: '%',
                color: spec_dark_red(),
                ..*old(object)
            }) && pushed_msg(
                old(messages).messages@,
                final(messages).messages@,
                "You died!"@,
                spec_red(),
            ),
            self.mtype != 0 ==> {
                &&& final(object).x == old(object).x
                &&& final(object).y == old(object).y
                &&& final(object).glyph == '%'
                &&& final(object).color == spec_dark_red()
                &&& final(object).name@ == "remains of "@ + old(object).name@
                &&& final(object).name@.len() <= 2000
                &&& final(object).blocks == false
                &&& final(object).alive == old(object).alive
                &&& final(object).fighter is None
                &&& final(object).ai is None
                &&& final(object).attacking == old(object).attacking
                &&& pushed_msg(
                    old(messages).messages@,
                    final(messages).messages@,
                    old(object).name@ + " is dead!"@,
                    spec_orange(),
                )
            },
    {
        proof {
            reveal_strlit("You died!");
            reveal_strlit(" is dead!");
            reveal_strlit("remains of ");
        }
        if self.mtype == 0 {
            messages.add("You died!".to_owned(), red());
            object.glyph = '%';
            object.color = dark_red();
        } else {
            let mut line = object.name.clone();
            line.append(" is dead!");
            messages.add(line, orange());

            object.glyph = '%';
            object.color = dark_red();
            object.blocks = false;
            object.fighter = Option::None;
            object.ai = Option::None;
            let mut remains = "remains of ".to_owned();
            remains.append(object.name.as_str());
            object.name = remains;
        }
    }
}

impl Object {
    pub fn new(x: i32, y: i32, glyph: char, color: Color, name: &str, blocks: bool) -> (o: Object)
        ensures
            o.x == x,
            o.y == y,
            o.glyph == glyph,
            o.color == color,
            o.name@ == name@,
            o.blocks == blocks,
            o.alive == false,
            o.fighter is None,
            o.ai is None,
            o.attacking is None,
    {
        Object {
            x,
            y,
            glyph,
            color,
            name: name.to_owned(),
            blocks,
            alive: false,
            ai: Option::None,
            fighter: Option::None,
            attacking: Option::None,
        }
    }

    /// Shift the entity by the given deltas.  Collision is the caller's
    /// business (the scheduler checks it first).
    pub fn move_by(&mut self, dx: i32, dy: i32)
        requires
            i32::MIN <= old(self).x + dx <= i32::MAX,
            i32::MIN <= old(self).y + dy <= i32::MAX,
        ensures
            *final(self) == (Object {
                x: (old(self).x + dx) as i32,
                y: (old(self).y + dy) as i32,
                ..*old(self)
            }),
    {
        self.x = self.x + dx;
        self.y = self.y + dy;
    }

    pub fn set_pos(&mut self, x: i32, y: i32)
        ensures
            *final(self) == (Object { x, y, ..*old(self) }),
    {
        self.x = x;
        self.y = y;
    }

    pub fn pos(&self) -> (p: (i32, i32))
        ensures
            p == (self.x, self.y),
    {
        (self.x, self.y)
    }

    /// The integer deltas from this entity to another.
    pub fn delta_to(&self, other: &Object) -> (d: (i32, i32))
        requires
            i32::MIN <= other.x - self.x <= i32::MAX,
            i32::MIN <= other.y - self.y <= i32::MAX,
        ensures
            d.0 == other.x - self.x,
            d.1 == other.y - self.y,
    {
        (other.x - self.x, other.y - self.y)
    }

    /// Restore hit points, never past the maximum.  Entities without a
    /// fighter are unaffected.
    pub fn heal(&mut self, amount: i32)
        requires
            old(self).fighter is Some ==> i32::MIN <= old(self).fighter.unwrap().hp + amount
                <= i32::MAX,
        ensures
            match old(self).fighter {
                Option::Some(f) => *final(self) == (Object {
                    fighter: Option::Some(
                        Fighter {
                            hp: (if f.hp + amount > f.max_hp {
                                f.max_hp as int
                            } else {
                                f.hp + amount
                            }) as i32,
                            ..f
                        },
                    ),
                    ..*old(self)
                }),
                Option::None => *final(self) == *old(self),
            },
    {
        match &mut self.fighter {
            Option::Some(fighter) => {
                fighter.hp = fighter.hp + amount;
                if fighter.hp > fighter.max_hp {
                    fighter.hp = fighter.max_hp;
                }
            },
            Option::None => {},
        }
    }

    /// Apply damage, then run the death transition if hit points fell to
    /// zero or below.  The entity is transformed exactly as
    /// `damage_transition` states; a death appends its log record.
    pub fn take_damage(&mut self, damage: i32, messages: &mut Messages)
        requires
            obj_ok(*old(self)),
            -1000000 <= damage <= 1000,
            damage > 0 && old(self).fighter is Some ==> old(self).fighter.unwrap().hp >= -1000,
            old(messages).wf(),
        ensures
            final(messages).wf(),
            obj_ok(*final(self)),
            damage_transition(*old(self), *final(self), damage as int),
            if spec_dies(*old(self), damage as int) {
                death_message(*old(self), final(messages).messages@, old(messages).messages@)
            } else {
                final(messages).messages@ == old(messages).messages@
            },
    {
        match &mut self.fighter {
            Option::Some(fighter) => {
                if damage > 0 {
                    fighter.hp = fighter.hp - damage;
                }
            },
            Option::None => {},
        }
        match self.fighter {
            Option::Some(fighter) => {
                if fighter.hp <= 0 {
                    self.alive = false;
                    fighter.on_death(self, messages);
                }
            },
            Option::None => {},
        }
    }

    /// Draw the entity onto the console: its glyph in its colour at its
    /// position, plus a cyan attack marker one cell along a pending attack
    /// direction ('|' for vertical strikes, '-' otherwise).
    pub fn draw(&self, con: &mut Tcod)
        requires
            old(con).wf(),
            0 <= self.x < old(con).w,
            0 <= self.y < old(con).h,
            self.attacking is Some ==> {
                let d = self.attacking.unwrap();
                0 <= self.x + d.0 < old(con).w && 0 <= self.y + d.1 < old(con).h
            },
        ensures
            final(con).wf(),
            final(con).w == old(con).w,
            final(con).h == old(con).h,
            final(con).bg == old(con).bg,
            final(con).fill == old(con).fill,
            final(con).stroke == Option::Some(
                match self.attacking {
                    Option::Some(_) => spec_cyan(),
                    Option::None => self.color,
                },
            ),
            forall|i: int, j: int|
                0 <= i < old(con).w && 0 <= j < old(con).h ==> final(con).spec_char(i, j) == (
                match self.attacking {
                    Option::Some(d) => {
                        if i == self.x + d.0 && j == self.y + d.1 {
                            Option::Some((marker_glyph(d), spec_cyan()))
                        } else if i == self.x && j == self.y {
                            Option::Some((self.glyph, self.color))
                        } else {
                            old(con).spec_char(i, j)
                        }
                    },
                    Option::None => {
                        if i == self.x && j == self.y {
                            Option::Some((self.glyph, self.color))
                        } else {
                            old(con).spec_char(i, j)
                        }
                    },
                }),
    {
        con.stroke(self.color);
        con.put_char(self.x, self.y, self.glyph);

        match self.attacking {
            Option::Some((dx, dy)) => {
                con.stroke(cyan());
                let c = if (dx == 0 && dy == 1) || (dx == 0 && dy == -1) {
                    '|'
                } else {
                    '-'
                };
                con.put_char(self.x + dx, self.y + dy, c);
            },
            Option::None => {},
        }
    }

    /// Arm a directional melee attack, unless one is already pending.
    pub fn start_attacking(&mut self, dx: i32, dy: i32)
        ensures
            *final(self) == (Object {
                attacking: if old(self).attacking is None {
                    Option::Some((dx, dy))
                } else {
                    old(self).attacking
                },
                ..*old(self)
            }),
    {
        if self.attacking.is_none() {
            self.attacking = Option::Some((dx, dy));
        }
    }

    /// Clear any pending attack.
    pub fn stop_attacking(&mut self)
        ensures
            *final(self) == (Object { attacking: Option::None, ..*old(self) }),
    {
        self.attacking = Option::None;
    }

    /// Resolve one melee hit on the target: damage is attacker power minus
    /// target defence.  A positive result logs the hit and is applied via
    /// `take_damage` (which may add a death record); a non-positive result
    /// only logs that the blow had no effect, and the target is untouched.
    pub fn attack(&mut self, target: &mut Object, messages: &mut Messages)
        requires
            obj_ok(*old(self)),
            obj_ok(*old(target)),
            old(target).fighter is Some ==> old(target).fighter.unwrap().hp >= -1000,
            old(messages).wf(),
        ensures
            final(messages).wf(),
            *final(self) == *old(self),
            obj_ok(*final(target)),
            attack_transition(
                *old(self),
                *old(target),
                *final(target),
                old(messages).messages@,
                final(messages).messages@,
            ),
    {
        let power = match self.fighter {
            Option::Some(f) => f.power,
            Option::None => 0,
        };
        let defense = match target.fighter {
            Option::Some(f) => f.defense,
            Option::None => 0,
        };
        let damage = power - defense;
        proof {
            reveal_strlit(" attacks ");
            reveal_strlit(" for ");
            reveal_strlit(" hit points.");
            reveal_strlit(" but it has no effect!");
        }
        if damage > 0 {
            let mut line = self.name.clone();
            line.append(" attacks ");
            line.append(target.name.as_str());
            line.append(" for ");
            line.append(u32_to_string(damage as u32).as_str());
            line.append(" hit points.");
            proof {
                reveal_with_fuel(crate::ui::pow10, 5);
                assert(crate::ui::pow10(4) == 10000);
                crate::ui::lemma_dec_digits_len(damage as int, 4);
            }
            messages.add(line, white());
            proof {
                let midv = messages.messages@;
                assert(pushed_msg(
                    old(messages).messages@,
                    midv,
                    hit_text(old(self).name@, old(target).name@, damage as int),
                    spec_white(),
                ));
            }
            target.take_damage(damage, messages);
        } else {
            let mut line = self.name.clone();
            line.append(" attacks ");
            line.append(target.name.as_str());
            line.append(" but it has no effect!");
            messages.add(line, white());
        }
    }
}


/// The log only ever grows: every record of `pre` is still at its place in
/// `post`.
pub open spec fn msgs_extend(pre: Seq<(String, Color)>, post: Seq<(String, Color)>) -> bool {
    &&& pre.len() <= post.len()
    &&& forall|i: int| 0 <= i < pre.len() ==> #[trigger] post[i] == pre[i]
}

pub proof fn lemma_pushed_extends(
    pre: Seq<(String, Color)>,
    post: Seq<(String, Color)>,
    text: Seq<char>,
    color: Color,
)
    requires
        pushed_msg(pre, post, text, color),
    ensures
        msgs_extend(pre, post),
{
    assert forall|i: int| 0 <= i < pre.len() implies #[trigger] post[i] == pre[i] by {
        assert(post.subrange(0, pre.len() as int)[i] == post[i]);
    }
}

pub proof fn lemma_extend_trans(
    a: Seq<(String, Color)>,
    b: Seq<(String, Color)>,
    c: Seq<(String, Color)>,
)
    requires
        msgs_extend(a, b),
        msgs_extend(b, c),
    ensures
        msgs_extend(a, c),
{
}

/// Whatever the target's state, one melee hit extends the log and never
/// rewrites it.
pub proof fn lemma_attack_msgs_extend(
    attacker: Object,
    target: Object,
    post_target: Object,
    pre: Seq<(String, Color)>,
    post: Seq<(String, Color)>,
)
    requires
        attack_transition(attacker, target, post_target, pre, post),
    ensures
        msgs_extend(pre, post),
{
    let d = spec_damage(attacker, target);
    if d <= 0 {
        lemma_pushed_extends(pre, post, no_effect_text(attacker.name@, target.name@), crate::colors::spec_white());
    } else {
        let mid = choose|mid: Seq<(String, Color)>|
            {
                &&& #[trigger] pushed_msg(
                    pre,
                    mid,
                    hit_text(attacker.name@, target.name@, d),
                    crate::colors::spec_white(),
                )
                &&& if spec_dies(target, d) {
                    death_message(target, post, mid)
                } else {
                    post == mid
                }
            };
        lemma_pushed_extends(pre, mid, hit_text(attacker.name@, target.name@, d), crate::colors::spec_white());
        if spec_dies(target, d) {
            match target.fighter {
                Option::Some(f) => {
                    if f.mtype == 0 {
                        lemma_pushed_extends(mid, post, "You died!"@, spec_red());
                    } else {
                        lemma_pushed_extends(mid, post, target.name@ + " is dead!"@, spec_orange());
                    }
                },
                Option::None => {},
            }
        }
        lemma_extend_trans(pre, mid, post);
    }
}

} // verus!
