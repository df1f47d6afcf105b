use dungeon_core::ai::Ai;
use dungeon_core::colors::{white, Color};
use dungeon_core::object::{Fighter, Object};
use dungeon_core::ui::{i32_to_string, u32_to_string, Messages};

fn fighter(max_hp: i32, hp: i32, defense: i32, power: i32, mtype: i32) -> Fighter {
    Fighter { max_hp, hp, defense, power, mtype }
}

fn monster(name: &str, hp: i32, defense: i32, power: i32) -> Object {
    let mut m = Object::new(3, 3, 'o', white(), name, true);
    m.fighter = Some(fighter(hp, hp, defense, power, 1));
    m.ai = Some(Ai { speed: 5 });
    m.alive = true;
    m
}

#[test]
fn blocked_attack_has_no_effect() {
    let mut a = monster("orc", 10, 0, 3);
    let mut t = monster("troll", 16, 5, 4);
    let mut log = Messages::new();

    a.attack(&mut t, &mut log);

    assert_eq!(t.fighter.unwrap().hp, 16);
    assert!(t.alive);
    assert_eq!(log.len(), 1);
    assert_eq!(log.get(0).0, "orc attacks troll but it has no effect!");
}

#[test]
fn landed_attack_subtracts_power_minus_defense() {
    let mut a = monster("troll", 16, 1, 4);
    let mut t = monster("orc", 10, 1, 3);
    let mut log = Messages::new();

    a.attack(&mut t, &mut log);

    assert_eq!(t.fighter.unwrap().hp, 7);
    assert!(t.alive);
    assert_eq!(log.len(), 1);
    assert_eq!(log.get(0).0, "troll attacks orc for 3 hit points.");
}

#[test]
fn monster_death_is_a_state_transition() {
    let mut o = monster("orc", 10, 0, 3);
    let mut log = Messages::new();

    o.take_damage(10, &mut log);

    assert!(!o.alive);
    assert!(!o.blocks);
    assert!(o.fighter.is_none());
    assert!(o.ai.is_none());
    assert_eq!(o.name, "remains of orc");
    assert_eq!(log.len(), 1);
    assert_eq!(log.get(0).0, "orc is dead!");
}

#[test]
fn killing_blow_logs_hit_then_death() {
    let mut a = monster("troll", 16, 1, 4);
    let mut t = monster("orc", 3, 0, 3);
    let mut log = Messages::new();

    a.attack(&mut t, &mut log);

    assert!(!t.alive);
    assert!(t.fighter.is_none());
    assert_eq!(log.len(), 2);
    assert_eq!(log.get(0).0, "troll attacks orc for 4 hit points.");
    assert_eq!(log.get(1).0, "orc is dead!");
}

#[test]
fn player_death_keeps_the_record() {
    let mut p = Object::new(1, 1, '@', white(), "player", false);
    p.alive = true;
    p.fighter = Some(fighter(30, 2, 0, 5, 0));
    let mut log = Messages::new();

    p.take_damage(2, &mut log);

    assert!(!p.alive);
    assert_eq!(p.name, "player");
    assert!(p.fighter.is_some());
    assert_eq!(p.fighter.unwrap().hp, 0);
    assert_eq!(log.len(), 1);
    assert_eq!(log.get(0).0, "You died!");
}

#[test]
fn non_positive_damage_leaves_hit_points() {
    let mut o = monster("orc", 10, 0, 3);
    let mut log = Messages::new();
    o.take_damage(0, &mut log);
    assert_eq!(o.fighter.unwrap().hp, 10);
    o.take_damage(-5, &mut log);
    assert_eq!(o.fighter.unwrap().hp, 10);
    assert!(o.alive);
    assert_eq!(log.len(), 0);
}

#[test]
fn heal_never_exceeds_the_maximum() {
    let mut o = monster("orc", 10, 0, 3);
    let mut log = Messages::new();
    o.take_damage(4, &mut log);
    assert_eq!(o.fighter.unwrap().hp, 6);
    o.heal(2);
    assert_eq!(o.fighter.unwrap().hp, 8);
    o.heal(100);
    assert_eq!(o.fighter.unwrap().hp, 10);
}

#[test]
fn attack_intent_arms_once() {
    let mut p = Object::new(1, 1, '@', white(), "player", false);
    p.start_attacking(0, -1);
    assert_eq!(p.attacking, Some((0, -1)));
    p.start_attacking(1, 0);
    assert_eq!(p.attacking, Some((0, -1)));
    p.stop_attacking();
    assert!(p.attacking.is_none());
    p.start_attacking(1, 0);
    assert_eq!(p.attacking, Some((1, 0)));
}

#[test]
fn decimal_rendering_is_exact() {
    assert_eq!(u32_to_string(0), "0");
    assert_eq!(u32_to_string(7), "7");
    assert_eq!(u32_to_string(12345), "12345");
    assert_eq!(u32_to_string(1000000), "1000000");
    assert_eq!(i32_to_string(-7), "-7");
    assert_eq!(i32_to_string(-120), "-120");
    assert_eq!(i32_to_string(42), "42");
}

#[test]
fn message_log_appends_in_order() {
    let mut log = Messages::new();
    assert_eq!(log.len(), 0);
    log.add("first".to_string(), white());
    log.add("second".to_string(), Color { r: 1, g: 2, b: 3 });
    assert_eq!(log.len(), 2);
    assert_eq!(log.get(0).0, "first");
    assert_eq!(log.get(1).0, "second");
    assert_eq!(log.get(1).1, Color { r: 1, g: 2, b: 3 });
}
