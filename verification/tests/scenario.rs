use dungeon_core::ai::Ai;
use dungeon_core::colors::white;
use dungeon_core::game::Game;
use dungeon_core::object::{Fighter, Object};

fn orc_at(x: i32, y: i32, hp: i32, defense: i32, power: i32) -> Object {
    let mut m = Object::new(x, y, 'o', white(), "orc", true);
    m.fighter = Some(Fighter { max_hp: hp, hp, defense, power, mtype: 1 });
    m.ai = Some(Ai { speed: 5 });
    m.alive = true;
    m
}

#[test]
fn fresh_world_spawns_the_player_at_the_first_room_center() {
    let g = Game::new(7);
    let (cx, cy) = g.map.rooms[0].center();
    let p = &g.objects[0];
    assert_eq!((p.x, p.y), (cx, cy));
    assert!(p.alive);
    assert_eq!(p.fighter.unwrap().hp, 30);
    assert_eq!(p.fighter.unwrap().max_hp, 30);
    assert_eq!(g.tick, 0);
    assert_eq!(g.player.prev_position, (-1, -1));
    assert_eq!(g.messages.len(), 1);
    assert_eq!(
        g.messages.get(0).0,
        "Welcome stranger! Prepare to perish in the Tombs of the Ancient Kings."
    );
}

#[test]
fn quiet_tick_only_advances_the_clock() {
    let mut g = Game::new(7);
    // No monsters anywhere, no pending attack.
    g.objects.truncate(1);
    let before = (g.objects[0].x, g.objects[0].y);

    g.update();

    assert_eq!(g.tick, 1);
    assert_eq!((g.objects[0].x, g.objects[0].y), before);
    assert_eq!(g.player.prev_position, before);
    // The player was not touched.
    assert_eq!(g.objects[0].fighter.unwrap().hp, 30);
}

#[test]
fn adjacent_monster_attacks_the_player_on_its_turn() {
    let mut g = Game::new(7);
    g.objects.truncate(1);
    // The player takes the hit undefended so the damage equals the power.
    let f = g.objects[0].fighter.unwrap();
    g.objects[0].fighter = Some(Fighter { defense: 0, ..f });
    let (px, py) = (g.objects[0].x, g.objects[0].y);
    g.objects.push(orc_at(px, py - 1, 10, 0, 3));
    // tick 0 is a multiple of the orc's speed, so it acts this tick.
    assert_eq!(g.tick % 5, 0);

    g.update();

    assert_eq!(g.objects[0].fighter.unwrap().hp, 27);
    let last = g.messages.get(g.messages.len() - 1);
    assert_eq!(last.0, "orc attacks player for 3 hit points.");
}

#[test]
fn player_attack_intent_resolves_against_the_monster() {
    let mut g = Game::new(7);
    g.objects.truncate(1);
    let (px, py) = (g.objects[0].x, g.objects[0].y);
    g.objects.push(orc_at(px, py - 1, 10, 0, 3));
    // Keep the monster's scheduled turn away (tick not a multiple of 5).
    g.tick = 1;
    g.objects[0].start_attacking(0, -1);

    g.update();

    assert_eq!(g.objects[1].fighter.unwrap().hp, 5);
    let texts: Vec<String> = (0..g.messages.len()).map(|i| g.messages.get(i).0.clone()).collect();
    assert!(texts.contains(&"player attacks orc for 5 hit points.".to_string()));
}

#[test]
fn attack_intent_clears_after_its_window() {
    let mut g = Game::new(7);
    g.objects.truncate(1);
    g.objects[0].start_attacking(1, 0);
    for expected in 1..=4 {
        g.update();
        assert_eq!(g.player.attack_ticks, expected % 5);
    }
    assert_eq!(g.objects[0].attacking, Some((1, 0)));
    g.update();
    assert_eq!(g.player.attack_ticks, 0);
    assert!(g.objects[0].attacking.is_none());
}

#[test]
fn movement_keys_step_the_player_and_walls_stop_it() {
    let mut g = Game::new(7);
    g.objects.truncate(1);
    let (px, py) = (g.objects[0].x, g.objects[0].y);
    // The first room's interior is at least five cells wide, so one step
    // right from the centre stays open.
    g.handle_keys(68);
    assert_eq!((g.objects[0].x, g.objects[0].y), (px + 1, py));
    // Walk into the nearest wall: step left until the position stops
    // changing, then confirm one more step is a no-op.
    for _ in 0..100 {
        g.handle_keys(65);
    }
    let stuck = (g.objects[0].x, g.objects[0].y);
    g.handle_keys(65);
    assert_eq!((g.objects[0].x, g.objects[0].y), stuck);
    assert!(g.map.tile_at(stuck.0 - 1, stuck.1).blocked);
}

#[test]
fn blocking_monster_stops_movement() {
    let mut g = Game::new(7);
    g.objects.truncate(1);
    let (px, py) = (g.objects[0].x, g.objects[0].y);
    g.objects.push(orc_at(px + 1, py, 10, 0, 3));

    g.move_by(0, 1, 0);

    assert_eq!((g.objects[0].x, g.objects[0].y), (px, py));
}

#[test]
fn corpses_do_not_block_movement() {
    let mut g = Game::new(7);
    g.objects.truncate(1);
    let (px, py) = (g.objects[0].x, g.objects[0].y);
    let mut corpse = orc_at(px + 1, py, 10, 0, 3);
    corpse.take_damage(10, &mut g.messages);
    assert!(!corpse.blocks);
    g.objects.push(corpse);

    g.move_by(0, 1, 0);

    assert_eq!((g.objects[0].x, g.objects[0].y), (px + 1, py));
}

#[test]
fn move_towards_takes_single_steps_and_stalls_on_walls() {
    let mut g = Game::new(7);
    g.objects.truncate(1);
    let (px, py) = (g.objects[0].x, g.objects[0].y);
    // Standing on the target is a no-op.
    g.move_towards(0, px, py);
    assert_eq!((g.objects[0].x, g.objects[0].y), (px, py));
    // One step toward a target in the same row.
    g.move_towards(0, px + 3, py);
    assert_eq!((g.objects[0].x, g.objects[0].y), (px + 1, py));
}

#[test]
fn dead_player_ignores_keys_and_monsters_rest() {
    let mut g = Game::new(7);
    g.objects.truncate(1);
    let (px, py) = (g.objects[0].x, g.objects[0].y);
    g.objects[0].alive = false;
    let before_msgs = g.messages.len();

    g.handle_keys(68);
    assert_eq!((g.objects[0].x, g.objects[0].y), (px, py));

    g.objects.push(orc_at(px, py - 1, 10, 0, 3));
    g.update();
    // The action phase is skipped entirely for a dead player.
    assert_eq!(g.objects[0].fighter.unwrap().hp, 30);
    assert_eq!(g.messages.len(), before_msgs);
}

#[test]
fn exploration_is_monotonic_over_ticks() {
    let mut g = Game::new(3);
    let mut tcod = dungeon_core::draw::Tcod::new(
        dungeon_core::config::SCREEN_WIDTH,
        dungeon_core::config::SCREEN_HEIGHT,
    );
    g.update();
    g.render(&mut tcod, (0, 0));
    let mut explored: Vec<(i32, i32)> = Vec::new();
    for x in 0..dungeon_core::config::MAP_WIDTH {
        for y in 0..dungeon_core::config::MAP_HEIGHT {
            if g.map.tile_at(x, y).explored {
                explored.push((x, y));
            }
        }
    }
    assert!(!explored.is_empty());
    // Walk around for a while; everything once explored stays explored.
    for step in 0..20 {
        let key = if step % 2 == 0 { 68 } else { 83 };
        g.handle_keys(key);
        g.update();
        g.render(&mut tcod, (0, 0));
        for &(x, y) in &explored {
            assert!(g.map.tile_at(x, y).explored);
        }
    }
}

#[test]
fn distant_monster_steps_once_toward_the_player() {
    let mut g = Game::new(7);
    g.objects.truncate(1);
    let (px, py) = (g.objects[0].x, g.objects[0].y);
    // Three cells to the right of the player, on the same row, inside the
    // first room (its interior is at least five cells wide).
    g.objects.push(orc_at(px + 3, py, 10, 0, 3));

    g.update();

    // The orc closed in by exactly one cell.
    assert_eq!((g.objects[1].x, g.objects[1].y), (px + 2, py));
    // The player was never touched.
    assert_eq!(g.objects[0].fighter.unwrap().hp, 30);
}

#[test]
fn names_under_the_mouse_list_visible_entities() {
    let mut g = Game::new(7);
    g.objects.truncate(1);
    let (px, py) = (g.objects[0].x, g.objects[0].y);
    g.objects.push(orc_at(px + 1, py, 10, 0, 3));
    g.objects.push(orc_at(px + 1, py, 10, 0, 3));
    // Make the cell visible first.
    g.update();

    assert_eq!(g.get_names_at((px + 1, py)), "orc, orc");
    assert_eq!(g.get_names_at((px, py)), "player");
    // A far-away wall cell lists nothing.
    assert_eq!(g.get_names_at((0, 0)), "");
}

#[test]
fn worlds_from_one_seed_are_identical() {
    let a = Game::new(12345);
    let b = Game::new(12345);
    assert_eq!(a.objects.len(), b.objects.len());
    for k in 0..a.objects.len() {
        let (x, y) = (&a.objects[k], &b.objects[k]);
        assert_eq!((x.x, x.y), (y.x, y.y));
        assert_eq!(x.glyph, y.glyph);
        assert_eq!(x.name, y.name);
        assert_eq!(x.blocks, y.blocks);
        assert_eq!(x.alive, y.alive);
        assert_eq!(x.fighter, y.fighter);
        assert_eq!(x.ai.map(|ai| ai.speed), y.ai.map(|ai| ai.speed));
        assert_eq!(x.attacking, y.attacking);
    }
    assert_eq!(a.rng, b.rng);
    assert_eq!(a.messages.len(), b.messages.len());
}

#[test]
fn draw_order_sorts_dead_then_nonblocking_first() {
    let mut g = Game::new(7);
    g.objects.truncate(1);
    let (px, py) = (g.objects[0].x, g.objects[0].y);
    // A live blocking monster, a corpse, and the (alive, non-blocking)
    // player share the visible room.
    g.objects.push(orc_at(px + 1, py, 10, 0, 3));
    let mut corpse = orc_at(px - 1, py, 10, 0, 3);
    corpse.take_damage(10, &mut g.messages);
    g.objects.push(corpse);
    // Make the cells visible.
    g.update();

    let order = g.visible_draw_order();

    assert_eq!(order, vec![2, 0, 1]);
}

#[test]
fn heal_accepts_negative_amounts() {
    let mut m = orc_at(3, 3, 10, 0, 3);
    m.heal(-4);
    assert_eq!(m.fighter.unwrap().hp, 6);
    // No death transition on heal, matching the damage path only.
    assert!(m.alive);
}
