use dungeon_core::config::{MAP_HEIGHT, MAP_WIDTH};
use dungeon_core::game::Game;

#[test]
fn map_generation_is_deterministic() {
    let a = Game::new(42);
    let b = Game::new(42);

    assert_eq!(a.map.rooms.len(), b.map.rooms.len());
    for i in 0..a.map.rooms.len() {
        assert_eq!(a.map.rooms[i], b.map.rooms[i]);
    }
    for x in 0..MAP_WIDTH {
        for y in 0..MAP_HEIGHT {
            let ta = a.map.tile_at(x, y);
            let tb = b.map.tile_at(x, y);
            assert_eq!(ta.blocked, tb.blocked);
            assert_eq!(ta.block_sight, tb.block_sight);
            assert_eq!(ta.explored, tb.explored);
        }
    }
}

#[test]
fn different_seeds_give_different_maps() {
    // Not guaranteed in principle, but these two seeds do differ; this
    // guards against the generator ignoring its seed.
    let a = Game::new(1);
    let b = Game::new(2);
    let mut differs = a.map.rooms.len() != b.map.rooms.len();
    if !differs {
        for i in 0..a.map.rooms.len() {
            if a.map.rooms[i] != b.map.rooms[i] {
                differs = true;
            }
        }
    }
    assert!(differs);
}

#[test]
fn accepted_rooms_never_intersect() {
    for seed in [0u64, 1, 7, 42, 1234567] {
        let g = Game::new(seed);
        let rooms = &g.map.rooms;
        for i in 0..rooms.len() {
            for j in 0..rooms.len() {
                if i != j {
                    assert!(!rooms[i].intersects_with(&rooms[j]));
                }
            }
        }
    }
}

#[test]
fn room_interiors_are_open() {
    for seed in [3u64, 99] {
        let g = Game::new(seed);
        for room in g.map.rooms.iter() {
            for x in (room.x1 + 1)..room.x2 {
                for y in (room.y1 + 1)..room.y2 {
                    let t = g.map.tile_at(x, y);
                    assert!(!t.blocked);
                    assert!(!t.block_sight);
                }
            }
        }
    }
}

#[test]
fn border_cells_stay_walls() {
    let g = Game::new(5);
    for x in 0..MAP_WIDTH {
        for &y in &[0, MAP_HEIGHT - 1] {
            let t = g.map.tile_at(x, y);
            assert!(t.blocked && t.block_sight);
        }
    }
    for y in 0..MAP_HEIGHT {
        for &x in &[0, MAP_WIDTH - 1] {
            let t = g.map.tile_at(x, y);
            assert!(t.blocked && t.block_sight);
        }
    }
}

#[test]
fn fresh_map_is_unexplored() {
    let g = Game::new(11);
    for x in 0..MAP_WIDTH {
        for y in 0..MAP_HEIGHT {
            assert!(!g.map.tile_at(x, y).explored);
        }
    }
}
