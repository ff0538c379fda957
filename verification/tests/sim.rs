//! Simulation behaviour: level geometry, physics steps, the tick, and
//! the spawn rule, on concrete values.

use recurse_arena::geom::CSquare;
use recurse_arena::level::{collision_boxes, floor_tiles, LOGO_HEIGHT, LOGO_WIDTH};
use recurse_arena::session::{
    apply_move_forces, register_player, respawn_player, spawn_position, ButtonsDown, ClientEntry,
    Clients,
};
use recurse_arena::state::{
    Bullet, Event, GameState, Player, PlayerId, BULLET_DAMAGE, MAX_HEALTH, RANGE_CAP, RESPAWN_MS,
};
use recurse_arena::vec2::Vec2;

fn empty_state() -> GameState {
    GameState {
        players: Vec::new(),
        bullets: Vec::new(),
        events: Vec::new(),
    }
}

fn player_at(id: u32, name: &str, x: i64, y: i64) -> Player {
    Player {
        id: PlayerId(id),
        name: name.to_string(),
        dir: Vec2::new(1000, 0),
        pos: Vec2::new(x, y),
        vel: Vec2::zero(),
        force: Vec2::zero(),
        health: MAX_HEALTH,
        respawn_timer: 0,
        score: 0,
    }
}

#[test]
fn level_has_expected_tiles() {
    let boxes = collision_boxes();
    let floors = floor_tiles();
    assert_eq!(boxes.len(), 74);
    assert_eq!(floors.len(), 106);
    assert_eq!(boxes.len() + floors.len(), LOGO_WIDTH * LOGO_HEIGHT);
    // The first solid tile is the level's top-left corner, one unit wide.
    assert_eq!(boxes[0].top_left, Vec2::new(0, 0));
    assert_eq!(boxes[0].bottom_right, Vec2::new(1000, 1000));
    // The first floor tile is just inside the border, at its centre.
    assert_eq!(floors[0], Vec2::new(1500, 1500));
}

#[test]
fn player_step_exact_values() {
    // Force 40 units/s^2 to the right, 8 ms step, far from any wall:
    // velocity picks up 320 milli-units/s, is damped to 288, and the
    // position advances by 2 milli-units.
    let boxes: Vec<CSquare> = Vec::new();
    let mut p = player_at(1, "ada", 5500, 5500);
    p.force = Vec2::new(40_000, 0);
    p.update(&boxes, 8);
    assert_eq!(p.vel, Vec2::new(288, 0));
    assert_eq!(p.pos, Vec2::new(5502, 5500));
    assert_eq!(p.health, MAX_HEALTH);
}

#[test]
fn bullet_dies_beyond_range_cap() {
    let boxes: Vec<CSquare> = Vec::new();
    let mut b = Bullet {
        pos: Vec2::new(RANGE_CAP - 10, 0),
        vel: Vec2::new(10_000, 0),
        pid: PlayerId(1),
    };
    let dead = b.update(&boxes, 8);
    assert!(dead);
    assert_eq!(b.pos, Vec2::new(RANGE_CAP + 70, 0));

    let mut near = Bullet {
        pos: Vec2::new(0, 0),
        vel: Vec2::new(10_000, 0),
        pid: PlayerId(1),
    };
    assert!(!near.update(&boxes, 8));
    assert_eq!(near.pos, Vec2::new(80, 0));
}

#[test]
fn out_of_range_bullet_removed_on_next_step() {
    let boxes = collision_boxes();
    let mut gs = empty_state();
    // Beyond the cap and flying back toward the origin: removed anyway.
    gs.bullets.push(Bullet {
        pos: Vec2::new(RANGE_CAP + 500, 0),
        vel: Vec2::new(-10_000, 0),
        pid: PlayerId(9),
    });
    gs.update(&boxes, 8);
    assert!(gs.bullets.is_empty());
}

#[test]
fn tick_clears_stale_events() {
    let boxes = collision_boxes();
    let mut gs = empty_state();
    gs.events.push(Event::PlayerJoined(PlayerId(7)));
    let ready = gs.update(&boxes, 8);
    assert!(gs.events.is_empty());
    assert!(ready.is_empty());
}

#[test]
fn bullet_hit_damages_and_kills() {
    let boxes: Vec<CSquare> = Vec::new();
    let mut gs = empty_state();
    gs.players.push(player_at(1, "shooter", 9_000, 9_000));
    gs.players.push(player_at(2, "victim", 5_000, 5_000));
    let mut health = MAX_HEALTH;
    let mut ticks = 0;
    while health > 0 {
        // A fresh bullet overlapping the victim each tick.
        gs.bullets.push(Bullet {
            pos: Vec2::new(5_000, 5_000),
            vel: Vec2::zero(),
            pid: PlayerId(1),
        });
        gs.update(&boxes, 8);
        health = health.saturating_sub(BULLET_DAMAGE);
        ticks += 1;
        assert_eq!(gs.players[1].health, health);
        assert!(gs.players[1].health <= MAX_HEALTH);
        let hits = gs
            .events
            .iter()
            .filter(|e| matches!(e, Event::BulletHitPlayer(_, _, _)))
            .count();
        assert_eq!(hits, 1);
        assert!(gs.bullets.is_empty());
    }
    assert_eq!(ticks, 5);
    // The killing tick reported the death and credited the shooter.
    assert!(gs
        .events
        .iter()
        .any(|e| matches!(e, Event::PlayerDied(v, k) if *v == PlayerId(2) && *k == PlayerId(1))));
    assert_eq!(gs.players[0].score, 1);
    assert_eq!(gs.players[1].respawn_timer, RESPAWN_MS);
}

#[test]
fn respawn_after_countdown() {
    let boxes: Vec<CSquare> = Vec::new();
    let mut gs = empty_state();
    let mut dead = player_at(3, "down", 4_500, 4_500);
    dead.health = 0;
    dead.respawn_timer = RESPAWN_MS;
    gs.players.push(dead);
    let r1 = gs.update(&boxes, 1000);
    assert!(r1.is_empty());
    let r2 = gs.update(&boxes, 1000);
    assert!(r2.is_empty());
    let r3 = gs.update(&boxes, 1000);
    assert_eq!(r3, vec![PlayerId(3)]);
    assert_eq!(gs.players[0].respawn_timer, 0);
    respawn_player(&mut gs, PlayerId(3), Vec2::new(1500, 1500));
    assert_eq!(gs.players[0].health, MAX_HEALTH);
    assert_eq!(gs.players[0].pos, Vec2::new(1500, 1500));
    assert!(gs
        .events
        .iter()
        .any(|e| matches!(e, Event::PlayerRespawned(id) if *id == PlayerId(3))));
}

#[test]
fn bullet_into_adjacent_wall_hits_once_and_vanishes() {
    // The level is 12 by 15 tiles; a bullet fired from the player's
    // tile straight at the adjacent border wall reports exactly one
    // wall hit and is gone on the following tick.
    let boxes = collision_boxes();
    let mut gs = empty_state();
    gs.players.push(player_at(1, "gunner", 1500, 1500));
    gs.bullets.push(Bullet {
        pos: Vec2::new(1500, 1500),
        vel: Vec2::new(-10_000, 0),
        pid: PlayerId(1),
    });
    let mut wall_hits = 0;
    for _ in 0..100 {
        gs.update(&boxes, 8);
        wall_hits += gs
            .events
            .iter()
            .filter(|e| matches!(e, Event::BulletHitWall(_, _)))
            .count();
        if gs.bullets.is_empty() {
            break;
        }
    }
    assert_eq!(wall_hits, 1);
    assert!(gs.bullets.is_empty());
    // The following tick reports nothing further.
    gs.update(&boxes, 8);
    assert!(gs.events.is_empty());
}

#[test]
fn held_forward_moves_only_that_player() {
    let boxes = collision_boxes();
    let mut gs = empty_state();
    gs.players.push(player_at(1, "mover", 5500, 5500));
    gs.players.push(player_at(2, "idler", 8500, 5500));
    let clients = Clients {
        entries: vec![
            ClientEntry {
                id: PlayerId(1),
                buttons: ButtonsDown {
                    forward: true,
                    left: false,
                    back: false,
                    right: false,
                    fire: false,
                },
            },
            ClientEntry {
                id: PlayerId(2),
                buttons: ButtonsDown::none(),
            },
        ],
    };
    let idle_pos = gs.players[1].pos;
    let mut last_y = gs.players[0].pos.y;
    let mut moved = false;
    for _ in 0..10 {
        apply_move_forces(&mut gs, &clients);
        gs.update(&boxes, 8);
        let y = gs.players[0].pos.y;
        assert!(y <= last_y);
        if y < last_y {
            moved = true;
        }
        last_y = y;
        assert_eq!(gs.players[1].pos, idle_pos);
        assert_eq!(gs.players[1].vel, Vec2::zero());
    }
    assert!(moved);
    assert!(gs.players[0].pos.y < 5500);
}

#[test]
fn first_spawn_is_floor_second_maximises_distance() {
    let tiles = floor_tiles();
    let gs = empty_state();
    // An empty arena: any draw lands on some floor tile.
    for draw in [0u64, 1, 41, 105, 106, 9_999_999] {
        let p = spawn_position(&gs, &tiles, draw);
        assert!(tiles.contains(&p));
    }
    // With one player present the choice is the first floor tile
    // maximising the minimum distance to any player.
    let mut gs = empty_state();
    register_player(
        &mut gs,
        PlayerId(1),
        "first".to_string(),
        Vec2::new(1500, 1500),
    );
    let picked = spawn_position(&gs, &tiles, 3);
    let dist = |a: Vec2, b: Vec2| -> i64 {
        let dx = a.x - b.x;
        let dy = a.y - b.y;
        dx * dx + dy * dy
    };
    let mut best = tiles[0];
    let mut best_d = dist(tiles[0], Vec2::new(1500, 1500));
    for t in tiles.iter().skip(1) {
        let d = dist(*t, Vec2::new(1500, 1500));
        if d > best_d {
            best = *t;
            best_d = d;
        }
    }
    assert_eq!(picked, best);
    assert!(tiles.contains(&picked));
    assert!(dist(picked, Vec2::new(1500, 1500)) >= dist(tiles[0], Vec2::new(1500, 1500)));
}

#[test]
fn spawn_with_generator_lands_on_floor() {
    let tiles = floor_tiles();
    let gs = empty_state();
    let mut rng = ludomath::rng::Rng::new_seeded(12, 34);
    for _ in 0..20 {
        let p = recurse_arena::rng::choose_spawn(&mut rng, &gs, &tiles);
        assert!(tiles.contains(&p));
    }
}

#[test]
fn extreme_time_steps_are_accepted() {
    let boxes = collision_boxes();
    let mut gs = empty_state();
    gs.players.push(player_at(1, "p", 5500, 5500));
    gs.update(&boxes, 0);
    assert_eq!(gs.players[0].pos, Vec2::new(5500, 5500));
    gs.players[0].force = Vec2::new(40_000, 0);
    gs.update(&boxes, 1000);
    assert!(gs.players[0].pos.x > 5500);
}
