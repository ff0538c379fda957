//! Wire codec behaviour: exact byte layouts, full round trips, and the
//! rejection of malformed input.

use recurse_arena::codec::{
    decode_from_server, decode_game, decode_str, decode_to_server, encode_from_server,
    encode_game, encode_i64, encode_to_server, encode_u32,
};
use recurse_arena::protocol::{Button, FromServerMsg, Input, ToServerMsg};
use recurse_arena::state::{Bullet, Event, GameState, Player, PlayerId};
use recurse_arena::vec2::Vec2;

fn sample_state() -> GameState {
    GameState {
        players: vec![
            Player {
                id: PlayerId(1),
                name: "ada".to_string(),
                dir: Vec2::new(1000, 0),
                pos: Vec2::new(1500, 1500),
                vel: Vec2::new(-3, 12),
                force: Vec2::new(0, -40_000),
                health: 80,
                respawn_timer: 0,
                score: 2,
            },
            Player {
                id: PlayerId(2),
                name: "grác€ 😀".to_string(),
                dir: Vec2::new(0, -1000),
                pos: Vec2::new(9500, 2500),
                vel: Vec2::zero(),
                force: Vec2::zero(),
                health: 0,
                respawn_timer: 1200,
                score: 7,
            },
        ],
        bullets: vec![Bullet {
            pos: Vec2::new(4000, -250),
            vel: Vec2::new(10_000, 0),
            pid: PlayerId(1),
        }],
        events: vec![
            Event::BulletHitWall(Vec2::new(1, 2), Vec2::new(3, 4)),
            Event::BulletHitPlayer(
                Bullet {
                    pos: Vec2::new(5, 6),
                    vel: Vec2::new(7, 8),
                    pid: PlayerId(1),
                },
                PlayerId(2),
                20,
            ),
            Event::PlayerDied(PlayerId(2), PlayerId(1)),
            Event::PlayerRespawned(PlayerId(2)),
            Event::BulletFired(Vec2::new(9, 10)),
            Event::PlayerJoined(PlayerId(3)),
            Event::PlayerLeft("grác€ 😀".to_string()),
        ],
    }
}

#[test]
fn u32_layout_is_little_endian() {
    let mut out: Vec<u8> = Vec::new();
    encode_u32(&mut out, 0x0102_0304);
    assert_eq!(out, vec![0x04, 0x03, 0x02, 0x01]);
}

#[test]
fn i64_layout_is_offset_binary() {
    let mut out: Vec<u8> = Vec::new();
    encode_i64(&mut out, -1);
    assert_eq!(out, vec![0xFF, 0xFF, 0xFF, 0xFF, 0xFF, 0xFF, 0xFF, 0x7F]);
    let mut zero: Vec<u8> = Vec::new();
    encode_i64(&mut zero, 0);
    assert_eq!(zero, vec![0, 0, 0, 0, 0, 0, 0, 0x80]);
}

#[test]
fn game_state_round_trip() {
    let gs = sample_state();
    let mut bytes: Vec<u8> = Vec::new();
    encode_game(&mut bytes, &gs);
    let (back, used) = decode_game(&bytes, 0).expect("decodes");
    assert_eq!(used, bytes.len());
    assert_eq!(back, gs);
}

#[test]
fn from_server_round_trips() {
    let mut w: Vec<u8> = Vec::new();
    encode_from_server(&mut w, &FromServerMsg::Welcome(PlayerId(41)));
    let (m, used) = decode_from_server(&w, 0).expect("decodes");
    assert_eq!(used, w.len());
    assert_eq!(m, FromServerMsg::Welcome(PlayerId(41)));

    let mut u: Vec<u8> = Vec::new();
    encode_from_server(&mut u, &FromServerMsg::Update(sample_state()));
    let (m2, used2) = decode_from_server(&u, 0).expect("decodes");
    assert_eq!(used2, u.len());
    assert_eq!(m2, FromServerMsg::Update(sample_state()));
}

#[test]
fn to_server_round_trips() {
    let msgs = vec![
        ToServerMsg::Login(PlayerId(5), "κλμ name".to_string()),
        ToServerMsg::Input(PlayerId(5), Input::Press(Button::Fire, Vec2::new(700, -700))),
        ToServerMsg::Input(PlayerId(5), Input::Release(Button::Forward)),
        ToServerMsg::Input(PlayerId(5), Input::DirChanged(Vec2::new(-1000, 0))),
    ];
    for msg in msgs {
        let mut bytes: Vec<u8> = Vec::new();
        encode_to_server(&mut bytes, &msg);
        let (back, used) = decode_to_server(&bytes, 0).expect("decodes");
        assert_eq!(used, bytes.len());
        assert_eq!(back, msg);
    }
}

#[test]
fn truncated_and_malformed_input_is_rejected() {
    let mut bytes: Vec<u8> = Vec::new();
    encode_to_server(
        &mut bytes,
        &ToServerMsg::Login(PlayerId(5), "someone".to_string()),
    );
    for cut in 0..bytes.len() {
        assert!(decode_to_server(&bytes[..cut].to_vec(), 0).is_none());
    }
    // An unknown message tag.
    assert!(decode_to_server(&vec![9u8, 0, 0, 0, 0], 0).is_none());
    // A string carrying a surrogate code point is refused.
    let mut bad: Vec<u8> = Vec::new();
    encode_u32(&mut bad, 1);
    encode_u32(&mut bad, 0xD800);
    assert!(decode_str(&bad, 0).is_none());
}

#[test]
fn decode_str_round_trips_unicode() {
    let name = "bôrk 熊 🎯".to_string();
    let mut bytes: Vec<u8> = Vec::new();
    recurse_arena::codec::encode_str(&mut bytes, &name);
    let (back, used) = decode_str(&bytes, 0).expect("decodes");
    assert_eq!(used, bytes.len());
    assert_eq!(back, name);
}
