//! The connection handshake, identity allocation and input bookkeeping.

use recurse_arena::protocol::{Button, FromServerMsg, Input, ToServerMsg};
use recurse_arena::session::{
    apply_input, register_player, ButtonsDown, ClientEntry, Clients, IdAlloc, LoginError, Session,
    SessionPhase,
};
use recurse_arena::session::drop_client;
use recurse_arena::state::{Event, GameState, PlayerId, MAX_HEALTH};
use recurse_arena::vec2::Vec2;

fn fresh_world() -> (GameState, Clients) {
    let mut gs = GameState {
        players: Vec::new(),
        bullets: Vec::new(),
        events: Vec::new(),
    };
    let mut clients = Clients::new();
    register_player(&mut gs, PlayerId(1), "one".to_string(), Vec2::new(1500, 1500));
    clients.entries.push(ClientEntry {
        id: PlayerId(1),
        buttons: ButtonsDown::none(),
    });
    (gs, clients)
}

#[test]
fn ids_are_unique_and_monotonic() {
    let mut alloc = IdAlloc::new();
    let a = alloc.fresh();
    let b = alloc.fresh();
    let c = alloc.fresh();
    assert_eq!(a, PlayerId(0));
    assert_eq!(b, PlayerId(1));
    assert_eq!(c, PlayerId(2));
    assert!(a != b && b != c && a != c);
}

#[test]
fn welcome_comes_before_any_update() {
    // A connection yields its Welcome at creation; an Update message can
    // only be produced once the login was accepted.
    let (session, first) = Session::begin(PlayerId(8));
    assert_eq!(first, FromServerMsg::Welcome(PlayerId(8)));
    assert_eq!(session.phase, SessionPhase::AwaitingLogin);

    let mut session = session;
    let r = session.handle_login(ToServerMsg::Login(PlayerId(8), "late".to_string()));
    assert_eq!(r, Ok("late".to_string()));
    assert_eq!(session.phase, SessionPhase::Established);
    let gs = GameState {
        players: Vec::new(),
        bullets: Vec::new(),
        events: Vec::new(),
    };
    match session.update_msg(gs) {
        FromServerMsg::Update(_) => {}
        other => panic!("expected an update, got {:?}", other),
    }
}

#[test]
fn login_with_wrong_id_is_rejected() {
    let (mut session, _welcome) = Session::begin(PlayerId(8));
    let r = session.handle_login(ToServerMsg::Login(PlayerId(9), "liar".to_string()));
    assert_eq!(r, Err(LoginError::WrongId));
    assert_eq!(session.phase, SessionPhase::Closed);
}

#[test]
fn first_message_must_be_login() {
    let (mut session, _welcome) = Session::begin(PlayerId(8));
    let r = session.handle_login(ToServerMsg::Input(
        PlayerId(8),
        Input::Release(Button::Fire),
    ));
    assert_eq!(r, Err(LoginError::NotLogin));
    assert_eq!(session.phase, SessionPhase::Closed);
}

#[test]
fn fire_press_spawns_one_bullet_per_transition() {
    let (mut gs, mut clients) = fresh_world();
    let aim = Vec2::new(0, 1000);
    apply_input(&mut gs, &mut clients, PlayerId(1), Input::Press(Button::Fire, aim));
    assert_eq!(gs.bullets.len(), 1);
    assert_eq!(gs.players[0].dir, aim);
    assert!(matches!(gs.events.last(), Some(Event::BulletFired(_))));
    // Still held: no second bullet.
    apply_input(&mut gs, &mut clients, PlayerId(1), Input::Press(Button::Fire, aim));
    assert_eq!(gs.bullets.len(), 1);
    // Released and pressed again: one more.
    apply_input(&mut gs, &mut clients, PlayerId(1), Input::Release(Button::Fire));
    apply_input(&mut gs, &mut clients, PlayerId(1), Input::Press(Button::Fire, aim));
    assert_eq!(gs.bullets.len(), 2);
    // The bullet flies along the aim and belongs to the shooter.
    assert_eq!(gs.bullets[0].vel, Vec2::new(0, 10_000));
    assert_eq!(gs.bullets[0].pid, PlayerId(1));
    assert_eq!(gs.bullets[0].pos, Vec2::new(1500, 1700));
}

#[test]
fn oversized_aim_directions_are_ignored() {
    let (mut gs, mut clients) = fresh_world();
    let before = gs.players[0].dir;
    apply_input(
        &mut gs,
        &mut clients,
        PlayerId(1),
        Input::DirChanged(Vec2::new(2_000_000, 5)),
    );
    assert_eq!(gs.players[0].dir, before);
    apply_input(
        &mut gs,
        &mut clients,
        PlayerId(1),
        Input::DirChanged(Vec2::new(-707, 707)),
    );
    assert_eq!(gs.players[0].dir, Vec2::new(-707, 707));
}

#[test]
fn inputs_from_unknown_ids_do_nothing() {
    let (mut gs, mut clients) = fresh_world();
    apply_input(
        &mut gs,
        &mut clients,
        PlayerId(77),
        Input::Press(Button::Fire, Vec2::new(1000, 0)),
    );
    assert!(gs.bullets.is_empty());
    assert_eq!(gs.players.len(), 1);
}

#[test]
fn join_and_leave_are_reported() {
    let (mut gs, mut clients) = fresh_world();
    assert!(matches!(gs.events[0], Event::PlayerJoined(PlayerId(1))));
    assert_eq!(gs.players[0].health, MAX_HEALTH);
    drop_client(&mut gs, &mut clients, PlayerId(1));
    assert!(gs.players.is_empty());
    assert!(clients.entries.is_empty());
    assert!(gs
        .events
        .iter()
        .any(|e| matches!(e, Event::PlayerLeft(name) if name == "one")));
}
