//! Connection-side decisions: identities, the login handshake, button
//! bookkeeping, and what each input or connection change does to the
//! game state.
//!
//! The sockets and threads that carry these decisions live outside the
//! library; they hand decoded messages in and apply the returned state.

use vstd::prelude::*;

verus! {

use crate::fixed::FX_ONE;
use crate::vec2::{Vec2, Vec2s, bounded, dist_sq_s};
use crate::fixed::min_s;
use crate::level::points_view;
use crate::state::{PlayerId, Player, Bullet, Event, EventV, GameState, GameV, PlayerV, player_wf, bullet_wf, state_wf, players_view, bullets_view, events_view, MAX_HEALTH, MOVE_FORCE, ARENA_LIMIT};
use crate::protocol::{Button, Input, InputV, ToServerMsg, ToServerMsgV, FromServerMsg, FromServerMsgV};

/// Hands out process-unique player ids: a monotonic counter, never
/// reused, owned by the connection manager.
pub struct IdAlloc {
    pub next: u32,
}

impl IdAlloc {
    pub fn new() -> (r: IdAlloc)
        ensures
            r.next == 0,
    {
        IdAlloc { next: 0 }
    }

    /// The next identity.  Every id handed out is below `next`, so two
    /// calls never return the same id.
    pub fn fresh(&mut self) -> (id: PlayerId)
        requires
            old(self).next < u32::MAX,
        ensures
            id@ == old(self).next as int,
            final(self).next == old(self).next + 1,
    {
        let id = PlayerId(self.next);
        self.next = self.next + 1;
        id
    }
}

/// Which buttons one client currently holds.
#[derive(Clone, Copy, Debug, Default, PartialEq, Eq, Structural)]
pub struct ButtonsDown {
    pub forward: bool,
    pub left: bool,
    pub back: bool,
    pub right: bool,
    pub fire: bool,
}

impl ButtonsDown {
    pub fn none() -> (r: ButtonsDown)
        ensures
            r == (ButtonsDown { forward: false, left: false, back: false, right: false, fire: false }),
    {
        ButtonsDown { forward: false, left: false, back: false, right: false, fire: false }
    }

    /// Whether `b` is held.
    pub fn holds(&self, b: Button) -> (r: bool)
        ensures
            r == button_held(*self, b),
    {
        match b {
            Button::Forward => self.forward,
            Button::Left => self.left,
            Button::Back => self.back,
            Button::Right => self.right,
            Button::Fire => self.fire,
        }
    }

    /// With `b` set to `down`.
    pub fn with(&self, b: Button, down: bool) -> (r: ButtonsDown)
        ensures
            r == button_set(*self, b, down),
    {
        let mut r = *self;
        match b {
            Button::Forward => {
                r.forward = down;
            },
            Button::Left => {
                r.left = down;
            },
            Button::Back => {
                r.back = down;
            },
            Button::Right => {
                r.right = down;
            },
            Button::Fire => {
                r.fire = down;
            },
        }
        r
    }
}

/// Whether `b` is held in `s`.
pub open spec fn button_held(s: ButtonsDown, b: Button) -> bool {
    match b {
        Button::Forward => s.forward,
        Button::Left => s.left,
        Button::Back => s.back,
        Button::Right => s.right,
        Button::Fire => s.fire,
    }
}

/// `s` with `b` set to `down`.
pub open spec fn button_set(s: ButtonsDown, b: Button, down: bool) -> ButtonsDown {
    match b {
        Button::Forward => ButtonsDown { forward: down, ..s },
        Button::Left => ButtonsDown { left: down, ..s },
        Button::Back => ButtonsDown { back: down, ..s },
        Button::Right => ButtonsDown { right: down, ..s },
        Button::Fire => ButtonsDown { fire: down, ..s },
    }
}

/// One connected client's local bookkeeping: its id and held buttons.
/// What is held is connection metadata, never broadcast.
#[derive(Clone, Copy, Debug, PartialEq, Eq, Structural)]
pub struct ClientEntry {
    pub id: PlayerId,
    pub buttons: ButtonsDown,
}

/// The connected clients, in connection order.
pub struct Clients {
    pub entries: Vec<ClientEntry>,
}

/// The first index holding id `id`, if any.
pub open spec fn client_idx(cs: Seq<ClientEntry>, id: int) -> Option<int>
    decreases cs.len(),
{
    if cs.len() == 0 {
        None
    } else if cs[0].id@ == id {
        Some(0)
    } else {
        match client_idx(cs.skip(1), id) {
            Some(i) => Some(i + 1),
            None => None,
        }
    }
}

/// A found client index is in range and holds the id.
pub proof fn lemma_client_idx(cs: Seq<ClientEntry>, id: int)
    requires
        client_idx(cs, id) is Some,
    ensures
        0 <= client_idx(cs, id).unwrap() < cs.len(),
        cs[client_idx(cs, id).unwrap()].id@ == id,
    decreases cs.len(),
{
    if cs.len() > 0 && cs[0].id@ != id {
        lemma_client_idx(cs.skip(1), id);
    }
}

/// The first player index holding id `id`, if any.
pub open spec fn player_idx(ps: Seq<PlayerV>, id: int) -> Option<int>
    decreases ps.len(),
{
    if ps.len() == 0 {
        None
    } else if ps[0].id == id {
        Some(0)
    } else {
        match player_idx(ps.skip(1), id) {
            Some(i) => Some(i + 1),
            None => None,
        }
    }
}

/// A found player index is in range and holds the id; a missing one
/// means no player holds it.
pub proof fn lemma_player_idx(ps: Seq<PlayerV>, id: int)
    ensures
        player_idx(ps, id) matches Some(i) ==> 0 <= i < ps.len() && ps[i].id == id,
        player_idx(ps, id) is None ==> forall|i: int| 0 <= i < ps.len() ==> ps[i].id != id,
    decreases ps.len(),
{
    if ps.len() > 0 {
        lemma_player_idx(ps.skip(1), id);
        if ps[0].id != id {
            match player_idx(ps.skip(1), id) {
                Some(i) => {
                    assert(ps.skip(1)[i] == ps[i + 1]);
                },
                None => {
                    assert forall|i: int| 0 <= i < ps.len() implies ps[i].id != id by {
                        if i > 0 {
                            assert(ps.skip(1)[i - 1] == ps[i]);
                        }
                    }
                },
            }
        }
    }
}

impl Clients {
    pub fn new() -> (r: Clients)
        ensures
            r.entries@.len() == 0,
    {
        Clients { entries: Vec::new() }
    }

    /// The position of the client with this id.
    pub fn find(&self, id: PlayerId) -> (r: Option<usize>)
        ensures
            match r {
                Some(i) => client_idx(self.entries@, id@) == Some(i as int),
                None => client_idx(self.entries@, id@) is None,
            },
    {
        let mut i: usize = 0;
        while i < self.entries.len()
            invariant
                i <= self.entries@.len(),
                forall|m: int| 0 <= m < i ==> self.entries@[m].id@ != id@,
            decreases self.entries@.len() - i,
        {
            if self.entries[i].id == id {
                proof {
                    lemma_client_idx_from_scan(self.entries@, id@, i as int);
                }
                return Some(i);
            }
            i = i + 1;
        }
        proof {
            lemma_client_idx_none(self.entries@, id@);
        }
        None
    }
}

/// If everything before `i` misses and `i` hits, the first match is `i`.
proof fn lemma_client_idx_from_scan(cs: Seq<ClientEntry>, id: int, i: int)
    requires
        0 <= i < cs.len(),
        cs[i].id@ == id,
        forall|m: int| 0 <= m < i ==> cs[m].id@ != id,
    ensures
        client_idx(cs, id) == Some(i),
    decreases i,
{
    if i > 0 {
        lemma_client_idx_from_scan(cs.skip(1), id, i - 1);
    }
}

/// If every entry misses, there is no first match.
proof fn lemma_client_idx_none(cs: Seq<ClientEntry>, id: int)
    requires
        forall|m: int| 0 <= m < cs.len() ==> cs[m].id@ != id,
    ensures
        client_idx(cs, id) is None,
    decreases cs.len(),
{
    if cs.len() > 0 {
        assert(forall|m: int| 0 <= m < cs.skip(1).len() ==> cs.skip(1)[m].id@ != id);
        lemma_client_idx_none(cs.skip(1), id);
    }
}

/// If everything before `i` misses and `i` hits, the first match is `i`.
proof fn lemma_player_idx_from_scan(ps: Seq<PlayerV>, id: int, i: int)
    requires
        0 <= i < ps.len(),
        ps[i].id == id,
        forall|m: int| 0 <= m < i ==> ps[m].id != id,
    ensures
        player_idx(ps, id) == Some(i),
    decreases i,
{
    if i > 0 {
        lemma_player_idx_from_scan(ps.skip(1), id, i - 1);
    }
}

/// If every player misses, there is no first match.
proof fn lemma_player_idx_none(ps: Seq<PlayerV>, id: int)
    requires
        forall|m: int| 0 <= m < ps.len() ==> ps[m].id != id,
    ensures
        player_idx(ps, id) is None,
    decreases ps.len(),
{
    if ps.len() > 0 {
        assert(forall|m: int| 0 <= m < ps.skip(1).len() ==> ps.skip(1)[m].id != id);
        lemma_player_idx_none(ps.skip(1), id);
    }
}

impl GameState {
    /// The position of the player with this id.
    pub fn find_player(&self, id: PlayerId) -> (r: Option<usize>)
        ensures
            match r {
                Some(i) => player_idx(self@.players, id@) == Some(i as int),
                None => player_idx(self@.players, id@) is None,
            },
    {
        let mut i: usize = 0;
        while i < self.players.len()
            invariant
                i <= self.players@.len(),
                forall|m: int| 0 <= m < i ==> players_view(self.players@)[m].id != id@,
            decreases self.players@.len() - i,
        {
            if self.players[i].id == id {
                proof {
                    lemma_player_idx_from_scan(players_view(self.players@), id@, i as int);
                }
                return Some(i);
            }
            i = i + 1;
        }
        proof {
            lemma_player_idx_none(players_view(self.players@), id@);
        }
        None
    }
}

/// An aim direction a client may set: both components within one unit.
pub open spec fn valid_dir(d: Vec2s) -> bool {
    bounded(d, FX_ONE as int)
}


/// The net force a set of held movement keys contributes.
pub open spec fn spec_move_force(b: ButtonsDown) -> Vec2s {
    Vec2s {
        x: (if b.left {
            -(MOVE_FORCE as int)
        } else {
            0
        }) + (if b.right {
            MOVE_FORCE as int
        } else {
            0
        }),
        y: (if b.forward {
            -(MOVE_FORCE as int)
        } else {
            0
        }) + (if b.back {
            MOVE_FORCE as int
        } else {
            0
        }),
    }
}

/// What one decoded input does to the game state and the client table.
/// A press is honoured only for a known client whose button was up and
/// whose player exists; pressing fire then also spawns a bullet and
/// notes the shot.  Aim directions out of the unit box are ignored.
pub open spec fn spec_apply_input(g: GameV, cs: Seq<ClientEntry>, id: int, inp: InputV) -> (
    GameV,
    Seq<ClientEntry>,
) {
    match inp {
        InputV::Press(b, dir) => {
            match client_idx(cs, id) {
                Some(ci) => {
                    if !button_held(cs[ci].buttons, b) {
                        match player_idx(g.players, id) {
                            Some(pi) => {
                                if valid_dir(dir) {
                                    let p2 = PlayerV { dir: dir, ..g.players[pi] };
                                    let ps2 = g.players.update(pi, p2);
                                    let cs2 = cs.update(
                                        ci,
                                        ClientEntry {
                                            buttons: button_set(cs[ci].buttons, b, true),
                                            ..cs[ci]
                                        },
                                    );
                                    if b == Button::Fire {
                                        (
                                            GameV {
                                                players: ps2,
                                                bullets: g.bullets.push(
                                                    crate::state::spec_spawn(p2),
                                                ),
                                                events: g.events.push(
                                                    EventV::BulletFired(p2.pos),
                                                ),
                                            },
                                            cs2,
                                        )
                                    } else {
                                        (GameV { players: ps2, ..g }, cs2)
                                    }
                                } else {
                                    (g, cs)
                                }
                            },
                            None => (g, cs),
                        }
                    } else {
                        (g, cs)
                    }
                },
                None => (g, cs),
            }
        },
        InputV::Release(b) => {
            match client_idx(cs, id) {
                Some(ci) => (
                    g,
                    cs.update(
                        ci,
                        ClientEntry { buttons: button_set(cs[ci].buttons, b, false), ..cs[ci] },
                    ),
                ),
                None => (g, cs),
            }
        },
        InputV::DirChanged(dir) => {
            match player_idx(g.players, id) {
                Some(pi) => {
                    if valid_dir(dir) {
                        (
                            GameV {
                                players: g.players.update(
                                    pi,
                                    PlayerV { dir: dir, ..g.players[pi] },
                                ),
                                ..g
                            },
                            cs,
                        )
                    } else {
                        (g, cs)
                    }
                },
                None => (g, cs),
            }
        },
    }
}

/// Apply one decoded input from client `id`: exactly
/// `spec_apply_input`, preserving well-formedness.
#[verifier::loop_isolation(false)]
pub fn apply_input(gs: &mut GameState, clients: &mut Clients, id: PlayerId, input: Input)
    requires
        state_wf(old(gs)@),
    ensures
        (final(gs)@, final(clients).entries@) == spec_apply_input(
            old(gs)@,
            old(clients).entries@,
            id@,
            input@,
        ),
        state_wf(final(gs)@),
        final(gs)@.players.len() == old(gs)@.players.len(),
{
    match input {
        Input::Press(b, dir) => {
            if let Some(ci) = clients.find(id) {
                proof {
                    lemma_client_idx(clients.entries@, id@);
                }
                if !clients.entries[ci].buttons.holds(b) {
                    if let Some(pi) = gs.find_player(id) {
                        proof {
                            lemma_player_idx(players_view(gs.players@), id@);
                        }
                        if -FX_ONE <= dir.x && dir.x <= FX_ONE && -FX_ONE <= dir.y && dir.y
                            <= FX_ONE {
                            gs.players[pi].dir = dir;
                            let bt = clients.entries[ci].buttons.with(b, true);
                            clients.entries[ci].buttons = bt;
                            proof {
                                assert(players_view(gs.players@) =~= old(gs)@.players.update(
                                    pi as int,
                                    PlayerV { dir: dir@, ..old(gs)@.players[pi as int] },
                                ));
                                assert(clients.entries@ =~= old(clients).entries@.update(
                                    ci as int,
                                    ClientEntry {
                                        buttons: button_set(
                                            old(clients).entries@[ci as int].buttons,
                                            b,
                                            true,
                                        ),
                                        ..old(clients).entries@[ci as int]
                                    },
                                ));
                            }
                            if matches!(b, Button::Fire) {
                                let ppos = gs.players[pi].pos;
                                gs.events.push(Event::BulletFired(ppos));
                                let blt = Bullet::spawn(&gs.players[pi]);
                                gs.bullets.push(blt);
                                proof {
                                    let p2 = PlayerV {
                                        dir: dir@,
                                        ..old(gs)@.players[pi as int]
                                    };
                                    assert(events_view(gs.events@) =~= old(gs)@.events.push(
                                        EventV::BulletFired(p2.pos),
                                    ));
                                    assert(bullets_view(gs.bullets@) =~= old(gs)@.bullets.push(
                                        crate::state::spec_spawn(p2),
                                    ));
                                }
                            }
                            proof {
                                assert forall|m: int| 0 <= m < final(gs)@.bullets.len() implies bullet_wf(
                                    #[trigger] final(gs)@.bullets[m],
                                ) by {
                                    if m < old(gs)@.bullets.len() {
                                        assert(final(gs)@.bullets[m] == old(gs)@.bullets[m]);
                                    }
                                }
                                lemma_state_wf_players_update(old(gs)@, final(gs)@);
                            }
                        }
                    }
                }
            }
        },
        Input::Release(b) => {
            if let Some(ci) = clients.find(id) {
                proof {
                    lemma_client_idx(clients.entries@, id@);
                }
                let bt = clients.entries[ci].buttons.with(b, false);
                clients.entries[ci].buttons = bt;
                proof {
                    assert(clients.entries@ =~= old(clients).entries@.update(
                        ci as int,
                        ClientEntry {
                            buttons: button_set(old(clients).entries@[ci as int].buttons, b, false),
                            ..old(clients).entries@[ci as int]
                        },
                    ));
                }
            }
        },
        Input::DirChanged(dir) => {
            if let Some(pi) = gs.find_player(id) {
                proof {
                    lemma_player_idx(players_view(gs.players@), id@);
                }
                if -FX_ONE <= dir.x && dir.x <= FX_ONE && -FX_ONE <= dir.y && dir.y <= FX_ONE {
                    gs.players[pi].dir = dir;
                    proof {
                        assert(players_view(gs.players@) =~= old(gs)@.players.update(
                            pi as int,
                            PlayerV { dir: dir@, ..old(gs)@.players[pi as int] },
                        ));
                        lemma_state_wf_players_update(old(gs)@, final(gs)@);
                    }
                }
            }
        },
    }
}

/// Well-formedness survives any change that keeps every player
/// well-formed with its id, keeps bullets well-formed, and leaves the
/// player count alone.
proof fn lemma_state_wf_players_update(g0: GameV, g1: GameV)
    requires
        state_wf(g0),
        g1.players.len() == g0.players.len(),
        forall|i: int|
            0 <= i < g1.players.len() ==> player_wf(#[trigger] g1.players[i]) && g1.players[i].id
                == g0.players[i].id,
        forall|i: int| 0 <= i < g1.bullets.len() ==> bullet_wf(#[trigger] g1.bullets[i]),
    ensures
        state_wf(g1),
{
}


/// The forces of the first `k` client entries applied: each entry with
/// a live player sets that player's net input force from its held keys.
pub open spec fn spec_apply_forces(ps: Seq<PlayerV>, cs: Seq<ClientEntry>, k: int) -> Seq<PlayerV>
    decreases k,
{
    if k <= 0 {
        ps
    } else {
        let prev = spec_apply_forces(ps, cs, k - 1);
        match player_idx(prev, cs[k - 1].id@) {
            Some(pi) => prev.update(
                pi,
                PlayerV { force: spec_move_force(cs[k - 1].buttons), ..prev[pi] },
            ),
            None => prev,
        }
    }
}

/// Write every client's movement force into its player, in connection
/// order: exactly `spec_apply_forces` over all entries.
#[verifier::loop_isolation(false)]
pub fn apply_move_forces(gs: &mut GameState, clients: &Clients)
    requires
        state_wf(old(gs)@),
    ensures
        final(gs)@.players == spec_apply_forces(
            old(gs)@.players,
            clients.entries@,
            clients.entries@.len() as int,
        ),
        final(gs)@.bullets == old(gs)@.bullets,
        final(gs)@.events == old(gs)@.events,
        state_wf(final(gs)@),
{
    let mut k: usize = 0;
    while k < clients.entries.len()
        invariant
            k <= clients.entries@.len(),
            gs.bullets@ == old(gs).bullets@,
            gs.events@ == old(gs).events@,
            gs.players@.len() == old(gs).players@.len(),
            players_view(gs.players@) == spec_apply_forces(
                old(gs)@.players,
                clients.entries@,
                k as int,
            ),
            forall|m: int|
                0 <= m < gs.players@.len() ==> player_wf(
                    #[trigger] players_view(gs.players@)[m],
                ) && players_view(gs.players@)[m].id == old(gs)@.players[m].id,
        decreases clients.entries@.len() - k,
    {
        let entry = clients.entries[k];
        if let Some(pi) = gs.find_player(entry.id) {
            proof {
                lemma_player_idx(players_view(gs.players@), entry.id@);
            }
            let bt = entry.buttons;
            let fx: i64 = (if bt.left {
                -MOVE_FORCE
            } else {
                0
            }) + (if bt.right {
                MOVE_FORCE
            } else {
                0
            });
            let fy: i64 = (if bt.forward {
                -MOVE_FORCE
            } else {
                0
            }) + (if bt.back {
                MOVE_FORCE
            } else {
                0
            });
            gs.players[pi].force = Vec2::new(fx, fy);
        }
        k = k + 1;
        proof {
            assert(players_view(gs.players@) =~= spec_apply_forces(
                old(gs)@.players,
                clients.entries@,
                k as int,
            ));
        }
    }
    proof {
        assert(final(gs)@.bullets =~= old(gs)@.bullets);
        lemma_state_wf_players_update(old(gs)@, final(gs)@);
    }
}

/// The freshly joined player: full health, aiming right, at rest at its
/// spawn position.
pub open spec fn new_player_v(id: int, name: Seq<char>, pos: Vec2s) -> PlayerV {
    PlayerV {
        id: id,
        name: name,
        dir: Vec2s { x: FX_ONE as int, y: 0 },
        pos: pos,
        vel: Vec2s { x: 0, y: 0 },
        force: Vec2s { x: 0, y: 0 },
        health: MAX_HEALTH as int,
        respawn_timer: 0,
        score: 0,
    }
}

/// Register a newly logged-in player at `pos` and note the join.
pub fn register_player(gs: &mut GameState, id: PlayerId, name: String, pos: Vec2)
    requires
        state_wf(old(gs)@),
        player_idx(old(gs)@.players, id@) is None,
        bounded(pos@, ARENA_LIMIT as int),
    ensures
        final(gs)@.players == old(gs)@.players.push(new_player_v(id@, name@, pos@)),
        final(gs)@.bullets == old(gs)@.bullets,
        final(gs)@.events == old(gs)@.events.push(EventV::PlayerJoined(id@)),
        state_wf(final(gs)@),
{
    let player = Player {
        id: id,
        name: name,
        dir: Vec2::new(FX_ONE, 0),
        pos: pos,
        vel: Vec2::zero(),
        force: Vec2::zero(),
        health: MAX_HEALTH,
        respawn_timer: 0,
        score: 0,
    };
    gs.events.push(Event::PlayerJoined(id));
    gs.players.push(player);
    proof {
        lemma_player_idx(old(gs)@.players, id@);
        assert(final(gs)@.players =~= old(gs)@.players.push(new_player_v(id@, name@, pos@)));
        assert(final(gs)@.events =~= old(gs)@.events.push(EventV::PlayerJoined(id@)));
        assert(final(gs)@.bullets =~= old(gs)@.bullets);
    }
}

/// A respawn applied: the player back at full health at `pos`, and the
/// respawn noted.  A missing id changes nothing.
pub open spec fn spec_respawn(g: GameV, id: int, pos: Vec2s) -> GameV {
    match player_idx(g.players, id) {
        Some(pi) => GameV {
            players: g.players.update(
                pi,
                PlayerV { pos: pos, health: MAX_HEALTH as int, ..g.players[pi] },
            ),
            events: g.events.push(EventV::PlayerRespawned(id)),
            ..g
        },
        None => g,
    }
}

/// Bring a dead player back into play at `pos`.
pub fn respawn_player(gs: &mut GameState, id: PlayerId, pos: Vec2)
    requires
        state_wf(old(gs)@),
        bounded(pos@, ARENA_LIMIT as int),
    ensures
        final(gs)@ == spec_respawn(old(gs)@, id@, pos@),
        state_wf(final(gs)@),
{
    if let Some(pi) = gs.find_player(id) {
        proof {
            lemma_player_idx(players_view(gs.players@), id@);
        }
        gs.players[pi].pos = pos;
        gs.players[pi].health = MAX_HEALTH;
        gs.events.push(Event::PlayerRespawned(id));
        proof {
            assert(final(gs)@.players =~= spec_respawn(old(gs)@, id@, pos@).players);
            assert(final(gs)@.events =~= spec_respawn(old(gs)@, id@, pos@).events);
            assert(final(gs)@.bullets =~= spec_respawn(old(gs)@, id@, pos@).bullets);
            lemma_state_wf_players_update(old(gs)@, final(gs)@);
        }
    }
}

/// A disconnection applied: the client entry and its player removed,
/// and the leave noted with the player's name.
pub open spec fn spec_drop_client(g: GameV, cs: Seq<ClientEntry>, id: int) -> (
    GameV,
    Seq<ClientEntry>,
) {
    let cs2 = match client_idx(cs, id) {
        Some(ci) => cs.remove(ci),
        None => cs,
    };
    match player_idx(g.players, id) {
        Some(pi) => (
            GameV {
                players: g.players.remove(pi),
                events: g.events.push(EventV::PlayerLeft(g.players[pi].name)),
                ..g
            },
            cs2,
        ),
        None => (g, cs2),
    }
}

/// Remove a disconnected client and its player from the simulation.
pub fn drop_client(gs: &mut GameState, clients: &mut Clients, id: PlayerId)
    requires
        state_wf(old(gs)@),
    ensures
        (final(gs)@, final(clients).entries@) == spec_drop_client(
            old(gs)@,
            old(clients).entries@,
            id@,
        ),
        state_wf(final(gs)@),
{
    if let Some(ci) = clients.find(id) {
        proof {
            lemma_client_idx(clients.entries@, id@);
        }
        clients.entries.remove(ci);
    }
    if let Some(pi) = gs.find_player(id) {
        proof {
            lemma_player_idx(players_view(gs.players@), id@);
        }
        let name = gs.players[pi].name.clone();
        proof {
            assert(name@ == old(gs)@.players[pi as int].name);
        }
        gs.players.remove(pi);
        gs.events.push(Event::PlayerLeft(name));
        proof {
            let want = spec_drop_client(old(gs)@, old(clients).entries@, id@).0;
            assert(players_view(gs.players@) =~= want.players);
            assert(events_view(gs.events@) =~= want.events);
            assert(bullets_view(gs.bullets@) =~= want.bullets);
            assert forall|m: int| 0 <= m < final(gs)@.players.len() implies player_wf(
                #[trigger] final(gs)@.players[m],
            ) by {
                if m < pi as int {
                    assert(final(gs)@.players[m] == old(gs)@.players[m]);
                } else {
                    assert(final(gs)@.players[m] == old(gs)@.players[m + 1]);
                }
            }
            let ghost fin = final(gs)@;
            assert forall|a: int, c: int|
                0 <= a < c < fin.players.len() implies fin.players[a].id != fin.players[c].id by {
                let pa = if a < pi as int {
                    a
                } else {
                    a + 1
                };
                let pc = if c < pi as int {
                    c
                } else {
                    c + 1
                };
                assert(fin.players[a] == old(gs)@.players[pa]);
                assert(fin.players[c] == old(gs)@.players[pc]);
            }
        }
    }
}


/// The smallest squared distance from tile centre `t` to any of the
/// first `k` players (`k` at least one).
pub open spec fn min_dist_sq(ps: Seq<PlayerV>, t: Vec2s, k: int) -> int
    decreases k,
{
    if k <= 1 {
        dist_sq_s(ps[0].pos, t)
    } else {
        min_s(min_dist_sq(ps, t, k - 1), dist_sq_s(ps[k - 1].pos, t))
    }
}

/// Among the first `k` tiles, the first index whose minimum distance to
/// the players is maximal: the max-min placement rule, with ties going
/// to the earliest tile.
pub open spec fn best_tile(ps: Seq<PlayerV>, ts: Seq<Vec2s>, k: int) -> int
    decreases k,
{
    if k <= 1 {
        0
    } else {
        let b = best_tile(ps, ts, k - 1);
        if min_dist_sq(ps, ts[k - 1], ps.len() as int) > min_dist_sq(ps, ts[b], ps.len() as int) {
            k - 1
        } else {
            b
        }
    }
}

/// The chosen index never leaves the prefix.
pub proof fn lemma_best_tile_range(ps: Seq<PlayerV>, ts: Seq<Vec2s>, k: int)
    requires
        k >= 1,
    ensures
        0 <= best_tile(ps, ts, k) < k,
    decreases k,
{
    if k > 1 {
        lemma_best_tile_range(ps, ts, k - 1);
    }
}

/// The smallest squared distance from `t` to any player, computed.
#[verifier::loop_isolation(false)]
fn min_dist_to_players(gs: &GameState, t: Vec2) -> (d: i64)
    requires
        state_wf(gs@),
        gs@.players.len() > 0,
        bounded(t@, ARENA_LIMIT as int),
    ensures
        d == min_dist_sq(gs@.players, t@, gs@.players.len() as int),
{
    proof {
        assert(player_wf(gs@.players[0]));
    }
    let first = gs.players[0].pos;
    let mut d = first.dist_sq(t);
    let mut j: usize = 1;
    while j < gs.players.len()
        invariant
            1 <= j <= gs@.players.len(),
            d == min_dist_sq(gs@.players, t@, j as int),
        decreases gs@.players.len() - j,
    {
        proof {
            assert(player_wf(gs@.players[j as int]));
        }
        let dj = gs.players[j].pos.dist_sq(t);
        if dj < d {
            d = dj;
        }
        j = j + 1;
    }
    d
}

/// Pick the spawn position: a pseudo-random floor tile while the arena
/// is empty, and otherwise the first floor tile maximising the minimum
/// distance to any present player.
#[verifier::loop_isolation(false)]
pub fn spawn_position(gs: &GameState, tiles: &Vec<Vec2>, rand: u64) -> (p: Vec2)
    requires
        state_wf(gs@),
        tiles@.len() > 0,
        forall|i: int|
            0 <= i < tiles@.len() ==> bounded(#[trigger] points_view(tiles@)[i], ARENA_LIMIT as int),
    ensures
        gs@.players.len() == 0 ==> p@ == points_view(tiles@)[(rand as int) % (
        tiles@.len() as int)],
        gs@.players.len() > 0 ==> p@ == points_view(tiles@)[best_tile(
            gs@.players,
            points_view(tiles@),
            tiles@.len() as int,
        )],
{
    if gs.players.len() == 0 {
        let idx = (rand % (tiles.len() as u64)) as usize;
        tiles[idx]
    } else {
        let mut best: usize = 0;
        proof {
            assert(tiles@[0]@ == points_view(tiles@)[0]);
        }
        let mut best_d = min_dist_to_players(gs, tiles[0]);
        let mut k: usize = 1;
        while k < tiles.len()
            invariant
                1 <= k <= tiles@.len(),
                best as int == best_tile(gs@.players, points_view(tiles@), k as int),
                0 <= best < k,
                best_d == min_dist_sq(
                    gs@.players,
                    points_view(tiles@)[best as int],
                    gs@.players.len() as int,
                ),
            decreases tiles@.len() - k,
        {
            proof {
                assert(tiles@[k as int]@ == points_view(tiles@)[k as int]);
            }
            let dk = min_dist_to_players(gs, tiles[k]);
            if dk > best_d {
                best = k;
                best_d = dk;
            }
            k = k + 1;
        }
        tiles[best]
    }
}

/// Where one connection stands in the handshake.
#[derive(Clone, Copy, Debug, PartialEq, Eq, Structural)]
pub enum SessionPhase {
    /// The welcome went out; the login has not come back yet.
    AwaitingLogin,
    /// The login was accepted; updates may flow.
    Established,
    /// A protocol violation ended the handshake.
    Closed,
}

/// Why a login was refused.
#[derive(Clone, Copy, Debug, PartialEq, Eq, Structural)]
pub enum LoginError {
    /// The first message was not a login.
    NotLogin,
    /// The login echoed an id other than the assigned one.
    WrongId,
}

/// One connection's handshake state.  An `Update` can only be produced
/// once `Established`, which is only reached through an accepted login,
/// which in turn follows the `Welcome` produced at `begin`: a client
/// always sees `Welcome` strictly before any `Update`.
pub struct Session {
    pub id: PlayerId,
    pub phase: SessionPhase,
}

impl Session {
    /// Open the handshake for a fresh connection: the session and the
    /// `Welcome` that must be sent before anything else.
    pub fn begin(id: PlayerId) -> (r: (Session, FromServerMsg))
        ensures
            r.0.id == id,
            r.0.phase == SessionPhase::AwaitingLogin,
            r.1@ == FromServerMsgV::Welcome(id@),
    {
        (Session { id, phase: SessionPhase::AwaitingLogin }, FromServerMsg::Welcome(id))
    }

    /// Judge the first message of the connection: the player's name if
    /// it is a login echoing the assigned id, and the violation
    /// otherwise, closing the session.
    pub fn handle_login(&mut self, msg: ToServerMsg) -> (r: Result<String, LoginError>)
        requires
            old(self).phase == SessionPhase::AwaitingLogin,
        ensures
            final(self).id == old(self).id,
            match msg@ {
                ToServerMsgV::Login(pid, name) => {
                    if pid == old(self).id@ {
                        &&& r matches Ok(n) && n@ == name
                        &&& final(self).phase == SessionPhase::Established
                    } else {
                        &&& r == Result::<String, LoginError>::Err(LoginError::WrongId)
                        &&& final(self).phase == SessionPhase::Closed
                    }
                },
                ToServerMsgV::Input(_, _) => {
                    &&& r == Result::<String, LoginError>::Err(LoginError::NotLogin)
                    &&& final(self).phase == SessionPhase::Closed
                },
            },
    {
        match msg {
            ToServerMsg::Login(pid, name) => {
                if pid == self.id {
                    self.phase = SessionPhase::Established;
                    Ok(name)
                } else {
                    self.phase = SessionPhase::Closed;
                    Err(LoginError::WrongId)
                }
            },
            ToServerMsg::Input(_, _) => {
                self.phase = SessionPhase::Closed;
                Err(LoginError::NotLogin)
            },
        }
    }

    /// The snapshot message of a tick, available only once established.
    pub fn update_msg(&self, gs: GameState) -> (m: FromServerMsg)
        requires
            self.phase == SessionPhase::Established,
        ensures
            m@ == FromServerMsgV::Update(gs@),
    {
        FromServerMsg::Update(gs)
    }
}

} // verus!
