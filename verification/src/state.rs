//! Entities and the simulation state.
//!
//! `GameState` owns everything a tick reads and writes: the players, the
//! live bullets and the events of the current tick.  A tick is specified
//! as a pure function over the mathematical views (`spec_tick`), and the
//! executable step is proved to compute exactly that function, which
//! makes the simulation reproducible: the new state depends only on the
//! previous state and the inputs applied during the tick.

use vstd::prelude::*;

verus! {

use crate::fixed::{FX_ONE, FX_LIMIT, div_t, min_s, fx_mul_s, clamp_s, sqrt_floor, div_trunc, clamp, lemma_sqrt_floor};
use crate::vec2::{Vec2, Vec2s, bounded, vadd, vsub, vfx, vclamp, norm_sq_s, mag_s, scale_to_s, lemma_scale_to_bounds, lemma_norm_sq_bound};
use crate::geom::{CSquare, CCircle, SquareS, CircleS, square_wf, sq_intersects_s, circles_intersect_s, circle_hits_square_s, square_center_s, overlap_depth_s, GEOM_LIMIT};
use crate::level::squares_view;
use vstd::math::abs;

/// Collision radius of a player.
pub const PLAYER_RADIUS: i64 = 200;

/// Collision radius of a bullet.
pub const BULLET_RADIUS: i64 = 50;

/// Apothem of the inflated box used for player-against-wall resolution:
/// the player radius with a tenth of margin.
pub const PLAYER_APOTHEM: i64 = 220;

/// Force a held movement key contributes along its axis.
pub const MOVE_FORCE: i64 = 40_000;

/// A player's speed is renormalised to at most this magnitude each tick.
pub const SPEED_CAP: i64 = 40_000;

/// Speed of a freshly fired bullet.
pub const BULLET_SPEED: i64 = 10_000;

/// A bullet farther than this from the origin is removed.
pub const RANGE_CAP: i64 = 20_000;

/// Stiffness of the wall penalty force: push per unit of penetration.
pub const WALL_STIFFNESS: i64 = 100;

/// Full health of a player.
pub const MAX_HEALTH: u32 = 100;

/// Health points one bullet hit subtracts (the damage fraction, out of
/// `MAX_HEALTH`).
pub const BULLET_DAMAGE: u32 = 20;

/// Milliseconds a dead player waits before respawning.
pub const RESPAWN_MS: u32 = 3000;

/// Longest time step a tick accepts, in milliseconds.
pub const MAX_DT: i64 = 1000;

/// Positions are clamped into this bound after integration, keeping
/// every coordinate well inside the range the geometry accepts.
pub const ARENA_LIMIT: i64 = 1_000_000;

/// Largest force magnitude kept after accumulating wall penalties.
pub const FORCE_LIMIT: i64 = 10_000_000;

/// Most collision boxes a tick accepts.
pub const MAX_BOXES: usize = 100_000;

/// A player's identity: process-unique, never reused.
#[derive(Clone, Copy, Debug, Default, Hash, PartialEq, Eq, PartialOrd, Ord, Structural)]
pub struct PlayerId(pub u32);

impl View for PlayerId {
    type V = int;

    open spec fn view(&self) -> int {
        self.0 as int
    }
}

/// A connected player.
#[derive(Clone, Debug, PartialEq)]
pub struct Player {
    pub id: PlayerId,
    pub name: String,
    pub dir: Vec2,
    pub pos: Vec2,
    pub vel: Vec2,
    pub force: Vec2,
    pub health: u32,
    pub respawn_timer: u32,
    pub score: u32,
}

/// Mathematical model of a `Player`.
pub struct PlayerV {
    pub id: int,
    pub name: Seq<char>,
    pub dir: Vec2s,
    pub pos: Vec2s,
    pub vel: Vec2s,
    pub force: Vec2s,
    pub health: int,
    pub respawn_timer: int,
    pub score: int,
}

impl View for Player {
    type V = PlayerV;

    open spec fn view(&self) -> PlayerV {
        PlayerV {
            id: self.id@,
            name: self.name@,
            dir: self.dir@,
            pos: self.pos@,
            vel: self.vel@,
            force: self.force@,
            health: self.health as int,
            respawn_timer: self.respawn_timer as int,
            score: self.score as int,
        }
    }
}

/// A bullet in flight.
#[derive(Clone, Copy, Debug, PartialEq, Eq, Structural)]
pub struct Bullet {
    pub pos: Vec2,
    pub vel: Vec2,
    pub pid: PlayerId,
}

/// Mathematical model of a `Bullet`.
pub struct BulletV {
    pub pos: Vec2s,
    pub vel: Vec2s,
    pub pid: int,
}

impl View for Bullet {
    type V = BulletV;

    open spec fn view(&self) -> BulletV {
        BulletV { pos: self.pos@, vel: self.vel@, pid: self.pid@ }
    }
}

/// A same-tick notification: consumed by clients for effects and then
/// discarded, never carried into the next tick.
#[derive(Clone, Debug, PartialEq)]
pub enum Event {
    /// A bullet hit a wall; carries its last position and velocity.
    BulletHitWall(Vec2, Vec2),
    /// A bullet hit a player: the bullet, the victim, and the damage
    /// dealt (out of `MAX_HEALTH`).
    BulletHitPlayer(Bullet, PlayerId, u32),
    /// A player's health reached zero: victim, then killer.
    PlayerDied(PlayerId, PlayerId),
    PlayerRespawned(PlayerId),
    /// A bullet was fired at this position.
    BulletFired(Vec2),
    PlayerJoined(PlayerId),
    /// A player disconnected; carries the name.
    PlayerLeft(String),
}

/// Mathematical model of an `Event`.
pub enum EventV {
    BulletHitWall(Vec2s, Vec2s),
    BulletHitPlayer(BulletV, int, int),
    PlayerDied(int, int),
    PlayerRespawned(int),
    BulletFired(Vec2s),
    PlayerJoined(int),
    PlayerLeft(Seq<char>),
}

impl View for Event {
    type V = EventV;

    open spec fn view(&self) -> EventV {
        match self {
            Event::BulletHitWall(p, v) => EventV::BulletHitWall(p@, v@),
            Event::BulletHitPlayer(b, id, d) => EventV::BulletHitPlayer(b@, id@, *d as int),
            Event::PlayerDied(victim, killer) => EventV::PlayerDied(victim@, killer@),
            Event::PlayerRespawned(id) => EventV::PlayerRespawned(id@),
            Event::BulletFired(p) => EventV::BulletFired(p@),
            Event::PlayerJoined(id) => EventV::PlayerJoined(id@),
            Event::PlayerLeft(name) => EventV::PlayerLeft(name@),
        }
    }
}

/// The authoritative state of a match: the unit of simulation and of
/// broadcast.
#[derive(Clone, Debug, PartialEq)]
pub struct GameState {
    pub players: Vec<Player>,
    pub bullets: Vec<Bullet>,
    pub events: Vec<Event>,
}

/// Mathematical model of a `GameState`.
pub struct GameV {
    pub players: Seq<PlayerV>,
    pub bullets: Seq<BulletV>,
    pub events: Seq<EventV>,
}

/// The views of a sequence of players.
pub open spec fn players_view(s: Seq<Player>) -> Seq<PlayerV> {
    Seq::new(s.len(), |i: int| s[i]@)
}

/// The views of a sequence of bullets.
pub open spec fn bullets_view(s: Seq<Bullet>) -> Seq<BulletV> {
    Seq::new(s.len(), |i: int| s[i]@)
}

/// The views of a sequence of events.
pub open spec fn events_view(s: Seq<Event>) -> Seq<EventV> {
    Seq::new(s.len(), |i: int| s[i]@)
}

/// The views of a sequence of player ids.
pub open spec fn ids_view(s: Seq<PlayerId>) -> Seq<int> {
    Seq::new(s.len(), |i: int| s[i]@)
}

impl View for GameState {
    type V = GameV;

    open spec fn view(&self) -> GameV {
        GameV {
            players: players_view(self.players@),
            bullets: bullets_view(self.bullets@),
            events: events_view(self.events@),
        }
    }
}

/// A player whose fields are within the simulation's ranges.
pub open spec fn player_wf(p: PlayerV) -> bool {
    &&& 0 <= p.id < 0x1_0000_0000
    &&& bounded(p.pos, ARENA_LIMIT as int)
    &&& bounded(p.vel, SPEED_CAP as int)
    &&& bounded(p.dir, FX_ONE as int)
    &&& bounded(p.force, FORCE_LIMIT as int)
    &&& 0 <= p.health <= MAX_HEALTH as int
    &&& 0 <= p.respawn_timer <= RESPAWN_MS as int
    &&& 0 <= p.score < 0x1_0000_0000
}

/// A bullet whose fields are within the simulation's ranges.
pub open spec fn bullet_wf(b: BulletV) -> bool {
    &&& bounded(b.pos, 2 * ARENA_LIMIT as int)
    &&& bounded(b.vel, 2 * BULLET_SPEED as int)
    &&& 0 <= b.pid < 0x1_0000_0000
}

/// No two players share an id.
pub open spec fn ids_unique(ps: Seq<PlayerV>) -> bool {
    forall|i: int, j: int| 0 <= i < j < ps.len() ==> ps[i].id != ps[j].id
}

/// A well-formed game state: every entity in range, ids unique.
pub open spec fn state_wf(g: GameV) -> bool {
    &&& forall|i: int| 0 <= i < g.players.len() ==> player_wf(#[trigger] g.players[i])
    &&& forall|i: int| 0 <= i < g.bullets.len() ==> bullet_wf(#[trigger] g.bullets[i])
    &&& ids_unique(g.players)
}

/// Every collision box handed to the physics is a well-formed square.
pub open spec fn boxes_wf(bs: Seq<SquareS>) -> bool {
    forall|i: int| 0 <= i < bs.len() ==> square_wf(#[trigger] bs[i])
}

/// The inflated collision box around a player position.
pub open spec fn player_box(pos: Vec2s) -> SquareS {
    SquareS {
        top_left: Vec2s { x: pos.x - PLAYER_APOTHEM as int, y: pos.y - PLAYER_APOTHEM as int },
        bottom_right: Vec2s {
            x: pos.x + PLAYER_APOTHEM as int,
            y: pos.y + PLAYER_APOTHEM as int,
        },
    }
}

/// The penalty force one wall box exerts on a player at `pos`: directed
/// away from the wall's centre, with magnitude proportional to the
/// penetration depth.  Zero when the boxes do not overlap, and zero for
/// the degenerate position exactly on the wall's centre.
pub open spec fn wall_penalty(pos: Vec2s, cb: SquareS) -> Vec2s {
    let pb = player_box(pos);
    if sq_intersects_s(cb, pb) {
        let d = vsub(pos, square_center_s(cb));
        if norm_sq_s(d) == 0 {
            Vec2s { x: 0, y: 0 }
        } else {
            scale_to_s(d, overlap_depth_s(cb, pb) * WALL_STIFFNESS as int)
        }
    } else {
        Vec2s { x: 0, y: 0 }
    }
}

/// Sum of the wall penalties of the first `k` boxes.
pub open spec fn wall_push(pos: Vec2s, boxes: Seq<SquareS>, k: int) -> Vec2s
    decreases k,
{
    if k <= 0 {
        Vec2s { x: 0, y: 0 }
    } else {
        vadd(wall_push(pos, boxes, k - 1), wall_penalty(pos, boxes[k - 1]))
    }
}

/// One physics step of a live player: accumulate wall penalties into the
/// net force, integrate velocity, renormalise it to the damped speed
/// cap (snapping to zero when it underflows), then integrate and clamp
/// the position.
pub open spec fn spec_player_step(p: PlayerV, boxes: Seq<SquareS>, dt: int) -> PlayerV {
    let f = vclamp(vadd(p.force, wall_push(p.pos, boxes, boxes.len() as int)), FORCE_LIMIT as int);
    let v1 = vadd(p.vel, vfx(f, dt));
    let vm = mag_s(v1);
    let v2 = if vm == 0 {
        Vec2s { x: 0, y: 0 }
    } else {
        scale_to_s(v1, div_t(min_s(vm, SPEED_CAP as int) * 9, 10))
    };
    let pos2 = vclamp(vadd(p.pos, vfx(v2, dt)), ARENA_LIMIT as int);
    PlayerV { pos: pos2, vel: v2, force: f, ..p }
}

/// One step of a dead player: the respawn countdown runs down.
pub open spec fn spec_timer_step(p: PlayerV, dt: int) -> PlayerV {
    PlayerV {
        respawn_timer: if p.respawn_timer > dt {
            p.respawn_timer - dt
        } else {
            0
        },
        ..p
    }
}

/// The wall-penalty sum over `k` boxes is bounded by `k` times the
/// largest single penalty.
pub proof fn lemma_wall_push_bound(pos: Vec2s, boxes: Seq<SquareS>, k: int)
    requires
        bounded(pos, ARENA_LIMIT as int),
        boxes_wf(boxes),
        0 <= k <= boxes.len(),
    ensures
        bounded(wall_push(pos, boxes, k), k * 44_000),
    decreases k,
{
    if k > 0 {
        lemma_wall_push_bound(pos, boxes, k - 1);
        let cb = boxes[k - 1];
        let pb = player_box(pos);
        if sq_intersects_s(cb, pb) {
            let wc = square_center_s(cb);
            crate::fixed::lemma_div_t_bound(
                cb.bottom_right.x - cb.top_left.x,
                2,
                2 * GEOM_LIMIT as int,
            );
            crate::fixed::lemma_div_t_bound(
                cb.bottom_right.y - cb.top_left.y,
                2,
                2 * GEOM_LIMIT as int,
            );
            let d = vsub(pos, wc);
            lemma_norm_sq_bound(d);
            if norm_sq_s(d) != 0 {
                let depth = overlap_depth_s(cb, pb);
                assert(0 <= depth <= 440);
                lemma_scale_to_bounds(d, depth * WALL_STIFFNESS as int);
            }
        }
    }
}

impl Player {
    /// Advance this player by one physics step.
    pub fn update(&mut self, collision_boxes: &Vec<CSquare>, dt: i64)
        requires
            player_wf(old(self)@),
            boxes_wf(squares_view(collision_boxes@)),
            collision_boxes@.len() <= MAX_BOXES,
            0 <= dt <= MAX_DT,
        ensures
            final(self)@ == spec_player_step(old(self)@, squares_view(collision_boxes@), dt as int),
            player_wf(final(self)@),
    {
        let ghost bs = squares_view(collision_boxes@);
        let p_bounds = CSquare::new_centered(self.pos, PLAYER_APOTHEM);
        proof {
            assert(p_bounds@ == player_box(old(self)@.pos));
        }
        let mut force = self.force;
        let mut i: usize = 0;
        while i < collision_boxes.len()
            invariant
                i <= collision_boxes.len(),
                force@ == vadd(old(self)@.force, wall_push(old(self)@.pos, bs, i as int)),
            decreases collision_boxes.len() - i,
        {
            proof {
                lemma_wall_push_bound(old(self)@.pos, bs, i as int);
            }
            let cb = collision_boxes[i];
            proof {
                assert(cb@ == bs[i as int]);
                assert(square_wf(cb@));
            }
            if cb.intersects(p_bounds) {
                let half = Vec2::new(
                    div_trunc(cb.bottom_right.x - cb.top_left.x, 2),
                    div_trunc(cb.bottom_right.y - cb.top_left.y, 2),
                );
                proof {
                    crate::fixed::lemma_div_t_bound(
                        cb@.bottom_right.x - cb@.top_left.x,
                        2,
                        2 * GEOM_LIMIT as int,
                    );
                    crate::fixed::lemma_div_t_bound(
                        cb@.bottom_right.y - cb@.top_left.y,
                        2,
                        2 * GEOM_LIMIT as int,
                    );
                }
                let wc = cb.top_left.plus(half);
                let d = self.pos.minus(wc);
                proof {
                    lemma_norm_sq_bound(d@);
                }
                if d.norm_sq() != 0 {
                    let depth = cb.overlap_depth(p_bounds);
                    proof {
                        assert(0 <= depth <= 440);
                        lemma_scale_to_bounds(d@, depth as int * WALL_STIFFNESS as int);
                    }
                    let push = d.scaled_to(depth * WALL_STIFFNESS);
                    force = force.plus(push);
                }
            }
            i = i + 1;
        }
        proof {
            lemma_wall_push_bound(old(self)@.pos, bs, bs.len() as int);
        }
        let f = force.clamped(FORCE_LIMIT);
        proof {
            crate::fixed::lemma_fx_mul_dt_bound(f@.x, dt as int, FORCE_LIMIT as int);
            crate::fixed::lemma_fx_mul_dt_bound(f@.y, dt as int, FORCE_LIMIT as int);
        }
        let v1 = self.vel.plus(f.fx_scaled(dt));
        let vm = v1.mag();
        proof {
            lemma_sqrt_floor(norm_sq_s(v1@) as nat);
            lemma_norm_sq_bound(v1@);
        }
        let v2 = if vm == 0 {
            Vec2::zero()
        } else {
            let capped = if vm <= SPEED_CAP {
                vm
            } else {
                SPEED_CAP
            };
            let target = div_trunc(capped * 9, 10);
            v1.scaled_to(target)
        };
        proof {
            crate::fixed::lemma_fx_mul_dt_bound(v2@.x, dt as int, 36_000);
            crate::fixed::lemma_fx_mul_dt_bound(v2@.y, dt as int, 36_000);
        }
        let pos2 = self.pos.plus(v2.fx_scaled(dt)).clamped(ARENA_LIMIT);
        self.force = f;
        self.vel = v2;
        self.pos = pos2;
    }
}


/// The collision circle of a bullet at `pos`.
pub open spec fn bullet_circle(pos: Vec2s) -> CircleS {
    CircleS { center: pos, radius: BULLET_RADIUS as int }
}

/// The collision circle of a player at `pos`.
pub open spec fn player_circle(pos: Vec2s) -> CircleS {
    CircleS { center: pos, radius: PLAYER_RADIUS as int }
}

/// Whether a bullet overlaps one of the first `k` collision boxes.
pub open spec fn bullet_hits_wall(b: BulletV, boxes: Seq<SquareS>, k: int) -> bool
    decreases k,
{
    if k <= 0 {
        false
    } else {
        bullet_hits_wall(b, boxes, k - 1) || circle_hits_square_s(bullet_circle(b.pos), boxes[k - 1])
    }
}

/// Once a bullet hits a wall among a prefix of the boxes, it still does
/// among any longer prefix.
pub proof fn lemma_hits_wall_mono(b: BulletV, boxes: Seq<SquareS>, k1: int, k2: int)
    requires
        0 <= k1 <= k2,
        bullet_hits_wall(b, boxes, k1),
    ensures
        bullet_hits_wall(b, boxes, k2),
    decreases k2 - k1,
{
    if k1 < k2 {
        lemma_hits_wall_mono(b, boxes, k1, k2 - 1);
    }
}

/// The first player (in player order) a bullet overlaps, among the first
/// `k` players.  Only live players that did not fire the bullet count.
pub open spec fn bullet_victim(b: BulletV, ps: Seq<PlayerV>, k: int) -> Option<int>
    decreases k,
{
    if k <= 0 {
        None
    } else {
        match bullet_victim(b, ps, k - 1) {
            Some(j) => Some(j),
            None => {
                let p = ps[k - 1];
                if p.health > 0 && p.id != b.pid && circles_intersect_s(
                    player_circle(p.pos),
                    bullet_circle(b.pos),
                ) {
                    Some(k - 1)
                } else {
                    None
                }
            },
        }
    }
}

/// A found victim stays found among longer prefixes, and its index is in
/// range.
pub proof fn lemma_victim_mono(b: BulletV, ps: Seq<PlayerV>, k1: int, k2: int)
    requires
        0 <= k1 <= k2,
        bullet_victim(b, ps, k1) is Some,
    ensures
        bullet_victim(b, ps, k2) == bullet_victim(b, ps, k1),
        0 <= bullet_victim(b, ps, k1).unwrap() < k1,
    decreases k2 - k1,
{
    if k1 < k2 {
        lemma_victim_mono(b, ps, k1, k2 - 1);
    } else {
        lemma_victim_index(b, ps, k1);
    }
}

/// A found victim's index lies below the prefix length.
pub proof fn lemma_victim_index(b: BulletV, ps: Seq<PlayerV>, k: int)
    requires
        bullet_victim(b, ps, k) is Some,
    ensures
        0 <= bullet_victim(b, ps, k).unwrap() < k,
    decreases k,
{
    if k > 0 {
        if bullet_victim(b, ps, k - 1) is Some {
            lemma_victim_index(b, ps, k - 1);
        }
    }
}

/// One bullet hit applied to a player: health drops by `BULLET_DAMAGE`,
/// floored at zero; dropping to zero starts the respawn countdown.
pub open spec fn damage_player(p: PlayerV) -> PlayerV {
    let h2 = if p.health > BULLET_DAMAGE as int {
        p.health - BULLET_DAMAGE as int
    } else {
        0
    };
    PlayerV {
        health: h2,
        respawn_timer: if p.health > 0 && h2 == 0 {
            RESPAWN_MS as int
        } else {
            p.respawn_timer
        },
        ..p
    }
}

/// Credit a kill to every player carrying the killer's id (at most one,
/// by well-formedness), saturating the score.
pub open spec fn award_kill(ps: Seq<PlayerV>, killer: int) -> Seq<PlayerV> {
    Seq::new(
        ps.len(),
        |i: int|
            if ps[i].id == killer {
                PlayerV {
                    score: if ps[i].score < 0xFFFF_FFFF {
                        ps[i].score + 1
                    } else {
                        ps[i].score
                    },
                    ..ps[i]
                }
            } else {
                ps[i]
            },
    )
}

/// A bullet's position after one time step.
pub open spec fn bullet_move(b: BulletV, dt: int) -> BulletV {
    BulletV { pos: vadd(b.pos, vfx(b.vel, dt)), ..b }
}

/// Whether a position lies beyond the bullet range cap.
pub open spec fn out_of_range(pos: Vec2s) -> bool {
    norm_sq_s(pos) > (RANGE_CAP as int) * (RANGE_CAP as int)
}

/// One physics step of a bullet alone (no players involved): it dies on
/// a wall hit, and otherwise moves and dies if it sits beyond the range
/// cap before or after the move.
pub open spec fn spec_bullet_phys(b: BulletV, boxes: Seq<SquareS>, dt: int) -> (BulletV, bool) {
    if bullet_hits_wall(b, boxes, boxes.len() as int) {
        (b, true)
    } else {
        let b2 = bullet_move(b, dt);
        (b2, out_of_range(b.pos) || out_of_range(b2.pos))
    }
}

/// All players advanced by one step: physics for the live ones, the
/// respawn countdown for the dead ones.
pub open spec fn players_step(ps: Seq<PlayerV>, boxes: Seq<SquareS>, dt: int) -> Seq<PlayerV> {
    Seq::new(
        ps.len(),
        |i: int|
            if ps[i].health > 0 {
                spec_player_step(ps[i], boxes, dt)
            } else {
                spec_timer_step(ps[i], dt)
            },
    )
}

/// Ids of the dead players whose respawn countdown ends during this
/// step, in player order.
pub open spec fn respawn_ready(ps: Seq<PlayerV>, dt: int, k: int) -> Seq<int>
    decreases k,
{
    if k <= 0 {
        Seq::empty()
    } else {
        respawn_ready(ps, dt, k - 1) + if ps[k - 1].health == 0 && 0 < ps[k - 1].respawn_timer
            <= dt {
            seq![ps[k - 1].id]
        } else {
            Seq::empty()
        }
    }
}

/// Resolution of the first `k` bullets, in order, over the already
/// stepped players `base`.  Collision detection reads the pre-step
/// snapshot `old_ps`, so that resolving one pair never affects detection
/// for another: a bullet that overlaps a wall dies there; otherwise its
/// first overlapped victim takes damage (dying players start their
/// countdown and credit the shooter); otherwise the bullet flies on and
/// is culled at the range cap.
pub open spec fn resolve_upto(
    old_ps: Seq<PlayerV>,
    boxes: Seq<SquareS>,
    dt: int,
    bullets: Seq<BulletV>,
    k: int,
    base: Seq<PlayerV>,
) -> (Seq<PlayerV>, Seq<BulletV>, Seq<EventV>)
    decreases k,
{
    if k <= 0 {
        (base, Seq::empty(), Seq::empty())
    } else {
        let r = resolve_upto(old_ps, boxes, dt, bullets, k - 1, base);
        let ps = r.0;
        let kept = r.1;
        let evs = r.2;
        let b = bullets[k - 1];
        if bullet_hits_wall(b, boxes, boxes.len() as int) {
            (ps, kept, evs.push(EventV::BulletHitWall(b.pos, b.vel)))
        } else {
            match bullet_victim(b, old_ps, old_ps.len() as int) {
                Some(j) => {
                    if 0 <= j < ps.len() {
                        let victim = ps[j];
                        let v2 = damage_player(victim);
                        let ps2 = ps.update(j, v2);
                        let evs2 = evs.push(
                            EventV::BulletHitPlayer(b, victim.id, BULLET_DAMAGE as int),
                        );
                        if victim.health > 0 && v2.health == 0 {
                            (
                                award_kill(ps2, b.pid),
                                kept,
                                evs2.push(EventV::PlayerDied(victim.id, b.pid)),
                            )
                        } else {
                            (ps2, kept, evs2)
                        }
                    } else {
                        (ps, kept, evs)
                    }
                },
                None => {
                    let b2 = bullet_move(b, dt);
                    if out_of_range(b.pos) || out_of_range(b2.pos) {
                        (ps, kept, evs)
                    } else {
                        (ps, kept.push(b2), evs)
                    }
                },
            }
        }
    }
}

/// One full simulation tick: events start empty, players step, bullets
/// resolve against the pre-step snapshot, and the ids ready to respawn
/// are handed back.
pub open spec fn spec_tick(g: GameV, boxes: Seq<SquareS>, dt: int) -> (GameV, Seq<int>) {
    let stepped = players_step(g.players, boxes, dt);
    let r = resolve_upto(g.players, boxes, dt, g.bullets, g.bullets.len() as int, stepped);
    (
        GameV { players: r.0, bullets: r.1, events: r.2 },
        respawn_ready(g.players, dt, g.players.len() as int),
    )
}

/// The bullet a player fires: it starts on the rim of the player's
/// collision circle, along the aim direction, and flies that way.
pub open spec fn spec_spawn(p: PlayerV) -> BulletV {
    BulletV {
        pid: p.id,
        pos: vadd(p.pos, vfx(p.dir, PLAYER_RADIUS as int)),
        vel: vfx(p.dir, BULLET_SPEED as int),
    }
}

impl Bullet {
    /// Fire a bullet: see `spec_spawn`.
    pub fn spawn(player: &Player) -> (r: Bullet)
        requires
            player_wf(player@),
        ensures
            r@ == spec_spawn(player@),
            bullet_wf(r@),
    {
        proof {
            assert(-10_000_000 <= player@.dir.x * (BULLET_SPEED as int) <= 10_000_000
                && -10_000_000 <= player@.dir.y * (BULLET_SPEED as int) <= 10_000_000
                && -200_000 <= player@.dir.x * (PLAYER_RADIUS as int) <= 200_000 && -200_000
                <= player@.dir.y * (PLAYER_RADIUS as int) <= 200_000) by (nonlinear_arith)
                requires
                    -1000 <= player@.dir.x <= 1000,
                    -1000 <= player@.dir.y <= 1000,
            ;
            crate::fixed::lemma_div_t_bound(
                player@.dir.x * (BULLET_SPEED as int),
                FX_ONE as int,
                10_000_000,
            );
            crate::fixed::lemma_div_t_bound(
                player@.dir.y * (BULLET_SPEED as int),
                FX_ONE as int,
                10_000_000,
            );
            crate::fixed::lemma_div_t_bound(
                player@.dir.x * (PLAYER_RADIUS as int),
                FX_ONE as int,
                200_000,
            );
            crate::fixed::lemma_div_t_bound(
                player@.dir.y * (PLAYER_RADIUS as int),
                FX_ONE as int,
                200_000,
            );
        }
        Bullet {
            pid: player.id,
            pos: player.pos.plus(player.dir.fx_scaled(PLAYER_RADIUS)),
            vel: player.dir.fx_scaled(BULLET_SPEED),
        }
    }

    /// Advance this bullet by one physics step, with no players in the
    /// way; the result says whether the bullet dies (wall hit or range
    /// cap).
    pub fn update(&mut self, collision_boxes: &Vec<CSquare>, dt: i64) -> (dead: bool)
        requires
            bullet_wf(old(self)@),
            boxes_wf(squares_view(collision_boxes@)),
            0 <= dt <= MAX_DT,
        ensures
            (final(self)@, dead) == spec_bullet_phys(old(self)@, squares_view(collision_boxes@), dt as int),
            !dead ==> bullet_wf(final(self)@),
            !dead ==> !out_of_range(final(self)@.pos),
    {
        let ghost bs = squares_view(collision_boxes@);
        let bounds = CCircle::new(self.pos, BULLET_RADIUS);
        let mut i: usize = 0;
        while i < collision_boxes.len()
            invariant
                i <= collision_boxes.len(),
                !bullet_hits_wall(old(self)@, bs, i as int),
                *self == *old(self),
            decreases collision_boxes.len() - i,
        {
            let cb = collision_boxes[i];
            proof {
                assert(cb@ == bs[i as int]);
            }
            if bounds.intersects_square(&cb) {
                proof {
                    lemma_hits_wall_mono(old(self)@, bs, i as int + 1, bs.len() as int);
                }
                return true;
            }
            i = i + 1;
        }
        proof {
            crate::fixed::lemma_fx_mul_dt_bound(old(self)@.vel.x, dt as int, 20_000);
            crate::fixed::lemma_fx_mul_dt_bound(old(self)@.vel.y, dt as int, 20_000);
            assert((RANGE_CAP as int) * (RANGE_CAP as int) == 400_000_000) by (nonlinear_arith);
        }
        let was_out = self.pos.norm_sq() > RANGE_CAP * RANGE_CAP;
        self.pos = self.pos.plus(self.vel.fx_scaled(dt));
        let now_out = self.pos.norm_sq() > RANGE_CAP * RANGE_CAP;
        let dead = was_out || now_out;
        proof {
            if !dead {
                crate::vec2::lemma_component_bound_from_norm(self@.pos, RANGE_CAP as int);
            }
        }
        dead
    }
}


/// What happens to one bullet this tick, decided during detection.
#[derive(Clone, Copy, PartialEq, Eq, Structural)]
enum Fate {
    Wall,
    Victim(usize),
    Fly,
}

/// The detection outcome recorded for a bullet is the one the
/// specification assigns to it.
spec fn fate_ok(f: Fate, b: BulletV, ps: Seq<PlayerV>, boxes: Seq<SquareS>) -> bool {
    match f {
        Fate::Wall => bullet_hits_wall(b, boxes, boxes.len() as int),
        Fate::Victim(j) => !bullet_hits_wall(b, boxes, boxes.len() as int) && bullet_victim(
            b,
            ps,
            ps.len() as int,
        ) == Some(j as int),
        Fate::Fly => !bullet_hits_wall(b, boxes, boxes.len() as int) && bullet_victim(
            b,
            ps,
            ps.len() as int,
        ) is None,
    }
}

impl GameState {
    /// Advance the whole match by one tick: clear the events, step every
    /// player, resolve every bullet against the pre-step snapshot, and
    /// hand back the ids whose respawn countdown ended.  The result is
    /// exactly `spec_tick` of the previous state, so the new state
    /// depends on nothing but that state and the arguments.
    #[verifier::loop_isolation(false)]
    pub fn update(&mut self, collision_boxes: &Vec<CSquare>, dt: i64) -> (ready: Vec<PlayerId>)
        requires
            state_wf(old(self)@),
            boxes_wf(squares_view(collision_boxes@)),
            collision_boxes@.len() <= MAX_BOXES,
            0 <= dt <= MAX_DT,
        ensures
            final(self)@ == spec_tick(old(self)@, squares_view(collision_boxes@), dt as int).0,
            ids_view(ready@) == spec_tick(old(self)@, squares_view(collision_boxes@), dt as int).1,
            state_wf(final(self)@),
    {
        let ghost bs = squares_view(collision_boxes@);
        let ghost old_ps = players_view(old(self).players@);
        let ghost old_bv = bullets_view(old(self).bullets@);
        let ghost stepped = players_step(old_ps, bs, dt as int);

        self.events = Vec::new();

        // Detection: decide every bullet's fate from the snapshot taken
        // before anything moves.
        let mut fates: Vec<Fate> = Vec::new();
        let mut i: usize = 0;
        while i < self.bullets.len()
            invariant
                i <= self.bullets@.len(),
                self.players@ == old(self).players@,
                self.bullets@ == old(self).bullets@,
                self.events@.len() == 0,
                fates@.len() == i,
                forall|m: int|
                    0 <= m < i ==> fate_ok(#[trigger] fates@[m], old_bv[m], old_ps, bs),
            decreases self.bullets@.len() - i,
        {
            let b = self.bullets[i];
            proof {
                assert(old(self)@.bullets[i as int] == old_bv[i as int]);
                assert(b@ == old_bv[i as int]);
                assert(bullet_wf(b@));
            }
            let bc = CCircle::new(b.pos, BULLET_RADIUS);
            let mut fate = Fate::Fly;
            let mut w: usize = 0;
            while w < collision_boxes.len()
                invariant
                    w <= collision_boxes@.len(),
                    fate == Fate::Fly,
                    b@ == old_bv[i as int],
                    bc@.center == b@.pos && bc@.radius == BULLET_RADIUS as int,
                    !bullet_hits_wall(b@, bs, w as int),
                decreases collision_boxes@.len() - w,
            {
                let cb = collision_boxes[w];
                proof {
                    assert(cb@ == bs[w as int]);
                }
                if bc.intersects_square(&cb) {
                    proof {
                        lemma_hits_wall_mono(b@, bs, w as int + 1, bs.len() as int);
                    }
                    fate = Fate::Wall;
                    break;
                }
                w = w + 1;
            }
            if fate == Fate::Fly {
                let mut j: usize = 0;
                while j < self.players.len()
                    invariant
                        j <= self.players@.len(),
                        fate == Fate::Fly,
                        self.players@ == old(self).players@,
                        b@ == old_bv[i as int],
                        bc@.center == b@.pos && bc@.radius == BULLET_RADIUS as int,
                        bullet_victim(b@, old_ps, j as int) is None,
                    decreases self.players@.len() - j,
                {
                    let p = &self.players[j];
                    proof {
                        assert(old(self)@.players[j as int] == old_ps[j as int]);
                        assert(p@ == old_ps[j as int]);
                        assert(player_wf(p@));
                    }
                    if p.health > 0 && p.id != b.pid && CCircle::new(p.pos, PLAYER_RADIUS)
                        .intersects(bc) {
                        proof {
                            assert(bullet_victim(b@, old_ps, j as int + 1) == Some(j as int));
                            lemma_victim_mono(b@, old_ps, j as int + 1, old_ps.len() as int);
                        }
                        fate = Fate::Victim(j);
                        break;
                    }
                    j = j + 1;
                }
            }
            fates.push(fate);
            i = i + 1;
        }

        // Step every player; collect who respawns.
        let mut ready: Vec<PlayerId> = Vec::new();
        let mut j: usize = 0;
        while j < self.players.len()
            invariant
                j <= self.players@.len(),
                self.players@.len() == old_ps.len(),
                self.bullets@ == old(self).bullets@,
                self.events@.len() == 0,
                fates@.len() == old_bv.len(),
                forall|m: int|
                    0 <= m < old_bv.len() ==> fate_ok(#[trigger] fates@[m], old_bv[m], old_ps, bs),
                forall|m: int|
                    0 <= m < j ==> players_view(self.players@)[m] == stepped[m],
                forall|m: int|
                    j <= m < old_ps.len() ==> self.players@[m] == old(self).players@[m],
                forall|m: int| 0 <= m < j ==> player_wf(#[trigger] stepped[m]),
                forall|m: int|
                    0 <= m < old_ps.len() ==> players_view(self.players@)[m].id == old_ps[m].id,
                ids_view(ready@) == respawn_ready(old_ps, dt as int, j as int),
            decreases self.players@.len() - j,
        {
            proof {
                assert(old(self)@.players[j as int] == old_ps[j as int]);
                assert(self.players@[j as int]@ == old_ps[j as int]);
                assert(player_wf(old_ps[j as int]));
            }
            if self.players[j].health > 0 {
                self.players[j].update(collision_boxes, dt);
            } else {
                let t = self.players[j].respawn_timer;
                let dtu = dt as u32;
                if t > 0 && t <= dtu {
                    ready.push(self.players[j].id);
                }
                self.players[j].respawn_timer = if t > dtu {
                    t - dtu
                } else {
                    0
                };
            }
            proof {
                assert(players_view(self.players@)[j as int] == stepped[j as int]);
                assert(player_wf(stepped[j as int]));
            }
            j = j + 1;
            proof {
                assert(ids_view(ready@) =~= respawn_ready(old_ps, dt as int, j as int));
            }
        }
        proof {
            assert(players_view(self.players@) =~= stepped);
            assert(ids_view(ready@) =~= spec_tick(old(self)@, bs, dt as int).1);
        }

        // Resolution: apply every bullet's fate, in bullet order.
        let mut new_bullets: Vec<Bullet> = Vec::new();
        let mut i: usize = 0;
        while i < self.bullets.len()
            invariant
                i <= self.bullets@.len(),
                self.bullets@ == old(self).bullets@,
                self.players@.len() == old_ps.len(),
                fates@.len() == old_bv.len(),
                forall|m: int|
                    0 <= m < old_bv.len() ==> fate_ok(#[trigger] fates@[m], old_bv[m], old_ps, bs),
                players_view(self.players@) == resolve_upto(
                    old_ps,
                    bs,
                    dt as int,
                    old_bv,
                    i as int,
                    stepped,
                ).0,
                bullets_view(new_bullets@) == resolve_upto(
                    old_ps,
                    bs,
                    dt as int,
                    old_bv,
                    i as int,
                    stepped,
                ).1,
                events_view(self.events@) == resolve_upto(
                    old_ps,
                    bs,
                    dt as int,
                    old_bv,
                    i as int,
                    stepped,
                ).2,
                forall|m: int|
                    0 <= m < old_ps.len() ==> player_wf(#[trigger] players_view(self.players@)[m]),
                forall|m: int|
                    0 <= m < old_ps.len() ==> players_view(self.players@)[m].id == old_ps[m].id,
                forall|m: int|
                    0 <= m < new_bullets@.len() ==> bullet_wf(
                        #[trigger] bullets_view(new_bullets@)[m],
                    ),
            decreases self.bullets@.len() - i,
        {
            let ghost prev = resolve_upto(old_ps, bs, dt as int, old_bv, i as int, stepped);
            let b = self.bullets[i];
            proof {
                assert(b@ == old_bv[i as int]);
            }
            match fates[i] {
                Fate::Wall => {
                    self.events.push(Event::BulletHitWall(b.pos, b.vel));
                    proof {
                        assert(events_view(self.events@) =~= prev.2.push(
                            EventV::BulletHitWall(b@.pos, b@.vel),
                        ));
                    }
                },
                Fate::Victim(j) => {
                    proof {
                        lemma_victim_index(b@, old_ps, old_ps.len() as int);
                    }
                    let vic_id = self.players[j].id;
                    let hp = self.players[j].health;
                    self.events.push(Event::BulletHitPlayer(b, vic_id, BULLET_DAMAGE));
                    let h2 = if hp > BULLET_DAMAGE {
                        hp - BULLET_DAMAGE
                    } else {
                        0
                    };
                    self.players[j].health = h2;
                    if hp > 0 && h2 == 0 {
                        self.players[j].respawn_timer = RESPAWN_MS;
                    }
                    proof {
                        assert(players_view(self.players@) =~= prev.0.update(
                            j as int,
                            damage_player(prev.0[j as int]),
                        ));
                        assert(events_view(self.events@) =~= prev.2.push(
                            EventV::BulletHitPlayer(b@, prev.0[j as int].id, BULLET_DAMAGE as int),
                        ));
                    }
                    if hp > 0 && h2 == 0 {
                        self.events.push(Event::PlayerDied(vic_id, b.pid));
                        proof {
                            assert(events_view(self.events@) =~= prev.2.push(
                                EventV::BulletHitPlayer(
                                    b@,
                                    prev.0[j as int].id,
                                    BULLET_DAMAGE as int,
                                ),
                            ).push(EventV::PlayerDied(prev.0[j as int].id, b@.pid)));
                        }
                        let ghost ps2 = players_view(self.players@);
                        let mut k: usize = 0;
                        while k < self.players.len()
                            invariant
                                k <= self.players@.len(),
                                self.players@.len() == ps2.len(),
                                self.bullets@ == old(self).bullets@,
                                b@ == old_bv[i as int],
                                events_view(self.events@) == prev.2.push(
                                    EventV::BulletHitPlayer(
                                        b@,
                                        prev.0[j as int].id,
                                        BULLET_DAMAGE as int,
                                    ),
                                ).push(EventV::PlayerDied(prev.0[j as int].id, b@.pid)),
                                forall|m: int|
                                    0 <= m < k ==> players_view(self.players@)[m] == award_kill(
                                        ps2,
                                        b@.pid,
                                    )[m],
                                forall|m: int|
                                    k <= m < ps2.len() ==> players_view(self.players@)[m] == ps2[m],
                            decreases self.players@.len() - k,
                        {
                            if self.players[k].id == b.pid {
                                if self.players[k].score < u32::MAX {
                                    let sc = self.players[k].score;
                                    self.players[k].score = sc + 1;
                                }
                            }
                            k = k + 1;
                        }
                        proof {
                            assert(players_view(self.players@) =~= award_kill(ps2, b@.pid));
                        }
                    }
                },
                Fate::Fly => {
                    let mut fb = b;
                    let dead = fb.update(collision_boxes, dt);
                    if !dead {
                        new_bullets.push(fb);
                        proof {
                            assert(bullets_view(new_bullets@) =~= prev.1.push(
                                bullet_move(b@, dt as int),
                            ));
                        }
                    }
                },
            }
            i = i + 1;
            proof {
                let cur = resolve_upto(old_ps, bs, dt as int, old_bv, i as int, stepped);
                assert(players_view(self.players@) =~= cur.0);
                assert(bullets_view(new_bullets@) =~= cur.1);
                assert(events_view(self.events@) =~= cur.2);
            }
        }
        self.bullets = new_bullets;
        proof {
            let r = spec_tick(old(self)@, bs, dt as int);
            assert(final(self)@.players =~= r.0.players);
            assert(final(self)@.bullets =~= r.0.bullets);
            assert(final(self)@.events =~= r.0.events);
            let pv = players_view(self.players@);
            assert forall|a: int, c: int| 0 <= a < c < pv.len() implies pv[a].id != pv[c].id by {
                assert(pv[a].id == old_ps[a].id);
                assert(pv[c].id == old_ps[c].id);
            }
        }
        ready
    }
}

} // verus!
