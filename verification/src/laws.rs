//! Global properties of the simulation, stated and proved once over the
//! specification functions that the executable code is held to.

use vstd::prelude::*;

verus! {

use crate::state::{GameV, PlayerV, spec_tick, resolve_upto, players_step, damage_player, bullet_move, out_of_range, MAX_HEALTH};
use crate::geom::SquareS;
use crate::codec::{enc_game, dec_game, ok_game, enc_from_server, dec_from_server, ok_from_server, lemma_dec_game, lemma_dec_from_server};
use crate::protocol::FromServerMsgV;

/// A tick reads only the players and the bullets of the previous state:
/// the events list is cleared before it is repopulated, so two states
/// that differ only in their events produce identical outcomes.  Since
/// `spec_tick` is a mathematical function of the state and the tick's
/// arguments, the outcome is deterministic.
pub proof fn lemma_tick_ignores_events(g1: GameV, g2: GameV, boxes: Seq<SquareS>, dt: int)
    requires
        g1.players == g2.players,
        g1.bullets == g2.bullets,
    ensures
        spec_tick(g1, boxes, dt) == spec_tick(g2, boxes, dt),
{
}

/// One bullet hit never drives health outside `[0, MAX_HEALTH]`, and
/// never raises it.
pub proof fn lemma_damage_health_bounds(p: PlayerV)
    requires
        0 <= p.health <= MAX_HEALTH as int,
    ensures
        0 <= damage_player(p).health <= MAX_HEALTH as int,
        damage_player(p).health <= p.health,
{
}

/// Health after `n` bullet hits.
pub open spec fn damage_n(p: PlayerV, n: nat) -> PlayerV
    decreases n,
{
    if n == 0 {
        p
    } else {
        damage_player(damage_n(p, (n - 1) as nat))
    }
}

/// Any sequence of bullet hits keeps health within `[0, MAX_HEALTH]`.
pub proof fn lemma_damage_sequence_bounds(p: PlayerV, n: nat)
    requires
        0 <= p.health <= MAX_HEALTH as int,
    ensures
        0 <= damage_n(p, n).health <= MAX_HEALTH as int,
    decreases n,
{
    if n > 0 {
        lemma_damage_sequence_bounds(p, (n - 1) as nat);
    }
}

/// Every bullet kept by the resolution pass is the moved image of a
/// bullet that was within the range cap before and after its move: a
/// bullet beyond the cap never survives the step.
proof fn lemma_resolve_culls(
    old_ps: Seq<PlayerV>,
    boxes: Seq<SquareS>,
    dt: int,
    bullets: Seq<crate::state::BulletV>,
    k: int,
    base: Seq<PlayerV>,
)
    requires
        0 <= k <= bullets.len(),
    ensures
        forall|j: int|
            0 <= j < resolve_upto(old_ps, boxes, dt, bullets, k, base).1.len() ==> exists|i: int|
                0 <= i < k && #[trigger] resolve_upto(old_ps, boxes, dt, bullets, k, base).1[j]
                    == bullet_move(bullets[i], dt) && !out_of_range(bullets[i].pos)
                    && !out_of_range(bullet_move(bullets[i], dt).pos),
    decreases k,
{
    if k > 0 {
        lemma_resolve_culls(old_ps, boxes, dt, bullets, k - 1, base);
        let prev = resolve_upto(old_ps, boxes, dt, bullets, k - 1, base);
        let cur = resolve_upto(old_ps, boxes, dt, bullets, k, base);
        assert forall|j: int| 0 <= j < cur.1.len() implies exists|i: int|
            0 <= i < k && #[trigger] cur.1[j] == bullet_move(bullets[i], dt) && !out_of_range(
                bullets[i].pos,
            ) && !out_of_range(bullet_move(bullets[i], dt).pos) by {
            if j < prev.1.len() {
                let i = choose|i: int|
                    0 <= i < k - 1 && #[trigger] prev.1[j] == bullet_move(bullets[i], dt)
                        && !out_of_range(bullets[i].pos) && !out_of_range(
                        bullet_move(bullets[i], dt).pos,
                    );
                assert(cur.1[j] == bullet_move(bullets[i], dt) && !out_of_range(bullets[i].pos)
                    && !out_of_range(bullet_move(bullets[i], dt).pos));
            } else {
                assert(cur.1[j] == bullet_move(bullets[k - 1], dt) && !out_of_range(
                    bullets[k - 1].pos,
                ) && !out_of_range(bullet_move(bullets[k - 1], dt).pos));
            }
        }
    }
}

/// The range cap holds after every tick: each surviving bullet sits
/// within the cap, and it is the one-step image of a bullet that also
/// was — so a bullet beyond the cap is gone on the next step, and no
/// bullet ever lingers farther than one step's travel beyond the cap.
pub proof fn lemma_bullet_range_cap(g: GameV, boxes: Seq<SquareS>, dt: int)
    ensures
        forall|j: int|
            0 <= j < spec_tick(g, boxes, dt).0.bullets.len() ==> !out_of_range(
                #[trigger] spec_tick(g, boxes, dt).0.bullets[j].pos,
            ),
        forall|j: int|
            0 <= j < spec_tick(g, boxes, dt).0.bullets.len() ==> exists|i: int|
                0 <= i < g.bullets.len() && #[trigger] spec_tick(g, boxes, dt).0.bullets[j]
                    == bullet_move(g.bullets[i], dt) && !out_of_range(g.bullets[i].pos),
{
    lemma_resolve_culls(
        g.players,
        boxes,
        dt,
        g.bullets,
        g.bullets.len() as int,
        players_step(g.players, boxes, dt),
    );
}

/// Round trip: decoding the encoding of a snapshot yields a snapshot
/// equal in every observable field, consuming exactly the encoding.
pub proof fn lemma_game_round_trip(g: GameV)
    requires
        ok_game(g),
    ensures
        dec_game(enc_game(g), 0) == Some((g, enc_game(g).len() as int)),
{
    let e = enc_game(g);
    assert(e.subrange(0, e.len() as int) =~= e);
    lemma_dec_game(e, 0, g);
}

/// Round trip for whole server messages, `Update` snapshots included.
pub proof fn lemma_from_server_round_trip(m: FromServerMsgV)
    requires
        ok_from_server(m),
    ensures
        dec_from_server(enc_from_server(m), 0) == Some((m, enc_from_server(m).len() as int)),
{
    let e = enc_from_server(m);
    assert(e.subrange(0, e.len() as int) =~= e);
    lemma_dec_from_server(e, 0, m);
}

} // verus!
