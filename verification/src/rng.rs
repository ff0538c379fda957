//! Pseudo-randomness for spawn placement.
//!
//! The generator itself comes from the `ludomath` crate; the library
//! only draws one bounded integer from it, and every decision made with
//! that integer is verified for each value it can take.

use vstd::prelude::*;

verus! {

use crate::vec2::{Vec2, bounded};
use crate::state::{GameState, state_wf, ARENA_LIMIT};
use crate::level::points_view;
use crate::session::{spawn_position, best_tile};

#[verifier::external_type_specification]
#[verifier::external_body]
pub struct ExRng(ludomath::rng::Rng);

/// Relies on ludomath's `Rng::rand_uint`: xorshift over the seed pair,
/// reduced into the requested interval; it panics unless `min < max`,
/// and otherwise always lands in `[min, max)`.
pub assume_specification[ ludomath::rng::Rng::rand_uint ](
    rng: &mut ludomath::rng::Rng,
    min: u64,
    max: u64,
) -> (r: u64)
    requires
        min < max,
    ensures
        min <= r < max,
;

/// Pick a spawn position, drawing from the generator only while the
/// arena is empty: then some floor tile comes back; otherwise the
/// first floor tile maximising the minimum distance to any player.
pub fn choose_spawn(rng: &mut ludomath::rng::Rng, gs: &GameState, tiles: &Vec<Vec2>) -> (p: Vec2)
    requires
        state_wf(gs@),
        tiles@.len() > 0,
        forall|i: int|
            0 <= i < tiles@.len() ==> bounded(#[trigger] points_view(tiles@)[i], ARENA_LIMIT as int),
    ensures
        gs@.players.len() == 0 ==> exists|i: int|
            0 <= i < tiles@.len() && p@ == points_view(tiles@)[i],
        gs@.players.len() > 0 ==> p@ == points_view(tiles@)[best_tile(
            gs@.players,
            points_view(tiles@),
            tiles@.len() as int,
        )],
{
    let draw: u64 = if gs.players.len() == 0 {
        rng.rand_uint(0, tiles.len() as u64)
    } else {
        0
    };
    proof {
        if gs@.players.len() == 0 {
            vstd::arithmetic::div_mod::lemma_small_mod(draw as nat, tiles@.len() as nat);
        }
    }
    spawn_position(gs, tiles, draw)
}

} // verus!
