//! The static level: a fixed rectangular grid of single-character tile
//! codes, compiled into the process.
//!
//! Codes `b`, `g` and `i` are solid wall tiles; `w` and `f` are walkable
//! floor.  The grid yields the static collision boxes (one unit box per
//! solid tile, in row-major order) and the centres of the floor tiles
//! used when spawning players.

use vstd::prelude::*;

verus! {

use vstd::string::StrSliceExecFns;
use crate::fixed::FX_ONE;
use crate::vec2::{Vec2, Vec2s};
use crate::geom::{CSquare, SquareS};

/// Tiles per row.
pub const LOGO_WIDTH: usize = 12;

/// Number of rows.
pub const LOGO_HEIGHT: usize = 15;

/// The tile codes of row `y`.
pub open spec fn spec_row(y: int) -> Seq<char> {
    if y == 0 {
        "bbbbbbbbbbbb"@
    } else if y == 1 {
        "bwwwwwwwwwwb"@
    } else if y == 2 {
        "bwffffffffwb"@
    } else if y == 3 {
        "bwgfgfgfffwb"@
    } else if y == 4 {
        "bwffffffffwb"@
    } else if y == 5 {
        "bwfggfggffwb"@
    } else if y == 6 {
        "bwffffffffwb"@
    } else if y == 7 {
        "bwffffffffwb"@
    } else if y == 8 {
        "bwwwwwwwwwwb"@
    } else if y == 9 {
        "bbbbffffbbbb"@
    } else if y == 10 {
        "wwwibffbiwww"@
    } else if y == 11 {
        "ibbbffffbbbi"@
    } else if y == 12 {
        "bfbwfwfwbwfb"@
    } else if y == 13 {
        "bfwfwbwfwffb"@
    } else {
        "bbbbbbbbbbbb"@
    }
}

/// Wall tile codes.
pub open spec fn solid_char(c: char) -> bool {
    c == 'b' || c == 'g' || c == 'i'
}

/// Floor tile codes.
pub open spec fn floor_char(c: char) -> bool {
    c == 'w' || c == 'f'
}

/// Whether the tile at `(x, y)` is solid.
pub open spec fn spec_solid(x: int, y: int) -> bool {
    solid_char(spec_row(y)[x])
}

/// Whether the tile at `(x, y)` is floor.
pub open spec fn spec_floor(x: int, y: int) -> bool {
    floor_char(spec_row(y)[x])
}

/// Every row is `LOGO_WIDTH` wide and holds only known tile codes.
pub proof fn lemma_level_valid()
    ensures
        forall|y: int|
            0 <= y < LOGO_HEIGHT as int ==> (#[trigger] spec_row(y)).len() == LOGO_WIDTH as int,
        forall|x: int, y: int|
            0 <= x < LOGO_WIDTH as int && 0 <= y < LOGO_HEIGHT as int ==> (spec_solid(x, y)
                <==> !spec_floor(x, y)),
{
    reveal_strlit("bbbbbbbbbbbb");
    reveal_strlit("bwwwwwwwwwwb");
    reveal_strlit("bwffffffffwb");
    reveal_strlit("bwgfgfgfffwb");
    reveal_strlit("bwfggfggffwb");
    reveal_strlit("bbbbffffbbbb");
    reveal_strlit("wwwibffbiwww");
    reveal_strlit("ibbbffffbbbi");
    reveal_strlit("bfbwfwfwbwfb");
    reveal_strlit("bfwfwbwfwffb");
}

/// The tile codes of row `y`, as compiled in.
pub fn logo_row(y: usize) -> (r: &'static str)
    requires
        y < LOGO_HEIGHT,
    ensures
        r@ == spec_row(y as int),
{
    match y {
        0 => "bbbbbbbbbbbb",
        1 => "bwwwwwwwwwwb",
        2 => "bwffffffffwb",
        3 => "bwgfgfgfffwb",
        4 => "bwffffffffwb",
        5 => "bwfggfggffwb",
        6 => "bwffffffffwb",
        7 => "bwffffffffwb",
        8 => "bwwwwwwwwwwb",
        9 => "bbbbffffbbbb",
        10 => "wwwibffbiwww",
        11 => "ibbbffffbbbi",
        12 => "bfbwfwfwbwfb",
        13 => "bfwfwbwfwffb",
        _ => "bbbbbbbbbbbb",
    }
}

/// The unit collision box of the tile at `(x, y)`.
pub open spec fn tile_box(x: int, y: int) -> SquareS {
    SquareS {
        top_left: Vec2s { x: x * FX_ONE as int, y: y * FX_ONE as int },
        bottom_right: Vec2s {
            x: x * FX_ONE as int + FX_ONE as int,
            y: y * FX_ONE as int + FX_ONE as int,
        },
    }
}

/// The centre of the tile at `(x, y)`.
pub open spec fn tile_center(x: int, y: int) -> Vec2s {
    Vec2s {
        x: x * FX_ONE as int + (FX_ONE as int) / 2,
        y: y * FX_ONE as int + (FX_ONE as int) / 2,
    }
}

/// Collision boxes of the solid tiles among the first `k` tiles in
/// row-major order.
pub open spec fn boxes_upto(k: int) -> Seq<SquareS>
    decreases k,
{
    if k <= 0 {
        Seq::empty()
    } else {
        boxes_upto(k - 1) + if spec_solid((k - 1) % (LOGO_WIDTH as int), (k - 1) / (LOGO_WIDTH as int)) {
            seq![tile_box((k - 1) % (LOGO_WIDTH as int), (k - 1) / (LOGO_WIDTH as int))]
        } else {
            Seq::empty()
        }
    }
}

/// Centres of the floor tiles among the first `k` tiles in row-major
/// order.
pub open spec fn floors_upto(k: int) -> Seq<Vec2s>
    decreases k,
{
    if k <= 0 {
        Seq::empty()
    } else {
        floors_upto(k - 1) + if spec_floor((k - 1) % (LOGO_WIDTH as int), (k - 1) / (LOGO_WIDTH as int)) {
            seq![tile_center((k - 1) % (LOGO_WIDTH as int), (k - 1) / (LOGO_WIDTH as int))]
        } else {
            Seq::empty()
        }
    }
}

/// All collision boxes of the level, one per solid tile, row-major.
pub open spec fn spec_boxes() -> Seq<SquareS> {
    boxes_upto(LOGO_WIDTH as int * LOGO_HEIGHT as int)
}

/// All floor tile centres of the level, row-major.
pub open spec fn spec_floors() -> Seq<Vec2s> {
    floors_upto(LOGO_WIDTH as int * LOGO_HEIGHT as int)
}

/// The views of a sequence of collision boxes.
pub open spec fn squares_view(s: Seq<CSquare>) -> Seq<SquareS> {
    Seq::new(s.len(), |i: int| s[i]@)
}

/// The views of a sequence of points.
pub open spec fn points_view(s: Seq<Vec2>) -> Seq<Vec2s> {
    Seq::new(s.len(), |i: int| s[i]@)
}

/// Every box of a prefix is a well-formed square: the grid coordinates
/// stay far inside the range the geometry accepts.
proof fn lemma_boxes_upto_wf(k: int)
    requires
        0 <= k <= LOGO_WIDTH as int * LOGO_HEIGHT as int,
    ensures
        forall|i: int|
            0 <= i < boxes_upto(k).len() ==> crate::geom::square_wf(#[trigger] boxes_upto(k)[i]),
    decreases k,
{
    if k > 0 {
        lemma_boxes_upto_wf(k - 1);
        assert forall|i: int|
            0 <= i < boxes_upto(k).len() implies crate::geom::square_wf(
            #[trigger] boxes_upto(k)[i],
        ) by {
            if i < boxes_upto(k - 1).len() {
                assert(boxes_upto(k)[i] == boxes_upto(k - 1)[i]);
            } else {
                let x = (k - 1) % (LOGO_WIDTH as int);
                let y = (k - 1) / (LOGO_WIDTH as int);
                assert(0 <= x < LOGO_WIDTH as int);
                assert(0 <= y < LOGO_HEIGHT as int);
                assert(boxes_upto(k)[i] == tile_box(x, y));
            }
        }
    }
}

/// Every tile centre of a prefix lies within the arena bound.
proof fn lemma_floors_upto_bounded(k: int)
    requires
        0 <= k <= LOGO_WIDTH as int * LOGO_HEIGHT as int,
    ensures
        forall|i: int|
            0 <= i < floors_upto(k).len() ==> crate::vec2::bounded(
                #[trigger] floors_upto(k)[i],
                crate::state::ARENA_LIMIT as int,
            ),
    decreases k,
{
    if k > 0 {
        lemma_floors_upto_bounded(k - 1);
        assert forall|i: int|
            0 <= i < floors_upto(k).len() implies crate::vec2::bounded(
            #[trigger] floors_upto(k)[i],
            crate::state::ARENA_LIMIT as int,
        ) by {
            if i < floors_upto(k - 1).len() {
                assert(floors_upto(k)[i] == floors_upto(k - 1)[i]);
            } else {
                let x = (k - 1) % (LOGO_WIDTH as int);
                let y = (k - 1) / (LOGO_WIDTH as int);
                assert(0 <= x < LOGO_WIDTH as int);
                assert(0 <= y < LOGO_HEIGHT as int);
                assert(floors_upto(k)[i] == tile_center(x, y));
            }
        }
    }
}

/// Later prefixes of the floor-tile list never shrink.
proof fn lemma_floors_monotone(a: int, b: int)
    requires
        a <= b,
    ensures
        floors_upto(a).len() <= floors_upto(b).len(),
    decreases b - a,
{
    if a < b {
        lemma_floors_monotone(a, b - 1);
    }
}

/// The level's static collision boxes: one unit box per solid tile, at
/// the tile's grid position, in row-major order.
pub fn collision_boxes() -> (r: Vec<CSquare>)
    ensures
        squares_view(r@) == spec_boxes(),
        forall|i: int|
            0 <= i < r@.len() ==> crate::geom::square_wf(#[trigger] squares_view(r@)[i]),
{
    proof {
        lemma_level_valid();
        lemma_boxes_upto_wf(LOGO_WIDTH as int * LOGO_HEIGHT as int);
    }
    let mut boxes: Vec<CSquare> = Vec::new();
    let mut k: usize = 0;
    while k < LOGO_WIDTH * LOGO_HEIGHT
        invariant
            k <= LOGO_WIDTH * LOGO_HEIGHT,
            squares_view(boxes@) == boxes_upto(k as int),
        decreases LOGO_WIDTH * LOGO_HEIGHT - k,
    {
        let x = k % LOGO_WIDTH;
        let y = k / LOGO_WIDTH;
        let row = logo_row(y);
        let c = row.get_char(x);
        if c == 'b' || c == 'g' || c == 'i' {
            let pos = Vec2::new((x as i64) * FX_ONE, (y as i64) * FX_ONE);
            boxes.push(CSquare::new(pos, FX_ONE));
        }
        k = k + 1;
        proof {
            assert(squares_view(boxes@) =~= boxes_upto(k as int));
        }
    }
    boxes
}

/// The centres of the level's floor tiles, in row-major order; players
/// spawn on these.
pub fn floor_tiles() -> (r: Vec<Vec2>)
    ensures
        points_view(r@) == spec_floors(),
        r@.len() > 0,
        forall|i: int|
            0 <= i < r@.len() ==> crate::vec2::bounded(
                #[trigger] points_view(r@)[i],
                crate::state::ARENA_LIMIT as int,
            ),
{
    proof {
        lemma_level_valid();
        lemma_floors_upto_bounded(LOGO_WIDTH as int * LOGO_HEIGHT as int);
    }
    let mut tiles: Vec<Vec2> = Vec::new();
    let mut k: usize = 0;
    while k < LOGO_WIDTH * LOGO_HEIGHT
        invariant
            k <= LOGO_WIDTH * LOGO_HEIGHT,
            points_view(tiles@) == floors_upto(k as int),
        decreases LOGO_WIDTH * LOGO_HEIGHT - k,
    {
        let x = k % LOGO_WIDTH;
        let y = k / LOGO_WIDTH;
        let row = logo_row(y);
        let c = row.get_char(x);
        if c == 'w' || c == 'f' {
            let center = Vec2::new(
                (x as i64) * FX_ONE + FX_ONE / 2,
                (y as i64) * FX_ONE + FX_ONE / 2,
            );
            tiles.push(center);
        }
        k = k + 1;
        proof {
            assert(points_view(tiles@) =~= floors_upto(k as int));
        }
    }
    proof {
        reveal_strlit("bwwwwwwwwwwb");
        assert(spec_floor(1, 1));
        assert(floors_upto(14).len() > 0);
        lemma_floors_monotone(14, LOGO_WIDTH as int * LOGO_HEIGHT as int);
    }
    tiles
}

} // verus!
