//! The binary wire codec.
//!
//! Little-endian, length-prefixed, tag-discriminated: integers are laid
//! out byte by arithmetic byte, signed coordinates in offset binary,
//! strings as a length and one code point per character.  Every decoder
//! is the exact inverse of its encoder, so a snapshot read back from
//! the wire is the snapshot that was written.

use vstd::prelude::*;

verus! {

use vstd::arithmetic::div_mod::{lemma_fundamental_div_mod, lemma_div_denominator, lemma_small_mod, lemma_div_pos_is_pos, lemma_div_is_ordered_by_denominator};
use crate::vec2::{Vec2, Vec2s};
use crate::state::{PlayerId, Player, PlayerV, Bullet, BulletV, Event, EventV, GameState, GameV, players_view, bullets_view, events_view};
use crate::protocol::{Button, Input, InputV, ToServerMsg, ToServerMsgV, FromServerMsg, FromServerMsgV};

/// A value a `u32` can carry.
pub open spec fn ok_u32(v: int) -> bool {
    0 <= v < 0x1_0000_0000
}

/// A value an `i64` can carry.
pub open spec fn ok_i64(v: int) -> bool {
    -0x8000_0000_0000_0000 <= v < 0x8000_0000_0000_0000
}

/// Four little-endian bytes of an unsigned 32-bit value.
#[verifier::opaque]
pub open spec fn enc_u32(v: int) -> Seq<u8> {
    seq![
        (v % 256) as u8,
        ((v / 256) % 256) as u8,
        ((v / 65536) % 256) as u8,
        ((v / 16777216) % 256) as u8,
    ]
}

/// The value of four little-endian bytes.
#[verifier::opaque]
pub open spec fn u32_of(b0: u8, b1: u8, b2: u8, b3: u8) -> int {
    b0 + 256 * b1 + 65536 * b2 + 16777216 * b3
}

/// `enc_u32` always yields four bytes.
pub broadcast proof fn lemma_enc_u32_len(v: int)
    ensures
        (#[trigger] enc_u32(v)).len() == 4,
{
    reveal(enc_u32);
}

/// `dec_u32` reads four bytes exactly when they are there.
pub broadcast proof fn lemma_dec_u32_shape(b: Seq<u8>, pos: int)
    ensures
        0 <= pos && pos + 4 <= b.len() ==> ((#[trigger] dec_u32(b, pos)) matches Some(r) && r.1
            == pos + 4),
        !(0 <= pos && pos + 4 <= b.len()) ==> dec_u32(b, pos) is None,
{
    reveal(dec_u32);
}

/// Eight little-endian bytes of an unsigned 64-bit value.
pub open spec fn enc_u64(v: int) -> Seq<u8> {
    enc_u32(v % 0x1_0000_0000) + enc_u32(v / 0x1_0000_0000)
}

/// An `i64`, shifted into unsigned range (offset binary).
pub open spec fn enc_i64(v: int) -> Seq<u8> {
    enc_u64(v + 0x8000_0000_0000_0000)
}

/// Reading an unsigned 32-bit value.
#[verifier::opaque]
pub open spec fn dec_u32(b: Seq<u8>, pos: int) -> Option<(int, int)> {
    if 0 <= pos && pos + 4 <= b.len() {
        Some((u32_of(b[pos], b[pos + 1], b[pos + 2], b[pos + 3]), pos + 4))
    } else {
        None
    }
}

/// Reading an unsigned 64-bit value.
pub open spec fn dec_u64(b: Seq<u8>, pos: int) -> Option<(int, int)> {
    match dec_u32(b, pos) {
        Some((lo, p1)) => match dec_u32(b, p1) {
            Some((hi, p2)) => Some((lo + 0x1_0000_0000 * hi, p2)),
            None => None,
        },
        None => None,
    }
}

/// Reading an `i64` out of offset binary.
pub open spec fn dec_i64(b: Seq<u8>, pos: int) -> Option<(int, int)> {
    match dec_u64(b, pos) {
        Some((u, p)) => Some((u - 0x8000_0000_0000_0000, p)),
        None => None,
    }
}

/// The little-endian bytes of a `u32` value read back as that value.
proof fn lemma_u32_round(v: int)
    requires
        ok_u32(v),
    ensures
        u32_of(
            (v % 256) as u8,
            ((v / 256) % 256) as u8,
            ((v / 65536) % 256) as u8,
            ((v / 16777216) % 256) as u8,
        ) == v,
{
    reveal(enc_u32);
    reveal(u32_of);
    lemma_fundamental_div_mod(v, 256);
    lemma_div_denominator(v, 256, 256);
    lemma_fundamental_div_mod(v / 256, 256);
    lemma_div_denominator(v, 65536, 256);
    lemma_fundamental_div_mod(v / 65536, 256);
    lemma_div_pos_is_pos(v, 16777216);
    lemma_div_is_ordered_by_denominator(v, 16777216, 16777216);
    assert(v / 16777216 < 256) by {
        if v / 16777216 >= 256 {
            vstd::arithmetic::div_mod::lemma_multiply_divide_lt(v, 16777216, 256);
        }
    }
    lemma_small_mod((v / 16777216) as nat, 256);
}

/// Decoding after encoding a `u32` yields the value and steps past it.
pub proof fn lemma_dec_u32(b: Seq<u8>, pos: int, v: int)
    requires
        ok_u32(v),
        0 <= pos,
        pos + 4 <= b.len(),
        b.subrange(pos, pos + 4) == enc_u32(v),
    ensures
        dec_u32(b, pos) == Some((v, pos + 4)),
{
    reveal(enc_u32);
    reveal(u32_of);
    reveal(dec_u32);
    assert(b[pos] == b.subrange(pos, pos + 4)[0]);
    assert(b[pos + 1] == b.subrange(pos, pos + 4)[1]);
    assert(b[pos + 2] == b.subrange(pos, pos + 4)[2]);
    assert(b[pos + 3] == b.subrange(pos, pos + 4)[3]);
    lemma_u32_round(v);
}

/// Decoding after encoding a `u64` yields the value and steps past it.
pub proof fn lemma_dec_u64(b: Seq<u8>, pos: int, v: int)
    requires
        0 <= v < 0x1_0000_0000_0000_0000,
        0 <= pos,
        pos + 8 <= b.len(),
        b.subrange(pos, pos + 8) == enc_u64(v),
    ensures
        dec_u64(b, pos) == Some((v, pos + 8)),
{
    reveal(dec_u32);
    broadcast use lemma_enc_u32_len;

    let lo = v % 0x1_0000_0000;
    let hi = v / 0x1_0000_0000;
    assert forall|k: int| 0 <= k < 4 implies b.subrange(pos, pos + 4)[k] == enc_u32(lo)[k] by {
        assert(b.subrange(pos, pos + 4)[k] == b[pos + k]);
        assert(b.subrange(pos, pos + 8)[k] == b[pos + k]);
    }
    assert(b.subrange(pos, pos + 4) =~= enc_u32(lo));
    assert forall|k: int| 0 <= k < 4 implies b.subrange(pos + 4, pos + 8)[k] == enc_u32(hi)[k] by {
        assert(b.subrange(pos + 4, pos + 8)[k] == b[pos + 4 + k]);
        assert(b.subrange(pos, pos + 8)[4 + k] == b[pos + 4 + k]);
    }
    assert(b.subrange(pos + 4, pos + 8) =~= enc_u32(hi));
    assert(ok_u32(hi)) by {
        lemma_div_pos_is_pos(v, 0x1_0000_0000);
        if hi >= 0x1_0000_0000 {
            vstd::arithmetic::div_mod::lemma_multiply_divide_lt(v, 0x1_0000_0000, 0x1_0000_0000);
        }
    }
    lemma_dec_u32(b, pos, lo);
    lemma_dec_u32(b, pos + 4, hi);
    lemma_fundamental_div_mod(v, 0x1_0000_0000);
}

/// Decoding after encoding an `i64` yields the value and steps past it.
pub proof fn lemma_dec_i64(b: Seq<u8>, pos: int, v: int)
    requires
        ok_i64(v),
        0 <= pos,
        pos + 8 <= b.len(),
        b.subrange(pos, pos + 8) == enc_i64(v),
    ensures
        dec_i64(b, pos) == Some((v, pos + 8)),
{
    lemma_dec_u64(b, pos, v + 0x8000_0000_0000_0000);
}

/// Append the four bytes of a `u32`.
pub fn encode_u32(out: &mut Vec<u8>, v: u32)
    ensures
        final(out)@ == old(out)@ + enc_u32(v as int),
{
    out.push((v % 256) as u8);
    out.push(((v / 256) % 256) as u8);
    out.push(((v / 65536) % 256) as u8);
    out.push(((v / 16777216) % 256) as u8);
    proof {
        reveal(enc_u32);
        assert(out@ =~= old(out)@ + enc_u32(v as int));
    }
}

/// Append the eight offset-binary bytes of an `i64`.
pub fn encode_i64(out: &mut Vec<u8>, v: i64)
    ensures
        final(out)@ == old(out)@ + enc_i64(v as int),
{
    let u: u64 = if v >= 0 {
        (v as u64) + 0x8000_0000_0000_0000u64
    } else {
        ((v + 0x4000_0000_0000_0000) + 0x4000_0000_0000_0000) as u64
    };
    proof {
        assert(u as int == v as int + 0x8000_0000_0000_0000);
    }
    let lo: u32 = (u % 0x1_0000_0000) as u32;
    let hi: u32 = (u / 0x1_0000_0000) as u32;
    encode_u32(out, lo);
    encode_u32(out, hi);
    proof {
        vstd::arithmetic::div_mod::lemma_div_pos_is_pos(u as int, 0x1_0000_0000);
        assert(out@ =~= old(out)@ + enc_i64(v as int));
    }
}

/// Read a `u32` at `pos`.
pub fn decode_u32(buf: &Vec<u8>, pos: usize) -> (r: Option<(u32, usize)>)
    requires
        pos <= buf@.len(),
    ensures
        match r {
            Some((v, p2)) => dec_u32(buf@, pos as int) == Some((v as int, p2 as int)) && p2
                <= buf@.len() && pos < p2,
            None => dec_u32(buf@, pos as int) is None,
        },
{
    proof {
        reveal(dec_u32);
        reveal(u32_of);
    }
    if buf.len() - pos >= 4 {
        let b0 = buf[pos] as u32;
        let b1 = buf[pos + 1] as u32;
        let b2 = buf[pos + 2] as u32;
        let b3 = buf[pos + 3] as u32;
        Some((b0 + 256 * b1 + 65536 * b2 + 16777216 * b3, pos + 4))
    } else {
        None
    }
}

/// Read an `i64` at `pos`.
pub fn decode_i64(buf: &Vec<u8>, pos: usize) -> (r: Option<(i64, usize)>)
    requires
        pos <= buf@.len(),
    ensures
        match r {
            Some((v, p2)) => dec_i64(buf@, pos as int) == Some((v as int, p2 as int)) && p2
                <= buf@.len() && pos < p2,
            None => dec_i64(buf@, pos as int) is None,
        },
{
    let (lo, p1) = match decode_u32(buf, pos) {
        Some(x) => x,
        None => {
            return None;
        },
    };
    let (hi, p2) = match decode_u32(buf, p1) {
        Some(x) => x,
        None => {
            return None;
        },
    };
    let u: u64 = (lo as u64) + 0x1_0000_0000u64 * (hi as u64);
    let v: i64 = if u >= 0x8000_0000_0000_0000u64 {
        (u - 0x8000_0000_0000_0000u64) as i64
    } else {
        ((u as i64) - 0x4000_0000_0000_0000) - 0x4000_0000_0000_0000
    };
    proof {
        assert(v as int == u as int - 0x8000_0000_0000_0000);
    }
    Some((v, p2))
}


/// A code point a `char` can carry: not a surrogate, at most the
/// largest code point.
pub open spec fn is_char_code(v: int) -> bool {
    0 <= v <= 0xD7FF || 0xE000 <= v <= 0x10FFFF
}

/// A string the codec can carry: its length fits the length prefix.
pub open spec fn ok_str(s: Seq<char>) -> bool {
    s.len() < 0x1_0000_0000
}

/// One character: its code point as four bytes.
pub open spec fn enc_char(c: char) -> Seq<u8> {
    enc_u32(c as u32 as int)
}

/// Characters in order.
pub open spec fn enc_chars(s: Seq<char>) -> Seq<u8>
    decreases s.len(),
{
    if s.len() == 0 {
        Seq::empty()
    } else {
        enc_char(s[0]) + enc_chars(s.skip(1))
    }
}

/// A string: its character count, then its characters.
pub open spec fn enc_str(s: Seq<char>) -> Seq<u8> {
    enc_u32(s.len() as int) + enc_chars(s)
}

/// Reading one character.
pub open spec fn dec_char(b: Seq<u8>, pos: int) -> Option<(char, int)> {
    match dec_u32(b, pos) {
        Some((v, p)) => if is_char_code(v) {
            Some(((v as u32) as char, p))
        } else {
            None
        },
        None => None,
    }
}

/// Reading `n` characters.
pub open spec fn dec_chars(b: Seq<u8>, pos: int, n: int) -> Option<(Seq<char>, int)>
    decreases n,
{
    if n <= 0 {
        Some((Seq::empty(), pos))
    } else {
        match dec_char(b, pos) {
            Some((c, p1)) => match dec_chars(b, p1, n - 1) {
                Some((cs, p2)) => Some((seq![c] + cs, p2)),
                None => None,
            },
            None => None,
        }
    }
}

/// Reading a string.
pub open spec fn dec_str(b: Seq<u8>, pos: int) -> Option<(Seq<char>, int)> {
    match dec_u32(b, pos) {
        Some((n, p1)) => dec_chars(b, p1, n),
        None => None,
    }
}

/// Character sequences encode to four bytes each.
pub proof fn lemma_enc_chars_len(s: Seq<char>)
    ensures
        enc_chars(s).len() == 4 * s.len(),
    decreases s.len(),
{
    broadcast use lemma_enc_u32_len;

    if s.len() > 0 {
        lemma_enc_chars_len(s.skip(1));
    }
}

/// Appending one character appends its four bytes.
pub proof fn lemma_enc_chars_push(u: Seq<char>, c: char)
    ensures
        enc_chars(u.push(c)) == enc_chars(u) + enc_char(c),
    decreases u.len(),
{
    broadcast use lemma_enc_u32_len, lemma_dec_u32_shape;
    if u.len() == 0 {
        assert(u.push(c).len() == 1);
        assert(enc_chars(u.push(c)) == enc_char(u.push(c)[0]) + enc_chars(u.push(c).skip(1)));
        assert(u.push(c)[0] == c);
        assert(u.push(c).skip(1) =~= Seq::<char>::empty());
        assert(enc_chars(u.push(c).skip(1)) == Seq::<u8>::empty());
        assert(enc_chars(u) == Seq::<u8>::empty());
        assert(enc_chars(u.push(c)) =~= enc_chars(u) + enc_char(c));
    } else {
        assert(u.push(c).skip(1) =~= u.skip(1).push(c));
        lemma_enc_chars_push(u.skip(1), c);
        assert(u.push(c)[0] == u[0]);
        assert(enc_chars(u.push(c)) =~= enc_chars(u) + enc_char(c));
    }
}

/// Decoding after encoding `n` characters yields them back.
pub proof fn lemma_dec_chars(b: Seq<u8>, pos: int, s: Seq<char>)
    requires
        0 <= pos,
        pos + 4 * s.len() <= b.len(),
        b.subrange(pos, pos + 4 * s.len() as int) == enc_chars(s),
    ensures
        dec_chars(b, pos, s.len() as int) == Some((s, pos + 4 * s.len())),
    decreases s.len(),
{
    broadcast use lemma_enc_u32_len, lemma_dec_u32_shape;
    if s.len() > 0 {
        let c = s[0];
        vstd::utf8::char_is_scalar(c);
        vstd::utf8::char_u32_cast(c, c as u32);
        lemma_enc_chars_len(s.skip(1));
        assert forall|k: int| 0 <= k < 4 implies b.subrange(pos, pos + 4)[k] == enc_char(c)[k] by {
            assert(b.subrange(pos, pos + 4)[k] == b[pos + k]);
            assert(b.subrange(pos, pos + 4 * s.len() as int)[k] == b[pos + k]);
        }
        assert(b.subrange(pos, pos + 4) =~= enc_u32(c as u32 as int));
        lemma_dec_u32(b, pos, c as u32 as int);
        assert(is_char_code(c as u32 as int));
        assert(((c as u32 as int) as u32) as char == c);
        let rest = s.skip(1);
        assert forall|k: int|
            0 <= k < 4 * rest.len() implies b.subrange(
                pos + 4,
                pos + 4 + 4 * rest.len() as int,
            )[k] == enc_chars(rest)[k] by {
            assert(b.subrange(pos + 4, pos + 4 + 4 * rest.len() as int)[k] == b[pos + 4 + k]);
            assert(b.subrange(pos, pos + 4 * s.len() as int)[4 + k] == b[pos + 4 + k]);
        }
        assert(b.subrange(pos + 4, pos + 4 + 4 * rest.len() as int) =~= enc_chars(rest));
        lemma_dec_chars(b, pos + 4, rest);
        assert(seq![c] + rest =~= s);
    }
}

/// Decoding after encoding a string yields it back.
pub proof fn lemma_dec_str(b: Seq<u8>, pos: int, s: Seq<char>)
    requires
        ok_str(s),
        0 <= pos,
        pos + enc_str(s).len() <= b.len(),
        b.subrange(pos, pos + enc_str(s).len() as int) == enc_str(s),
    ensures
        dec_str(b, pos) == Some((s, pos + enc_str(s).len())),
{
    broadcast use lemma_enc_u32_len, lemma_dec_u32_shape;
    lemma_enc_chars_len(s);
    assert forall|k: int| 0 <= k < 4 implies b.subrange(pos, pos + 4)[k] == enc_u32(
        s.len() as int,
    )[k] by {
        assert(b.subrange(pos, pos + 4)[k] == b[pos + k]);
        assert(b.subrange(pos, pos + enc_str(s).len() as int)[k] == b[pos + k]);
    }
    assert(b.subrange(pos, pos + 4) =~= enc_u32(s.len() as int));
    lemma_dec_u32(b, pos, s.len() as int);
    assert forall|k: int|
        0 <= k < 4 * s.len() implies b.subrange(pos + 4, pos + 4 + 4 * s.len() as int)[k]
            == enc_chars(s)[k] by {
        assert(b.subrange(pos + 4, pos + 4 + 4 * s.len() as int)[k] == b[pos + 4 + k]);
        assert(b.subrange(pos, pos + enc_str(s).len() as int)[4 + k] == b[pos + 4 + k]);
    }
    assert(b.subrange(pos + 4, pos + 4 + 4 * s.len() as int) =~= enc_chars(s));
    lemma_dec_chars(b, pos + 4, s);
}

/// Relies on `String::push`: appends exactly the one character.
#[verifier::external_body]
fn push_char(s: &mut String, c: char)
    ensures
        final(s)@ == old(s)@.push(c),
{
    s.push(c);
}

/// Relies on `char::from_u32`: `Some` exactly on the valid code
/// points, handing back the character with that code point.
#[verifier::external_body]
fn char_from_u32(v: u32) -> (r: Option<char>)
    ensures
        match r {
            Some(c) => c as u32 == v,
            None => !is_char_code(v as int),
        },
        is_char_code(v as int) ==> r is Some,
{
    char::from_u32(v)
}

/// Append a string: its length, then its characters.
#[verifier::loop_isolation(false)]
pub fn encode_str(out: &mut Vec<u8>, s: &String)
    requires
        s@.len() < 0x1_0000_0000,
    ensures
        final(out)@ == old(out)@ + enc_str(s@),
{
    broadcast use lemma_enc_u32_len, lemma_dec_u32_shape;
    let n = s.as_str().unicode_len();
    encode_u32(out, n as u32);
    let mut i: usize = 0;
    while i < n
        invariant
            i <= n,
            out@ == old(out)@ + enc_u32(n as int) + enc_chars(s@.take(i as int)),
        decreases n - i,
    {
        let c = s.as_str().get_char(i);
        encode_u32(out, c as u32);
        proof {
            lemma_enc_chars_push(s@.take(i as int), s@[i as int]);
            assert(s@.take(i as int + 1) =~= s@.take(i as int).push(s@[i as int]));
            assert(out@ =~= old(out)@ + enc_u32(n as int) + enc_chars(s@.take(i as int + 1)));
        }
        i = i + 1;
    }
    proof {
        assert(s@.take(n as int) =~= s@);
        assert(out@ =~= old(out)@ + enc_str(s@));
    }
}

/// Read a string at `pos`.
#[verifier::loop_isolation(false)]
pub fn decode_str(buf: &Vec<u8>, pos: usize) -> (r: Option<(String, usize)>)
    requires
        pos <= buf@.len(),
    ensures
        match r {
            Some((st, p2)) => dec_str(buf@, pos as int) == Some((st@, p2 as int)) && p2
                <= buf@.len() && pos < p2,
            None => dec_str(buf@, pos as int) is None,
        },
{
    broadcast use lemma_enc_u32_len, lemma_dec_u32_shape;
    let (n, p1) = match decode_u32(buf, pos) {
        Some(x) => x,
        None => {
            return None;
        },
    };
    let n = n as usize;
    let mut st = String::new();
    let mut p = p1;
    let mut i: usize = 0;
    while i < n
        invariant
            i <= n,
            p1 <= p <= buf@.len(),
            dec_chars(buf@, p1 as int, n as int) == (match dec_chars(
                buf@,
                p as int,
                n as int - i as int,
            ) {
                Some((rest, pe)) => Some((st@ + rest, pe)),
                None => None::<(Seq<char>, int)>,
            }),
        decreases n - i,
    {
        let (v, p2) = match decode_u32(buf, p) {
            Some(x) => x,
            None => {
                return None;
            },
        };
        let c = match char_from_u32(v) {
            Some(c) => c,
            None => {
                return None;
            },
        };
        proof {
            vstd::utf8::char_is_scalar(c);
            vstd::utf8::char_u32_cast(c, v);
            assert(is_char_code(v as int));
            assert(dec_char(buf@, p as int) == Some((c, p2 as int)));
        }
        push_char(&mut st, c);
        let ghost st_prev = st@.drop_last();
        p = p2;
        i = i + 1;
        proof {
            assert forall|rest: Seq<char>| true implies st_prev + (seq![c] + rest) =~= st@
                + rest by {
                assert(st_prev.push(c) =~= st@);
            }
            if dec_chars(buf@, p as int, n as int - i as int) is Some {
                let (rest, pe) = dec_chars(buf@, p as int, n as int - i as int).unwrap();
                assert(st_prev + (seq![c] + rest) =~= st@ + rest);
            }
        }
    }
    proof {
        assert(st@ + Seq::<char>::empty() =~= st@);
    }
    Some((st, p))
}












/// Splitting a known concatenation out of a byte window.
pub proof fn lemma_split(b: Seq<u8>, pos: int, a: Seq<u8>, c: Seq<u8>)
    requires
        0 <= pos,
        pos + a.len() + c.len() <= b.len(),
        b.subrange(pos, pos + a.len() + c.len()) == a + c,
    ensures
        b.subrange(pos, pos + a.len() as int) == a,
        b.subrange(pos + a.len() as int, pos + a.len() + c.len()) == c,
{
    let w = b.subrange(pos, pos + a.len() + c.len());
    assert forall|k: int| 0 <= k < a.len() implies b.subrange(pos, pos + a.len() as int)[k]
        == a[k] by {
        assert(b.subrange(pos, pos + a.len() as int)[k] == b[pos + k]);
        assert(w[k] == b[pos + k]);
    }
    assert(b.subrange(pos, pos + a.len() as int) =~= a);
    assert forall|k: int|
        0 <= k < c.len() implies b.subrange(pos + a.len() as int, pos + a.len() + c.len())[k]
            == c[k] by {
        assert(b.subrange(pos + a.len() as int, pos + a.len() + c.len())[k] == b[pos + a.len()
            + k]);
        assert(w[a.len() + k] == b[pos + a.len() + k]);
    }
    assert(b.subrange(pos + a.len() as int, pos + a.len() + c.len()) =~= c);
}

/// A pair of fixed-point coordinates.
pub open spec fn enc_vec2(v: Vec2s) -> Seq<u8> {
    enc_i64(v.x) + enc_i64(v.y)
}

/// A `Vec2s` the codec can carry: both coordinates fit an `i64`.
pub open spec fn ok_vec2(v: Vec2s) -> bool {
    ok_i64(v.x) && ok_i64(v.y)
}

pub open spec fn dec_vec2(b: Seq<u8>, pos: int) -> Option<(Vec2s, int)> {
    match dec_i64(b, pos) {
        Some((x, p1)) => match dec_i64(b, p1) {
            Some((y, p2)) => Some((Vec2s { x: x, y: y }, p2)),
            None => None,
        },
        None => None,
    }
}

pub proof fn lemma_dec_vec2(b: Seq<u8>, pos: int, v: Vec2s)
    requires
        ok_vec2(v),
        0 <= pos,
        pos + 16 <= b.len(),
        b.subrange(pos, pos + 16) == enc_vec2(v),
    ensures
        dec_vec2(b, pos) == Some((v, pos + 16)),
{
    broadcast use lemma_enc_u32_len, lemma_dec_u32_shape;
    lemma_split(b, pos, enc_i64(v.x), enc_i64(v.y));
    lemma_dec_i64(b, pos, v.x);
    lemma_dec_i64(b, pos + 8, v.y);
}

/// Append a coordinate pair.
pub fn encode_vec2(out: &mut Vec<u8>, v: Vec2)
    ensures
        final(out)@ == old(out)@ + enc_vec2(v@),
{
    broadcast use lemma_enc_u32_len, lemma_dec_u32_shape;
    encode_i64(out, v.x);
    encode_i64(out, v.y);
    proof {
        assert(out@ =~= old(out)@ + enc_vec2(v@));
    }
}

/// Read a coordinate pair.
pub fn decode_vec2(buf: &Vec<u8>, pos: usize) -> (r: Option<(Vec2, usize)>)
    requires
        pos <= buf@.len(),
    ensures
        match r {
            Some((v, p2)) => dec_vec2(buf@, pos as int) == Some((v@, p2 as int)) && p2
                <= buf@.len() && pos < p2,
            None => dec_vec2(buf@, pos as int) is None,
        },
{
    broadcast use lemma_enc_u32_len, lemma_dec_u32_shape;
    let (x, p1) = match decode_i64(buf, pos) {
        Some(r) => r,
        None => {
            return None;
        },
    };
    let (y, p2) = match decode_i64(buf, p1) {
        Some(r) => r,
        None => {
            return None;
        },
    };
    Some((Vec2 { x, y }, p2))
}

/// A button as one tag byte.
pub open spec fn enc_button(b: Button) -> Seq<u8> {
    match b {
        Button::Forward => seq![0u8],
        Button::Left => seq![1u8],
        Button::Back => seq![2u8],
        Button::Right => seq![3u8],
        Button::Fire => seq![4u8],
    }
}

pub open spec fn dec_button(b: Seq<u8>, pos: int) -> Option<(Button, int)> {
    if 0 <= pos && pos + 1 <= b.len() {
        if b[pos] == 0u8 {
            Some((Button::Forward, pos + 1))
        } else if b[pos] == 1u8 {
            Some((Button::Left, pos + 1))
        } else if b[pos] == 2u8 {
            Some((Button::Back, pos + 1))
        } else if b[pos] == 3u8 {
            Some((Button::Right, pos + 1))
        } else if b[pos] == 4u8 {
            Some((Button::Fire, pos + 1))
        } else {
            None
        }
    } else {
        None
    }
}

pub proof fn lemma_dec_button(b: Seq<u8>, pos: int, v: Button)
    requires
        0 <= pos,
        pos + 1 <= b.len(),
        b.subrange(pos, pos + 1) == enc_button(v),
    ensures
        dec_button(b, pos) == Some((v, pos + 1)),
{
    broadcast use lemma_enc_u32_len, lemma_dec_u32_shape;
    assert(b[pos] == b.subrange(pos, pos + 1)[0]);
}

pub fn encode_button(out: &mut Vec<u8>, b: Button)
    ensures
        final(out)@ == old(out)@ + enc_button(b),
{
    broadcast use lemma_enc_u32_len, lemma_dec_u32_shape;
    let tag: u8 = match b {
        Button::Forward => 0,
        Button::Left => 1,
        Button::Back => 2,
        Button::Right => 3,
        Button::Fire => 4,
    };
    out.push(tag);
    proof {
        assert(out@ =~= old(out)@ + enc_button(b));
    }
}

pub fn decode_button(buf: &Vec<u8>, pos: usize) -> (r: Option<(Button, usize)>)
    requires
        pos <= buf@.len(),
    ensures
        match r {
            Some((v, p2)) => dec_button(buf@, pos as int) == Some((v, p2 as int)) && p2
                <= buf@.len() && pos < p2,
            None => dec_button(buf@, pos as int) is None,
        },
{
    broadcast use lemma_enc_u32_len, lemma_dec_u32_shape;
    if buf.len() - pos >= 1 {
        match buf[pos] {
            0u8 => Some((Button::Forward, pos + 1)),
            1u8 => Some((Button::Left, pos + 1)),
            2u8 => Some((Button::Back, pos + 1)),
            3u8 => Some((Button::Right, pos + 1)),
            4u8 => Some((Button::Fire, pos + 1)),
            _ => None,
        }
    } else {
        None
    }
}

/// An input notification: a tag byte, then its payload.
pub open spec fn enc_input(i: InputV) -> Seq<u8> {
    match i {
        InputV::Press(b, d) => seq![0u8] + enc_button(b) + enc_vec2(d),
        InputV::Release(b) => seq![1u8] + enc_button(b),
        InputV::DirChanged(d) => seq![2u8] + enc_vec2(d),
    }
}

/// An `InputV` the codec can carry.
pub open spec fn ok_input(i: InputV) -> bool {
    match i {
        InputV::Press(_, d) => ok_vec2(d),
        InputV::Release(_) => true,
        InputV::DirChanged(d) => ok_vec2(d),
    }
}

pub open spec fn dec_input(b: Seq<u8>, pos: int) -> Option<(InputV, int)> {
    if 0 <= pos && pos + 1 <= b.len() {
        if b[pos] == 0u8 {
            match dec_button(b, pos + 1) {
                Some((bt, p1)) => match dec_vec2(b, p1) {
                    Some((d, p2)) => Some((InputV::Press(bt, d), p2)),
                    None => None,
                },
                None => None,
            }
        } else if b[pos] == 1u8 {
            match dec_button(b, pos + 1) {
                Some((bt, p1)) => Some((InputV::Release(bt), p1)),
                None => None,
            }
        } else if b[pos] == 2u8 {
            match dec_vec2(b, pos + 1) {
                Some((d, p2)) => Some((InputV::DirChanged(d), p2)),
                None => None,
            }
        } else {
            None
        }
    } else {
        None
    }
}

#[verifier::rlimit(60)]
pub proof fn lemma_dec_input(b: Seq<u8>, pos: int, v: InputV)
    requires
        ok_input(v),
        0 <= pos,
        pos + enc_input(v).len() <= b.len(),
        b.subrange(pos, pos + enc_input(v).len() as int) == enc_input(v),
    ensures
        dec_input(b, pos) == Some((v, pos + enc_input(v).len())),
{
    broadcast use lemma_enc_u32_len, lemma_dec_u32_shape;
    let e = enc_input(v);
    assert(b[pos] == b.subrange(pos, pos + e.len() as int)[0]);
    match v {
        InputV::Press(bt, d) => {
            assert(e =~= seq![0u8] + (enc_button(bt) + enc_vec2(d)));
            lemma_split(b, pos, seq![0u8], enc_button(bt) + enc_vec2(d));
            lemma_split(b, pos + 1, enc_button(bt), enc_vec2(d));
            lemma_dec_button(b, pos + 1, bt);
            lemma_dec_vec2(b, pos + 2, d);
        },
        InputV::Release(bt) => {
            assert(e =~= seq![1u8] + enc_button(bt));
            lemma_split(b, pos, seq![1u8], enc_button(bt));
            lemma_dec_button(b, pos + 1, bt);
        },
        InputV::DirChanged(d) => {
            assert(e =~= seq![2u8] + enc_vec2(d));
            lemma_split(b, pos, seq![2u8], enc_vec2(d));
            lemma_dec_vec2(b, pos + 1, d);
        },
    }
}

pub fn encode_input(out: &mut Vec<u8>, i: Input)
    ensures
        final(out)@ == old(out)@ + enc_input(i@),
{
    broadcast use lemma_enc_u32_len, lemma_dec_u32_shape;
    match i {
        Input::Press(b, d) => {
            out.push(0u8);
            encode_button(out, b);
            encode_vec2(out, d);
        },
        Input::Release(b) => {
            out.push(1u8);
            encode_button(out, b);
        },
        Input::DirChanged(d) => {
            out.push(2u8);
            encode_vec2(out, d);
        },
    }
    proof {
        assert(out@ =~= old(out)@ + enc_input(i@));
    }
}

pub fn decode_input(buf: &Vec<u8>, pos: usize) -> (r: Option<(Input, usize)>)
    requires
        pos <= buf@.len(),
    ensures
        match r {
            Some((v, p2)) => dec_input(buf@, pos as int) == Some((v@, p2 as int)) && p2
                <= buf@.len() && pos < p2,
            None => dec_input(buf@, pos as int) is None,
        },
{
    broadcast use lemma_enc_u32_len, lemma_dec_u32_shape;
    if buf.len() - pos < 1 {
        return None;
    }
    let tag = buf[pos];
    if tag == 0u8 {
        let (bt, p1) = match decode_button(buf, pos + 1) {
            Some(r) => r,
            None => {
                return None;
            },
        };
        let (d, p2) = match decode_vec2(buf, p1) {
            Some(r) => r,
            None => {
                return None;
            },
        };
        Some((Input::Press(bt, d), p2))
    } else if tag == 1u8 {
        let (bt, p1) = match decode_button(buf, pos + 1) {
            Some(r) => r,
            None => {
                return None;
            },
        };
        Some((Input::Release(bt), p1))
    } else if tag == 2u8 {
        let (d, p2) = match decode_vec2(buf, pos + 1) {
            Some(r) => r,
            None => {
                return None;
            },
        };
        Some((Input::DirChanged(d), p2))
    } else {
        None
    }
}

/// A client-to-server message: a tag byte, then its payload.
pub open spec fn enc_to_server(m: ToServerMsgV) -> Seq<u8> {
    match m {
        ToServerMsgV::Login(id, name) => seq![0u8] + enc_u32(id) + enc_str(name),
        ToServerMsgV::Input(id, i) => seq![1u8] + enc_u32(id) + enc_input(i),
    }
}

/// A `ToServerMsgV` the codec can carry.
pub open spec fn ok_to_server(m: ToServerMsgV) -> bool {
    match m {
        ToServerMsgV::Login(id, name) => ok_u32(id) && ok_str(name),
        ToServerMsgV::Input(id, i) => ok_u32(id) && ok_input(i),
    }
}

pub open spec fn dec_to_server(b: Seq<u8>, pos: int) -> Option<(ToServerMsgV, int)> {
    if 0 <= pos && pos + 1 <= b.len() {
        if b[pos] == 0u8 {
            match dec_u32(b, pos + 1) {
                Some((id, p1)) => match dec_str(b, p1) {
                    Some((name, p2)) => Some((ToServerMsgV::Login(id, name), p2)),
                    None => None,
                },
                None => None,
            }
        } else if b[pos] == 1u8 {
            match dec_u32(b, pos + 1) {
                Some((id, p1)) => match dec_input(b, p1) {
                    Some((i, p2)) => Some((ToServerMsgV::Input(id, i), p2)),
                    None => None,
                },
                None => None,
            }
        } else {
            None
        }
    } else {
        None
    }
}

pub proof fn lemma_dec_to_server(b: Seq<u8>, pos: int, m: ToServerMsgV)
    requires
        ok_to_server(m),
        0 <= pos,
        pos + enc_to_server(m).len() <= b.len(),
        b.subrange(pos, pos + enc_to_server(m).len() as int) == enc_to_server(m),
    ensures
        dec_to_server(b, pos) == Some((m, pos + enc_to_server(m).len())),
{
    broadcast use lemma_enc_u32_len, lemma_dec_u32_shape;
    let e = enc_to_server(m);
    assert(b[pos] == b.subrange(pos, pos + e.len() as int)[0]);
    match m {
        ToServerMsgV::Login(id, name) => {
            assert(e =~= seq![0u8] + (enc_u32(id) + enc_str(name)));
            lemma_split(b, pos, seq![0u8], enc_u32(id) + enc_str(name));
            lemma_split(b, pos + 1, enc_u32(id), enc_str(name));
            lemma_dec_u32(b, pos + 1, id);
            lemma_dec_str(b, pos + 5, name);
        },
        ToServerMsgV::Input(id, i) => {
            assert(e =~= seq![1u8] + (enc_u32(id) + enc_input(i)));
            lemma_split(b, pos, seq![1u8], enc_u32(id) + enc_input(i));
            lemma_split(b, pos + 1, enc_u32(id), enc_input(i));
            lemma_dec_u32(b, pos + 1, id);
            lemma_dec_input(b, pos + 5, i);
        },
    }
}

/// Write a client-to-server message.
pub fn encode_to_server(out: &mut Vec<u8>, m: &ToServerMsg)
    requires
        ok_to_server(m@),
    ensures
        final(out)@ == old(out)@ + enc_to_server(m@),
{
    broadcast use lemma_enc_u32_len, lemma_dec_u32_shape;
    match m {
        ToServerMsg::Login(id, name) => {
            out.push(0u8);
            encode_u32(out, id.0);
            encode_str(out, name);
        },
        ToServerMsg::Input(id, i) => {
            out.push(1u8);
            encode_u32(out, id.0);
            encode_input(out, *i);
        },
    }
    proof {
        assert(out@ =~= old(out)@ + enc_to_server(m@));
    }
}

/// Read a client-to-server message.
pub fn decode_to_server(buf: &Vec<u8>, pos: usize) -> (r: Option<(ToServerMsg, usize)>)
    requires
        pos <= buf@.len(),
    ensures
        match r {
            Some((v, p2)) => dec_to_server(buf@, pos as int) == Some((v@, p2 as int)) && p2
                <= buf@.len() && pos < p2,
            None => dec_to_server(buf@, pos as int) is None,
        },
{
    broadcast use lemma_enc_u32_len, lemma_dec_u32_shape;
    if buf.len() - pos < 1 {
        return None;
    }
    let tag = buf[pos];
    if tag == 0u8 {
        let (id, p1) = match decode_u32(buf, pos + 1) {
            Some(r) => r,
            None => {
                return None;
            },
        };
        let (name, p2) = match decode_str(buf, p1) {
            Some(r) => r,
            None => {
                return None;
            },
        };
        Some((ToServerMsg::Login(PlayerId(id), name), p2))
    } else if tag == 1u8 {
        let (id, p1) = match decode_u32(buf, pos + 1) {
            Some(r) => r,
            None => {
                return None;
            },
        };
        let (i, p2) = match decode_input(buf, p1) {
            Some(r) => r,
            None => {
                return None;
            },
        };
        Some((ToServerMsg::Input(PlayerId(id), i), p2))
    } else {
        None
    }
}


/// A bullet: position, velocity, owner.
pub open spec fn enc_bullet(b: BulletV) -> Seq<u8> {
    enc_vec2(b.pos) + (enc_vec2(b.vel) + enc_u32(b.pid))
}

pub open spec fn ok_bullet(b: BulletV) -> bool {
    ok_vec2(b.pos) && ok_vec2(b.vel) && ok_u32(b.pid)
}

pub open spec fn dec_bullet(b: Seq<u8>, pos: int) -> Option<(BulletV, int)> {
    match dec_vec2(b, pos) {
        Some((bp, p1)) => match dec_vec2(b, p1) {
            Some((bv, p2)) => match dec_u32(b, p2) {
                Some((pid, p3)) => Some((BulletV { pos: bp, vel: bv, pid: pid }, p3)),
                None => None,
            },
            None => None,
        },
        None => None,
    }
}

pub proof fn lemma_dec_bullet(b: Seq<u8>, pos: int, v: BulletV)
    requires
        ok_bullet(v),
        0 <= pos,
        pos + 36 <= b.len(),
        b.subrange(pos, pos + 36) == enc_bullet(v),
    ensures
        dec_bullet(b, pos) == Some((v, pos + 36)),
{
    broadcast use lemma_enc_u32_len, lemma_dec_u32_shape;
    lemma_split(b, pos, enc_vec2(v.pos), enc_vec2(v.vel) + enc_u32(v.pid));
    lemma_split(b, pos + 16, enc_vec2(v.vel), enc_u32(v.pid));
    lemma_dec_vec2(b, pos, v.pos);
    lemma_dec_vec2(b, pos + 16, v.vel);
    lemma_dec_u32(b, pos + 32, v.pid);
}

pub fn encode_bullet(out: &mut Vec<u8>, b: &Bullet)
    ensures
        final(out)@ == old(out)@ + enc_bullet(b@),
{
    broadcast use lemma_enc_u32_len, lemma_dec_u32_shape;
    encode_vec2(out, b.pos);
    encode_vec2(out, b.vel);
    encode_u32(out, b.pid.0);
    proof {
        assert(out@ =~= old(out)@ + enc_bullet(b@));
    }
}

pub fn decode_bullet(buf: &Vec<u8>, pos: usize) -> (r: Option<(Bullet, usize)>)
    requires
        pos <= buf@.len(),
    ensures
        match r {
            Some((v, p2)) => dec_bullet(buf@, pos as int) == Some((v@, p2 as int)) && p2
                <= buf@.len() && pos < p2,
            None => dec_bullet(buf@, pos as int) is None,
        },
{
    broadcast use lemma_enc_u32_len, lemma_dec_u32_shape;
    let (bp, p1) = match decode_vec2(buf, pos) {
        Some(r) => r,
        None => {
            return None;
        },
    };
    let (bv, p2) = match decode_vec2(buf, p1) {
        Some(r) => r,
        None => {
            return None;
        },
    };
    let (pid, p3) = match decode_u32(buf, p2) {
        Some(r) => r,
        None => {
            return None;
        },
    };
    Some((Bullet { pos: bp, vel: bv, pid: PlayerId(pid) }, p3))
}

/// A player record: identity and name, then the motion state, then
/// health, respawn countdown and score.
pub open spec fn enc_player(p: PlayerV) -> Seq<u8> {
    enc_u32(p.id) + (enc_str(p.name) + (enc_vec2(p.dir) + (enc_vec2(p.pos) + (enc_vec2(p.vel) + (
    enc_vec2(p.force) + (enc_u32(p.health) + (enc_u32(p.respawn_timer) + enc_u32(p.score))))))))
}

pub open spec fn ok_player(p: PlayerV) -> bool {
    &&& ok_u32(p.id)
    &&& ok_str(p.name)
    &&& ok_vec2(p.dir)
    &&& ok_vec2(p.pos)
    &&& ok_vec2(p.vel)
    &&& ok_vec2(p.force)
    &&& ok_u32(p.health)
    &&& ok_u32(p.respawn_timer)
    &&& ok_u32(p.score)
}

pub open spec fn dec_player(b: Seq<u8>, pos: int) -> Option<(PlayerV, int)> {
    match dec_u32(b, pos) {
        Some((id, p1)) => match dec_str(b, p1) {
            Some((name, p2)) => match dec_vec2(b, p2) {
                Some((dir, p3)) => match dec_vec2(b, p3) {
                    Some((ppos, p4)) => match dec_vec2(b, p4) {
                        Some((vel, p5)) => match dec_vec2(b, p5) {
                            Some((force, p6)) => match dec_u32(b, p6) {
                                Some((health, p7)) => match dec_u32(b, p7) {
                                    Some((timer, p8)) => match dec_u32(b, p8) {
                                        Some((score, p9)) => Some(
                                            (
                                                PlayerV {
                                                    id: id,
                                                    name: name,
                                                    dir: dir,
                                                    pos: ppos,
                                                    vel: vel,
                                                    force: force,
                                                    health: health,
                                                    respawn_timer: timer,
                                                    score: score,
                                                },
                                                p9,
                                            ),
                                        ),
                                        None => None,
                                    },
                                    None => None,
                                },
                                None => None,
                            },
                            None => None,
                        },
                        None => None,
                    },
                    None => None,
                },
                None => None,
            },
            None => None,
        },
        None => None,
    }
}

/// The motion-and-stats tail of a player record.
pub open spec fn enc_player_tail(p: PlayerV) -> Seq<u8> {
    enc_vec2(p.dir) + (enc_vec2(p.pos) + (enc_vec2(p.vel) + (enc_vec2(p.force) + (enc_u32(
        p.health,
    ) + (enc_u32(p.respawn_timer) + enc_u32(p.score))))))
}

#[verifier::rlimit(100)]
proof fn lemma_dec_player_tail(b: Seq<u8>, pos: int, v: PlayerV)
    requires
        ok_player(v),
        0 <= pos,
        pos + 76 <= b.len(),
        b.subrange(pos, pos + 76) == enc_player_tail(v),
    ensures
        dec_vec2(b, pos) == Some((v.dir, pos + 16)),
        dec_vec2(b, pos + 16) == Some((v.pos, pos + 32)),
        dec_vec2(b, pos + 32) == Some((v.vel, pos + 48)),
        dec_vec2(b, pos + 48) == Some((v.force, pos + 64)),
        dec_u32(b, pos + 64) == Some((v.health, pos + 68)),
        dec_u32(b, pos + 68) == Some((v.respawn_timer, pos + 72)),
        dec_u32(b, pos + 72) == Some((v.score, pos + 76)),
{
    broadcast use lemma_enc_u32_len, lemma_dec_u32_shape;
    let e3 = enc_vec2(v.dir);
    let e4 = enc_vec2(v.pos);
    let e5 = enc_vec2(v.vel);
    let e6 = enc_vec2(v.force);
    let e7 = enc_u32(v.health);
    let e8 = enc_u32(v.respawn_timer);
    let e9 = enc_u32(v.score);
    lemma_split(b, pos, e3, e4 + (e5 + (e6 + (e7 + (e8 + e9)))));
    lemma_dec_vec2(b, pos, v.dir);
    lemma_split(b, pos + 16, e4, e5 + (e6 + (e7 + (e8 + e9))));
    lemma_dec_vec2(b, pos + 16, v.pos);
    lemma_split(b, pos + 32, e5, e6 + (e7 + (e8 + e9)));
    lemma_dec_vec2(b, pos + 32, v.vel);
    lemma_split(b, pos + 48, e6, e7 + (e8 + e9));
    lemma_dec_vec2(b, pos + 48, v.force);
    lemma_split(b, pos + 64, e7, e8 + e9);
    lemma_dec_u32(b, pos + 64, v.health);
    lemma_split(b, pos + 68, e8, e9);
    lemma_dec_u32(b, pos + 68, v.respawn_timer);
    lemma_dec_u32(b, pos + 72, v.score);
}

#[verifier::rlimit(100)]
pub proof fn lemma_dec_player(b: Seq<u8>, pos: int, v: PlayerV)
    requires
        ok_player(v),
        0 <= pos,
        pos + enc_player(v).len() <= b.len(),
        b.subrange(pos, pos + enc_player(v).len() as int) == enc_player(v),
    ensures
        dec_player(b, pos) == Some((v, pos + enc_player(v).len())),
{
    broadcast use lemma_enc_u32_len, lemma_dec_u32_shape;
    let e1 = enc_u32(v.id);
    let e2 = enc_str(v.name);
    lemma_enc_chars_len(v.name);
    assert(enc_player(v) =~= e1 + (e2 + enc_player_tail(v)));
    let p1 = pos + 4;
    lemma_split(b, pos, e1, e2 + enc_player_tail(v));
    lemma_dec_u32(b, pos, v.id);
    let p2 = p1 + e2.len();
    lemma_split(b, p1, e2, enc_player_tail(v));
    lemma_dec_str(b, p1, v.name);
    lemma_dec_player_tail(b, p2, v);
}

#[verifier::rlimit(100)]
pub fn encode_player(out: &mut Vec<u8>, p: &Player)
    requires
        p@.name.len() < 0x1_0000_0000,
    ensures
        final(out)@ == old(out)@ + enc_player(p@),
{
    broadcast use lemma_enc_u32_len, lemma_dec_u32_shape;
    encode_u32(out, p.id.0);
    encode_str(out, &p.name);
    encode_vec2(out, p.dir);
    encode_vec2(out, p.pos);
    encode_vec2(out, p.vel);
    encode_vec2(out, p.force);
    encode_u32(out, p.health);
    encode_u32(out, p.respawn_timer);
    encode_u32(out, p.score);
    proof {
        assert(out@ =~= old(out)@ + enc_player(p@));
    }
}

pub fn decode_player(buf: &Vec<u8>, pos: usize) -> (r: Option<(Player, usize)>)
    requires
        pos <= buf@.len(),
    ensures
        match r {
            Some((v, p2)) => dec_player(buf@, pos as int) == Some((v@, p2 as int)) && p2
                <= buf@.len() && pos < p2,
            None => dec_player(buf@, pos as int) is None,
        },
{
    broadcast use lemma_enc_u32_len, lemma_dec_u32_shape;
    let (id, p1) = match decode_u32(buf, pos) {
        Some(r) => r,
        None => {
            return None;
        },
    };
    let (name, p2) = match decode_str(buf, p1) {
        Some(r) => r,
        None => {
            return None;
        },
    };
    let (dir, p3) = match decode_vec2(buf, p2) {
        Some(r) => r,
        None => {
            return None;
        },
    };
    let (ppos, p4) = match decode_vec2(buf, p3) {
        Some(r) => r,
        None => {
            return None;
        },
    };
    let (vel, p5) = match decode_vec2(buf, p4) {
        Some(r) => r,
        None => {
            return None;
        },
    };
    let (force, p6) = match decode_vec2(buf, p5) {
        Some(r) => r,
        None => {
            return None;
        },
    };
    let (health, p7) = match decode_u32(buf, p6) {
        Some(r) => r,
        None => {
            return None;
        },
    };
    let (timer, p8) = match decode_u32(buf, p7) {
        Some(r) => r,
        None => {
            return None;
        },
    };
    let (score, p9) = match decode_u32(buf, p8) {
        Some(r) => r,
        None => {
            return None;
        },
    };
    Some(
        (
            Player {
                id: PlayerId(id),
                name: name,
                dir: dir,
                pos: ppos,
                vel: vel,
                force: force,
                health: health,
                respawn_timer: timer,
                score: score,
            },
            p9,
        ),
    )
}

/// An event: a tag byte, then its payload.
pub open spec fn enc_event(e: EventV) -> Seq<u8> {
    match e {
        EventV::BulletHitWall(p, v) => seq![0u8] + (enc_vec2(p) + enc_vec2(v)),
        EventV::BulletHitPlayer(b, id, d) => seq![1u8] + (enc_bullet(b) + (enc_u32(id) + enc_u32(
            d,
        ))),
        EventV::PlayerDied(victim, killer) => seq![2u8] + (enc_u32(victim) + enc_u32(killer)),
        EventV::PlayerRespawned(id) => seq![3u8] + enc_u32(id),
        EventV::BulletFired(p) => seq![4u8] + enc_vec2(p),
        EventV::PlayerJoined(id) => seq![5u8] + enc_u32(id),
        EventV::PlayerLeft(name) => seq![6u8] + enc_str(name),
    }
}

pub open spec fn ok_event(e: EventV) -> bool {
    match e {
        EventV::BulletHitWall(p, v) => ok_vec2(p) && ok_vec2(v),
        EventV::BulletHitPlayer(b, id, d) => ok_bullet(b) && ok_u32(id) && ok_u32(d),
        EventV::PlayerDied(victim, killer) => ok_u32(victim) && ok_u32(killer),
        EventV::PlayerRespawned(id) => ok_u32(id),
        EventV::BulletFired(p) => ok_vec2(p),
        EventV::PlayerJoined(id) => ok_u32(id),
        EventV::PlayerLeft(name) => ok_str(name),
    }
}

pub open spec fn dec_event(b: Seq<u8>, pos: int) -> Option<(EventV, int)> {
    if 0 <= pos && pos + 1 <= b.len() {
        if b[pos] == 0u8 {
            match dec_vec2(b, pos + 1) {
                Some((p, p1)) => match dec_vec2(b, p1) {
                    Some((v, p2)) => Some((EventV::BulletHitWall(p, v), p2)),
                    None => None,
                },
                None => None,
            }
        } else if b[pos] == 1u8 {
            match dec_bullet(b, pos + 1) {
                Some((bl, p1)) => match dec_u32(b, p1) {
                    Some((id, p2)) => match dec_u32(b, p2) {
                        Some((d, p3)) => Some((EventV::BulletHitPlayer(bl, id, d), p3)),
                        None => None,
                    },
                    None => None,
                },
                None => None,
            }
        } else if b[pos] == 2u8 {
            match dec_u32(b, pos + 1) {
                Some((victim, p1)) => match dec_u32(b, p1) {
                    Some((killer, p2)) => Some((EventV::PlayerDied(victim, killer), p2)),
                    None => None,
                },
                None => None,
            }
        } else if b[pos] == 3u8 {
            match dec_u32(b, pos + 1) {
                Some((id, p1)) => Some((EventV::PlayerRespawned(id), p1)),
                None => None,
            }
        } else if b[pos] == 4u8 {
            match dec_vec2(b, pos + 1) {
                Some((p, p1)) => Some((EventV::BulletFired(p), p1)),
                None => None,
            }
        } else if b[pos] == 5u8 {
            match dec_u32(b, pos + 1) {
                Some((id, p1)) => Some((EventV::PlayerJoined(id), p1)),
                None => None,
            }
        } else if b[pos] == 6u8 {
            match dec_str(b, pos + 1) {
                Some((name, p1)) => Some((EventV::PlayerLeft(name), p1)),
                None => None,
            }
        } else {
            None
        }
    } else {
        None
    }
}

proof fn lemma_dec_event_hit_wall(b: Seq<u8>, pos: int, p: Vec2s, w: Vec2s)
    requires
        ok_vec2(p),
        ok_vec2(w),
        0 <= pos,
        pos + 33 <= b.len(),
        b.subrange(pos, pos + 33) == enc_event(EventV::BulletHitWall(p, w)),
    ensures
        dec_event(b, pos) == Some((EventV::BulletHitWall(p, w), pos + 33)),
{
    broadcast use lemma_enc_u32_len, lemma_dec_u32_shape;
    assert(b[pos] == b.subrange(pos, pos + 33)[0]);
    lemma_split(b, pos, seq![0u8], enc_vec2(p) + enc_vec2(w));
    lemma_split(b, pos + 1, enc_vec2(p), enc_vec2(w));
    lemma_dec_vec2(b, pos + 1, p);
    lemma_dec_vec2(b, pos + 17, w);
}

#[verifier::rlimit(100)]
proof fn lemma_dec_event_hit_player(b: Seq<u8>, pos: int, bl: BulletV, id: int, d: int)
    requires
        ok_bullet(bl),
        ok_u32(id),
        ok_u32(d),
        0 <= pos,
        pos + 45 <= b.len(),
        b.subrange(pos, pos + 45) == enc_event(EventV::BulletHitPlayer(bl, id, d)),
    ensures
        dec_event(b, pos) == Some((EventV::BulletHitPlayer(bl, id, d), pos + 45)),
{
    broadcast use lemma_enc_u32_len, lemma_dec_u32_shape;
    assert(b[pos] == b.subrange(pos, pos + 45)[0]);
    lemma_split(b, pos, seq![1u8], enc_bullet(bl) + (enc_u32(id) + enc_u32(d)));
    lemma_split(b, pos + 1, enc_bullet(bl), enc_u32(id) + enc_u32(d));
    lemma_split(b, pos + 37, enc_u32(id), enc_u32(d));
    lemma_dec_bullet(b, pos + 1, bl);
    lemma_dec_u32(b, pos + 37, id);
    lemma_dec_u32(b, pos + 41, d);
}

#[verifier::rlimit(100)]
pub proof fn lemma_dec_event(b: Seq<u8>, pos: int, v: EventV)
    requires
        ok_event(v),
        0 <= pos,
        pos + enc_event(v).len() <= b.len(),
        b.subrange(pos, pos + enc_event(v).len() as int) == enc_event(v),
    ensures
        dec_event(b, pos) == Some((v, pos + enc_event(v).len())),
{
    broadcast use lemma_enc_u32_len, lemma_dec_u32_shape;
    let e = enc_event(v);
    assert(b[pos] == b.subrange(pos, pos + e.len() as int)[0]);
    match v {
        EventV::BulletHitWall(p, w) => {
            lemma_dec_event_hit_wall(b, pos, p, w);
        },
        EventV::BulletHitPlayer(bl, id, d) => {
            lemma_dec_event_hit_player(b, pos, bl, id, d);
        },
        EventV::PlayerDied(victim, killer) => {
            lemma_split(b, pos, seq![2u8], enc_u32(victim) + enc_u32(killer));
            lemma_split(b, pos + 1, enc_u32(victim), enc_u32(killer));
            lemma_dec_u32(b, pos + 1, victim);
            lemma_dec_u32(b, pos + 5, killer);
        },
        EventV::PlayerRespawned(id) => {
            lemma_split(b, pos, seq![3u8], enc_u32(id));
            lemma_dec_u32(b, pos + 1, id);
        },
        EventV::BulletFired(p) => {
            lemma_split(b, pos, seq![4u8], enc_vec2(p));
            lemma_dec_vec2(b, pos + 1, p);
        },
        EventV::PlayerJoined(id) => {
            lemma_split(b, pos, seq![5u8], enc_u32(id));
            lemma_dec_u32(b, pos + 1, id);
        },
        EventV::PlayerLeft(name) => {
            lemma_split(b, pos, seq![6u8], enc_str(name));
            lemma_dec_str(b, pos + 1, name);
        },
    }
}

pub fn encode_event(out: &mut Vec<u8>, e: &Event)
    requires
        e@ matches EventV::PlayerLeft(name) ==> name.len() < 0x1_0000_0000,
    ensures
        final(out)@ == old(out)@ + enc_event(e@),
{
    broadcast use lemma_enc_u32_len, lemma_dec_u32_shape;
    match e {
        Event::BulletHitWall(p, v) => {
            out.push(0u8);
            encode_vec2(out, *p);
            encode_vec2(out, *v);
        },
        Event::BulletHitPlayer(b, id, d) => {
            out.push(1u8);
            encode_bullet(out, b);
            encode_u32(out, id.0);
            encode_u32(out, *d);
        },
        Event::PlayerDied(victim, killer) => {
            out.push(2u8);
            encode_u32(out, victim.0);
            encode_u32(out, killer.0);
        },
        Event::PlayerRespawned(id) => {
            out.push(3u8);
            encode_u32(out, id.0);
        },
        Event::BulletFired(p) => {
            out.push(4u8);
            encode_vec2(out, *p);
        },
        Event::PlayerJoined(id) => {
            out.push(5u8);
            encode_u32(out, id.0);
        },
        Event::PlayerLeft(name) => {
            out.push(6u8);
            encode_str(out, name);
        },
    }
    proof {
        assert(out@ =~= old(out)@ + enc_event(e@));
    }
}

pub fn decode_event(buf: &Vec<u8>, pos: usize) -> (r: Option<(Event, usize)>)
    requires
        pos <= buf@.len(),
    ensures
        match r {
            Some((v, p2)) => dec_event(buf@, pos as int) == Some((v@, p2 as int)) && p2
                <= buf@.len() && pos < p2,
            None => dec_event(buf@, pos as int) is None,
        },
{
    broadcast use lemma_enc_u32_len, lemma_dec_u32_shape;
    if buf.len() - pos < 1 {
        return None;
    }
    let tag = buf[pos];
    if tag == 0u8 {
        let (p, p1) = match decode_vec2(buf, pos + 1) {
            Some(r) => r,
            None => {
                return None;
            },
        };
        let (v, p2) = match decode_vec2(buf, p1) {
            Some(r) => r,
            None => {
                return None;
            },
        };
        Some((Event::BulletHitWall(p, v), p2))
    } else if tag == 1u8 {
        let (bl, p1) = match decode_bullet(buf, pos + 1) {
            Some(r) => r,
            None => {
                return None;
            },
        };
        let (id, p2) = match decode_u32(buf, p1) {
            Some(r) => r,
            None => {
                return None;
            },
        };
        let (d, p3) = match decode_u32(buf, p2) {
            Some(r) => r,
            None => {
                return None;
            },
        };
        Some((Event::BulletHitPlayer(bl, PlayerId(id), d), p3))
    } else if tag == 2u8 {
        let (victim, p1) = match decode_u32(buf, pos + 1) {
            Some(r) => r,
            None => {
                return None;
            },
        };
        let (killer, p2) = match decode_u32(buf, p1) {
            Some(r) => r,
            None => {
                return None;
            },
        };
        Some((Event::PlayerDied(PlayerId(victim), PlayerId(killer)), p2))
    } else if tag == 3u8 {
        let (id, p1) = match decode_u32(buf, pos + 1) {
            Some(r) => r,
            None => {
                return None;
            },
        };
        Some((Event::PlayerRespawned(PlayerId(id)), p1))
    } else if tag == 4u8 {
        let (p, p1) = match decode_vec2(buf, pos + 1) {
            Some(r) => r,
            None => {
                return None;
            },
        };
        Some((Event::BulletFired(p), p1))
    } else if tag == 5u8 {
        let (id, p1) = match decode_u32(buf, pos + 1) {
            Some(r) => r,
            None => {
                return None;
            },
        };
        Some((Event::PlayerJoined(PlayerId(id)), p1))
    } else if tag == 6u8 {
        let (name, p1) = match decode_str(buf, pos + 1) {
            Some(r) => r,
            None => {
                return None;
            },
        };
        Some((Event::PlayerLeft(name), p1))
    } else {
        None
    }
}


/// Player records in order.
pub open spec fn enc_players(ps: Seq<PlayerV>) -> Seq<u8>
    decreases ps.len(),
{
    if ps.len() == 0 {
        Seq::empty()
    } else {
        enc_player(ps[0]) + enc_players(ps.skip(1))
    }
}

/// Bullets in order.
pub open spec fn enc_bullets(bs: Seq<BulletV>) -> Seq<u8>
    decreases bs.len(),
{
    if bs.len() == 0 {
        Seq::empty()
    } else {
        enc_bullet(bs[0]) + enc_bullets(bs.skip(1))
    }
}

/// Events in order.
pub open spec fn enc_events(es: Seq<EventV>) -> Seq<u8>
    decreases es.len(),
{
    if es.len() == 0 {
        Seq::empty()
    } else {
        enc_event(es[0]) + enc_events(es.skip(1))
    }
}

/// A full snapshot: the three length-prefixed lists.
pub open spec fn enc_game(g: GameV) -> Seq<u8> {
    enc_u32(g.players.len() as int) + (enc_players(g.players) + (enc_u32(g.bullets.len() as int) + (
    enc_bullets(g.bullets) + (enc_u32(g.events.len() as int) + enc_events(g.events)))))
}

/// A server-to-client message: a tag byte, then its payload.
pub open spec fn enc_from_server(m: FromServerMsgV) -> Seq<u8> {
    match m {
        FromServerMsgV::Welcome(id) => seq![0u8] + enc_u32(id),
        FromServerMsgV::Update(g) => seq![1u8] + enc_game(g),
    }
}

pub open spec fn ok_players(ps: Seq<PlayerV>) -> bool {
    forall|i: int| 0 <= i < ps.len() ==> ok_player(#[trigger] ps[i])
}

pub open spec fn ok_bullets(bs: Seq<BulletV>) -> bool {
    forall|i: int| 0 <= i < bs.len() ==> ok_bullet(#[trigger] bs[i])
}

pub open spec fn ok_events(es: Seq<EventV>) -> bool {
    forall|i: int| 0 <= i < es.len() ==> ok_event(#[trigger] es[i])
}

/// A snapshot the codec can carry.
pub open spec fn ok_game(g: GameV) -> bool {
    &&& g.players.len() < 0x1_0000_0000
    &&& g.bullets.len() < 0x1_0000_0000
    &&& g.events.len() < 0x1_0000_0000
    &&& ok_players(g.players)
    &&& ok_bullets(g.bullets)
    &&& ok_events(g.events)
}

pub open spec fn ok_from_server(m: FromServerMsgV) -> bool {
    match m {
        FromServerMsgV::Welcome(id) => ok_u32(id),
        FromServerMsgV::Update(g) => ok_game(g),
    }
}

pub open spec fn dec_players(b: Seq<u8>, pos: int, n: int) -> Option<(Seq<PlayerV>, int)>
    decreases n,
{
    if n <= 0 {
        Some((Seq::empty(), pos))
    } else {
        match dec_player(b, pos) {
            Some((p, p1)) => match dec_players(b, p1, n - 1) {
                Some((ps, p2)) => Some((seq![p] + ps, p2)),
                None => None,
            },
            None => None,
        }
    }
}

pub open spec fn dec_bullets(b: Seq<u8>, pos: int, n: int) -> Option<(Seq<BulletV>, int)>
    decreases n,
{
    if n <= 0 {
        Some((Seq::empty(), pos))
    } else {
        match dec_bullet(b, pos) {
            Some((v, p1)) => match dec_bullets(b, p1, n - 1) {
                Some((vs, p2)) => Some((seq![v] + vs, p2)),
                None => None,
            },
            None => None,
        }
    }
}

pub open spec fn dec_events(b: Seq<u8>, pos: int, n: int) -> Option<(Seq<EventV>, int)>
    decreases n,
{
    if n <= 0 {
        Some((Seq::empty(), pos))
    } else {
        match dec_event(b, pos) {
            Some((v, p1)) => match dec_events(b, p1, n - 1) {
                Some((vs, p2)) => Some((seq![v] + vs, p2)),
                None => None,
            },
            None => None,
        }
    }
}

pub open spec fn dec_game(b: Seq<u8>, pos: int) -> Option<(GameV, int)> {
    match dec_u32(b, pos) {
        Some((np, p1)) => match dec_players(b, p1, np) {
            Some((ps, p2)) => match dec_u32(b, p2) {
                Some((nb, p3)) => match dec_bullets(b, p3, nb) {
                    Some((bs, p4)) => match dec_u32(b, p4) {
                        Some((ne, p5)) => match dec_events(b, p5, ne) {
                            Some((es, p6)) => Some(
                                (GameV { players: ps, bullets: bs, events: es }, p6),
                            ),
                            None => None,
                        },
                        None => None,
                    },
                    None => None,
                },
                None => None,
            },
            None => None,
        },
        None => None,
    }
}

pub open spec fn dec_from_server(b: Seq<u8>, pos: int) -> Option<(FromServerMsgV, int)> {
    if 0 <= pos && pos + 1 <= b.len() {
        if b[pos] == 0u8 {
            match dec_u32(b, pos + 1) {
                Some((id, p1)) => Some((FromServerMsgV::Welcome(id), p1)),
                None => None,
            }
        } else if b[pos] == 1u8 {
            match dec_game(b, pos + 1) {
                Some((g, p1)) => Some((FromServerMsgV::Update(g), p1)),
                None => None,
            }
        } else {
            None
        }
    } else {
        None
    }
}

pub proof fn lemma_enc_players_push(u: Seq<PlayerV>, p: PlayerV)
    ensures
        enc_players(u.push(p)) == enc_players(u) + enc_player(p),
    decreases u.len(),
{
    broadcast use lemma_enc_u32_len, lemma_dec_u32_shape;
    if u.len() == 0 {
        assert(u.push(p).len() == 1);
        assert(enc_players(u.push(p)) == enc_player(u.push(p)[0]) + enc_players(u.push(p).skip(1)));
        assert(u.push(p)[0] == p);
        assert(u.push(p).skip(1) =~= Seq::<PlayerV>::empty());
        assert(enc_players(u.push(p).skip(1)) == Seq::<u8>::empty());
        assert(enc_players(u) == Seq::<u8>::empty());
        assert(enc_players(u.push(p)) =~= enc_players(u) + enc_player(p));
    } else {
        assert(u.push(p).skip(1) =~= u.skip(1).push(p));
        lemma_enc_players_push(u.skip(1), p);
        assert(u.push(p)[0] == u[0]);
        assert(enc_players(u.push(p)) =~= enc_players(u) + enc_player(p));
    }
}

pub proof fn lemma_enc_bullets_push(u: Seq<BulletV>, v: BulletV)
    ensures
        enc_bullets(u.push(v)) == enc_bullets(u) + enc_bullet(v),
    decreases u.len(),
{
    broadcast use lemma_enc_u32_len, lemma_dec_u32_shape;
    if u.len() == 0 {
        assert(u.push(v).len() == 1);
        assert(enc_bullets(u.push(v)) == enc_bullet(u.push(v)[0]) + enc_bullets(u.push(v).skip(1)));
        assert(u.push(v)[0] == v);
        assert(u.push(v).skip(1) =~= Seq::<BulletV>::empty());
        assert(enc_bullets(u.push(v).skip(1)) == Seq::<u8>::empty());
        assert(enc_bullets(u) == Seq::<u8>::empty());
        assert(enc_bullets(u.push(v)) =~= enc_bullets(u) + enc_bullet(v));
    } else {
        assert(u.push(v).skip(1) =~= u.skip(1).push(v));
        lemma_enc_bullets_push(u.skip(1), v);
        assert(u.push(v)[0] == u[0]);
        assert(enc_bullets(u.push(v)) =~= enc_bullets(u) + enc_bullet(v));
    }
}

pub proof fn lemma_enc_events_push(u: Seq<EventV>, v: EventV)
    ensures
        enc_events(u.push(v)) == enc_events(u) + enc_event(v),
    decreases u.len(),
{
    broadcast use lemma_enc_u32_len, lemma_dec_u32_shape;
    if u.len() == 0 {
        assert(u.push(v).len() == 1);
        assert(enc_events(u.push(v)) == enc_event(u.push(v)[0]) + enc_events(u.push(v).skip(1)));
        assert(u.push(v)[0] == v);
        assert(u.push(v).skip(1) =~= Seq::<EventV>::empty());
        assert(enc_events(u.push(v).skip(1)) == Seq::<u8>::empty());
        assert(enc_events(u) == Seq::<u8>::empty());
        assert(enc_events(u.push(v)) =~= enc_events(u) + enc_event(v));
    } else {
        assert(u.push(v).skip(1) =~= u.skip(1).push(v));
        lemma_enc_events_push(u.skip(1), v);
        assert(u.push(v)[0] == u[0]);
        assert(enc_events(u.push(v)) =~= enc_events(u) + enc_event(v));
    }
}

pub proof fn lemma_dec_players(b: Seq<u8>, pos: int, ps: Seq<PlayerV>)
    requires
        ok_players(ps),
        0 <= pos,
        pos + enc_players(ps).len() <= b.len(),
        b.subrange(pos, pos + enc_players(ps).len() as int) == enc_players(ps),
    ensures
        dec_players(b, pos, ps.len() as int) == Some((ps, pos + enc_players(ps).len())),
    decreases ps.len(),
{
    broadcast use lemma_enc_u32_len, lemma_dec_u32_shape;
    if ps.len() > 0 {
        let h = ps[0];
        let t = ps.skip(1);
        assert(enc_players(ps) == enc_player(h) + enc_players(t));
        lemma_split(b, pos, enc_player(h), enc_players(t));
        lemma_dec_player(b, pos, h);
        assert(ok_players(t)) by {
            assert forall|k: int| 0 <= k < t.len() implies ok_player(#[trigger] t[k]) by {
                assert(t[k] == ps[k + 1]);
            }
        }
        lemma_dec_players(b, pos + enc_player(h).len(), t);
        assert(seq![h] + t =~= ps);
    }
}

pub proof fn lemma_dec_bullets(b: Seq<u8>, pos: int, bs: Seq<BulletV>)
    requires
        ok_bullets(bs),
        0 <= pos,
        pos + enc_bullets(bs).len() <= b.len(),
        b.subrange(pos, pos + enc_bullets(bs).len() as int) == enc_bullets(bs),
    ensures
        dec_bullets(b, pos, bs.len() as int) == Some((bs, pos + enc_bullets(bs).len())),
    decreases bs.len(),
{
    broadcast use lemma_enc_u32_len, lemma_dec_u32_shape;
    if bs.len() > 0 {
        let h = bs[0];
        let t = bs.skip(1);
        assert(enc_bullets(bs) == enc_bullet(h) + enc_bullets(t));
        lemma_split(b, pos, enc_bullet(h), enc_bullets(t));
        lemma_dec_bullet(b, pos, h);
        assert(ok_bullets(t)) by {
            assert forall|k: int| 0 <= k < t.len() implies ok_bullet(#[trigger] t[k]) by {
                assert(t[k] == bs[k + 1]);
            }
        }
        lemma_dec_bullets(b, pos + 36, t);
        assert(seq![h] + t =~= bs);
    }
}

pub proof fn lemma_dec_events(b: Seq<u8>, pos: int, es: Seq<EventV>)
    requires
        ok_events(es),
        0 <= pos,
        pos + enc_events(es).len() <= b.len(),
        b.subrange(pos, pos + enc_events(es).len() as int) == enc_events(es),
    ensures
        dec_events(b, pos, es.len() as int) == Some((es, pos + enc_events(es).len())),
    decreases es.len(),
{
    broadcast use lemma_enc_u32_len, lemma_dec_u32_shape;
    if es.len() > 0 {
        let h = es[0];
        let t = es.skip(1);
        assert(enc_events(es) == enc_event(h) + enc_events(t));
        lemma_split(b, pos, enc_event(h), enc_events(t));
        lemma_dec_event(b, pos, h);
        assert(ok_events(t)) by {
            assert forall|k: int| 0 <= k < t.len() implies ok_event(#[trigger] t[k]) by {
                assert(t[k] == es[k + 1]);
            }
        }
        lemma_dec_events(b, pos + enc_event(h).len(), t);
        assert(seq![h] + t =~= es);
    }
}

/// Decoding after encoding a snapshot yields it back, field for field.
#[verifier::rlimit(100)]
pub proof fn lemma_dec_game(b: Seq<u8>, pos: int, g: GameV)
    requires
        ok_game(g),
        0 <= pos,
        pos + enc_game(g).len() <= b.len(),
        b.subrange(pos, pos + enc_game(g).len() as int) == enc_game(g),
    ensures
        dec_game(b, pos) == Some((g, pos + enc_game(g).len())),
{
    broadcast use lemma_enc_u32_len, lemma_dec_u32_shape;

    let e1 = enc_u32(g.players.len() as int);
    let e2 = enc_players(g.players);
    let e3 = enc_u32(g.bullets.len() as int);
    let e4 = enc_bullets(g.bullets);
    let e5 = enc_u32(g.events.len() as int);
    let e6 = enc_events(g.events);
    let p1 = pos + 4;
    lemma_split(b, pos, e1, e2 + (e3 + (e4 + (e5 + e6))));
    lemma_dec_u32(b, pos, g.players.len() as int);
    let p2 = p1 + e2.len();
    lemma_split(b, p1, e2, e3 + (e4 + (e5 + e6)));
    lemma_dec_players(b, p1, g.players);
    let p3 = p2 + 4;
    lemma_split(b, p2, e3, e4 + (e5 + e6));
    lemma_dec_u32(b, p2, g.bullets.len() as int);
    let p4 = p3 + e4.len();
    lemma_split(b, p3, e4, e5 + e6);
    lemma_dec_bullets(b, p3, g.bullets);
    let p5 = p4 + 4;
    lemma_split(b, p4, e5, e6);
    lemma_dec_u32(b, p4, g.events.len() as int);
    lemma_dec_events(b, p5, g.events);
}

/// Decoding after encoding a server message yields it back.
pub proof fn lemma_dec_from_server(b: Seq<u8>, pos: int, m: FromServerMsgV)
    requires
        ok_from_server(m),
        0 <= pos,
        pos + enc_from_server(m).len() <= b.len(),
        b.subrange(pos, pos + enc_from_server(m).len() as int) == enc_from_server(m),
    ensures
        dec_from_server(b, pos) == Some((m, pos + enc_from_server(m).len())),
{
    broadcast use lemma_enc_u32_len, lemma_dec_u32_shape;

    let e = enc_from_server(m);
    assert(b[pos] == b.subrange(pos, pos + e.len() as int)[0]);
    match m {
        FromServerMsgV::Welcome(id) => {
            lemma_split(b, pos, seq![0u8], enc_u32(id));
            lemma_dec_u32(b, pos + 1, id);
        },
        FromServerMsgV::Update(g) => {
            lemma_split(b, pos, seq![1u8], enc_game(g));
            lemma_dec_game(b, pos + 1, g);
        },
    }
}

/// Write a snapshot.
#[verifier::loop_isolation(false)]
#[verifier::rlimit(100)]
pub fn encode_game(out: &mut Vec<u8>, gs: &GameState)
    requires
        ok_game(gs@),
    ensures
        final(out)@ == old(out)@ + enc_game(gs@),
{
    broadcast use lemma_enc_u32_len, lemma_dec_u32_shape;

    let np = gs.players.len();
    encode_u32(out, np as u32);
    let mut i: usize = 0;
    while i < np
        invariant
            i <= np,
            out@ == old(out)@ + enc_u32(np as int) + enc_players(gs@.players.take(i as int)),
        decreases np - i,
    {
        proof {
            assert(players_view(gs.players@)[i as int] == gs@.players[i as int]);
            assert(ok_player(gs@.players[i as int]));
        }
        encode_player(out, &gs.players[i]);
        proof {
            lemma_enc_players_push(gs@.players.take(i as int), gs@.players[i as int]);
            assert(gs@.players.take(i as int + 1) =~= gs@.players.take(i as int).push(
                gs@.players[i as int],
            ));
            assert(out@ =~= old(out)@ + enc_u32(np as int) + enc_players(
                gs@.players.take(i as int + 1),
            ));
        }
        i = i + 1;
    }
    proof {
        assert(gs@.players.take(np as int) =~= gs@.players);
    }
    let nb = gs.bullets.len();
    encode_u32(out, nb as u32);
    let ghost mid1 = out@;
    let mut i: usize = 0;
    while i < nb
        invariant
            i <= nb,
            out@ == mid1 + enc_bullets(gs@.bullets.take(i as int)),
        decreases nb - i,
    {
        proof {
            assert(bullets_view(gs.bullets@)[i as int] == gs@.bullets[i as int]);
        }
        encode_bullet(out, &gs.bullets[i]);
        proof {
            lemma_enc_bullets_push(gs@.bullets.take(i as int), gs@.bullets[i as int]);
            assert(gs@.bullets.take(i as int + 1) =~= gs@.bullets.take(i as int).push(
                gs@.bullets[i as int],
            ));
            assert(out@ =~= mid1 + enc_bullets(gs@.bullets.take(i as int + 1)));
        }
        i = i + 1;
    }
    proof {
        assert(gs@.bullets.take(nb as int) =~= gs@.bullets);
    }
    let ne = gs.events.len();
    encode_u32(out, ne as u32);
    let ghost mid2 = out@;
    let mut i: usize = 0;
    while i < ne
        invariant
            i <= ne,
            out@ == mid2 + enc_events(gs@.events.take(i as int)),
        decreases ne - i,
    {
        proof {
            assert(events_view(gs.events@)[i as int] == gs@.events[i as int]);
            assert(ok_event(gs@.events[i as int]));
        }
        encode_event(out, &gs.events[i]);
        proof {
            lemma_enc_events_push(gs@.events.take(i as int), gs@.events[i as int]);
            assert(gs@.events.take(i as int + 1) =~= gs@.events.take(i as int).push(
                gs@.events[i as int],
            ));
            assert(out@ =~= mid2 + enc_events(gs@.events.take(i as int + 1)));
        }
        i = i + 1;
    }
    proof {
        assert(gs@.events.take(ne as int) =~= gs@.events);
        assert(out@ =~= old(out)@ + enc_game(gs@));
    }
}

/// Write a server-to-client message.
pub fn encode_from_server(out: &mut Vec<u8>, m: &FromServerMsg)
    requires
        m@ matches FromServerMsgV::Update(g) ==> ok_game(g),
    ensures
        final(out)@ == old(out)@ + enc_from_server(m@),
{
    broadcast use lemma_enc_u32_len;

    match m {
        FromServerMsg::Welcome(id) => {
            out.push(0u8);
            encode_u32(out, id.0);
        },
        FromServerMsg::Update(gs) => {
            out.push(1u8);
            encode_game(out, gs);
        },
    }
    proof {
        assert(out@ =~= old(out)@ + enc_from_server(m@));
    }
}

/// Read a snapshot.
#[verifier::loop_isolation(false)]
#[verifier::rlimit(100)]
pub fn decode_game(buf: &Vec<u8>, pos: usize) -> (r: Option<(GameState, usize)>)
    requires
        pos <= buf@.len(),
    ensures
        match r {
            Some((gs, p2)) => dec_game(buf@, pos as int) == Some((gs@, p2 as int)) && p2
                <= buf@.len(),
            None => dec_game(buf@, pos as int) is None,
        },
{
    broadcast use lemma_enc_u32_len, lemma_dec_u32_shape;

    let (np, p1) = match decode_u32(buf, pos) {
        Some(r) => r,
        None => {
            return None;
        },
    };
    let np = np as usize;
    let mut players: Vec<Player> = Vec::new();
    let mut p = p1;
    let mut i: usize = 0;
    while i < np
        invariant
            i <= np,
            p1 <= p <= buf@.len(),
            dec_players(buf@, p1 as int, np as int) == (match dec_players(
                buf@,
                p as int,
                np as int - i as int,
            ) {
                Some((rest, pe)) => Some((players_view(players@) + rest, pe)),
                None => None::<(Seq<PlayerV>, int)>,
            }),
        decreases np - i,
    {
        let ghost pv_prev = players_view(players@);
        let (pl, p2) = match decode_player(buf, p) {
            Some(r) => r,
            None => {
                return None;
            },
        };
        players.push(pl);
        p = p2;
        i = i + 1;
        proof {
            assert(players_view(players@) =~= pv_prev.push(pl@));
            if dec_players(buf@, p as int, np as int - i as int) is Some {
                let (rest, pe) = dec_players(buf@, p as int, np as int - i as int).unwrap();
                assert(pv_prev + (seq![pl@] + rest) =~= players_view(players@) + rest);
            }
        }
    }
    proof {
        assert(players_view(players@) + Seq::<PlayerV>::empty() =~= players_view(players@));
    }
    let (nb, p3) = match decode_u32(buf, p) {
        Some(r) => r,
        None => {
            return None;
        },
    };
    let nb = nb as usize;
    let mut bullets: Vec<Bullet> = Vec::new();
    let mut p = p3;
    let mut i: usize = 0;
    while i < nb
        invariant
            i <= nb,
            p3 <= p <= buf@.len(),
            dec_bullets(buf@, p3 as int, nb as int) == (match dec_bullets(
                buf@,
                p as int,
                nb as int - i as int,
            ) {
                Some((rest, pe)) => Some((bullets_view(bullets@) + rest, pe)),
                None => None::<(Seq<BulletV>, int)>,
            }),
        decreases nb - i,
    {
        let ghost bv_prev = bullets_view(bullets@);
        let (bl, p2) = match decode_bullet(buf, p) {
            Some(r) => r,
            None => {
                return None;
            },
        };
        bullets.push(bl);
        p = p2;
        i = i + 1;
        proof {
            assert(bullets_view(bullets@) =~= bv_prev.push(bl@));
            if dec_bullets(buf@, p as int, nb as int - i as int) is Some {
                let (rest, pe) = dec_bullets(buf@, p as int, nb as int - i as int).unwrap();
                assert(bv_prev + (seq![bl@] + rest) =~= bullets_view(bullets@) + rest);
            }
        }
    }
    proof {
        assert(bullets_view(bullets@) + Seq::<BulletV>::empty() =~= bullets_view(bullets@));
    }
    let (ne, p5) = match decode_u32(buf, p) {
        Some(r) => r,
        None => {
            return None;
        },
    };
    let ne = ne as usize;
    let mut events: Vec<Event> = Vec::new();
    let mut p = p5;
    let mut i: usize = 0;
    while i < ne
        invariant
            i <= ne,
            p5 <= p <= buf@.len(),
            dec_events(buf@, p5 as int, ne as int) == (match dec_events(
                buf@,
                p as int,
                ne as int - i as int,
            ) {
                Some((rest, pe)) => Some((events_view(events@) + rest, pe)),
                None => None::<(Seq<EventV>, int)>,
            }),
        decreases ne - i,
    {
        let ghost ev_prev = events_view(events@);
        let (ev, p2) = match decode_event(buf, p) {
            Some(r) => r,
            None => {
                return None;
            },
        };
        events.push(ev);
        p = p2;
        i = i + 1;
        proof {
            assert(events_view(events@) =~= ev_prev.push(ev@));
            if dec_events(buf@, p as int, ne as int - i as int) is Some {
                let (rest, pe) = dec_events(buf@, p as int, ne as int - i as int).unwrap();
                assert(ev_prev + (seq![ev@] + rest) =~= events_view(events@) + rest);
            }
        }
    }
    proof {
        assert(events_view(events@) + Seq::<EventV>::empty() =~= events_view(events@));
    }
    Some((GameState { players, bullets, events }, p))
}

/// Read a server-to-client message.
pub fn decode_from_server(buf: &Vec<u8>, pos: usize) -> (r: Option<(FromServerMsg, usize)>)
    requires
        pos <= buf@.len(),
    ensures
        match r {
            Some((m, p2)) => dec_from_server(buf@, pos as int) == Some((m@, p2 as int)) && p2
                <= buf@.len(),
            None => dec_from_server(buf@, pos as int) is None,
        },
{
    if buf.len() - pos < 1 {
        return None;
    }
    let tag = buf[pos];
    if tag == 0u8 {
        let (id, p1) = match decode_u32(buf, pos + 1) {
            Some(r) => r,
            None => {
                return None;
            },
        };
        Some((FromServerMsg::Welcome(PlayerId(id)), p1))
    } else if tag == 1u8 {
        let (gs, p1) = match decode_game(buf, pos + 1) {
            Some(r) => r,
            None => {
                return None;
            },
        };
        Some((FromServerMsg::Update(gs), p1))
    } else {
        None
    }
}

} // verus!
