use vstd::prelude::*;

use crate::vec2::UVec2;

verus! {

/// Number of tree levels a path encodes (levels 0 through 5).
pub const PATH_LEVELS: u32 = 6;

/// Offset contributed by the coarsest level: half of a 64-tile macro-cell.
pub const BASE_UNIT: u32 = 32;

/// The bit of `path` that selects the quadrant along `axis` (1 for x, 0 for
/// y) at tree level `level`.
pub open spec fn axis_bit(path: u32, level: nat, axis: u32) -> u32 {
    ((path >> ((2 * level) as u32)) >> axis) & 1
}

/// The offset along `axis` accumulated over the first `n` levels of `path`:
/// level `i` contributes its bit times `32 >> i`.
pub open spec fn axis_offset(path: u32, axis: u32, n: nat) -> int
    decreases n,
{
    if n == 0 {
        0
    } else {
        axis_offset(path, axis, (n - 1) as nat) + axis_bit(path, (n - 1) as nat, axis) * (32u32 >> (
        (n - 1) as u32))
    }
}

/// The x offset, within its macro-cell, of the room whose path is `path`.
pub open spec fn decode_x(path: u32) -> int {
    axis_offset(path, 1, 6)
}

/// The y offset, within its macro-cell, of the room whose path is `path`.
pub open spec fn decode_y(path: u32) -> int {
    axis_offset(path, 0, 6)
}

/// The path of the cell `(x, y)` of a macro-cell: bit `5 - i` of `x` goes to
/// bit `2i + 1`, bit `5 - i` of `y` to bit `2i`.
pub open spec fn encode(x: u32, y: u32) -> u32 {
    ((x >> 5) & 1) << 1 | ((y >> 5) & 1) | ((x >> 4) & 1) << 3 | ((y >> 4) & 1) << 2 | ((x >> 3) & 1)
        << 5 | ((y >> 3) & 1) << 4 | ((x >> 2) & 1) << 7 | ((y >> 2) & 1) << 6 | ((x >> 1) & 1) << 9
        | ((y >> 1) & 1) << 8 | (x & 1) << 11 | (y & 1) << 10
}

/// Decodes a path into the top-left tile of its room, relative to the
/// macro-cell's corner. Level `i`'s x bit adds `32 >> i` to x and its y bit
/// adds `32 >> i` to y.
pub fn decode_position(path: u32) -> (r: UVec2)
    ensures
        r.x == decode_x(path),
        r.y == decode_y(path),
        r.x < 64 && r.y < 64,
{
    proof {
        lemma_decode_unfold(path);
    }
    let mut x: u32 = 0;
    let mut y: u32 = 0;
    let mut i: u32 = 0;
    while i < PATH_LEVELS
        invariant
            i <= 6,
            x == axis_offset(path, 1, i as nat),
            y == axis_offset(path, 0, i as nat),
            x <= 32 * i,
            y <= 32 * i,
        decreases 6 - i,
    {
        let level = path >> (2 * i);
        let bx = (level & 0b10) >> 1;
        let by = level & 0b01;
        assert((level & 0b10) >> 1 == ((level >> 1u32) & 1)) by (bit_vector);
        assert(level & 0b01 == ((level >> 0u32) & 1)) by (bit_vector);
        assert((level & 0b10) >> 1 <= 1 && level & 0b01 <= 1) by (bit_vector);
        assert(32u32 >> i <= 32) by (bit_vector);
        assert(bx * (BASE_UNIT >> i) <= 32 && by * (BASE_UNIT >> i) <= 32) by (nonlinear_arith)
            requires
                bx <= 1,
                by <= 1,
                BASE_UNIT >> i <= 32,
        ;
        x = x + bx * (BASE_UNIT >> i);
        y = y + by * (BASE_UNIT >> i);
        i = i + 1;
    }
    UVec2 { x: x as u16, y: y as u16 }
}

proof fn lemma_decode_unfold(p: u32)
    ensures
        0 <= decode_x(p) < 64,
        0 <= decode_y(p) < 64,
        decode_x(p) == ((p >> 1) & 1) * 32 + ((p >> 3) & 1) * 16 + ((p >> 5) & 1) * 8 + ((p >> 7) & 1)
            * 4 + ((p >> 9) & 1) * 2 + ((p >> 11) & 1),
        decode_y(p) == (p & 1) * 32 + ((p >> 2) & 1) * 16 + ((p >> 4) & 1) * 8 + ((p >> 6) & 1) * 4 + ((
        p >> 8) & 1) * 2 + ((p >> 10) & 1),
{
    assert(32u32 >> 0u32 == 32 && 32u32 >> 1u32 == 16 && 32u32 >> 2u32 == 8 && 32u32 >> 3u32 == 4
        && 32u32 >> 4u32 == 2 && 32u32 >> 5u32 == 1) by (bit_vector);
    assert(((p >> 0u32) >> 1u32) & 1 == (p >> 1) & 1) by (bit_vector);
    assert(((p >> 2u32) >> 1u32) & 1 == (p >> 3) & 1) by (bit_vector);
    assert(((p >> 4u32) >> 1u32) & 1 == (p >> 5) & 1) by (bit_vector);
    assert(((p >> 6u32) >> 1u32) & 1 == (p >> 7) & 1) by (bit_vector);
    assert(((p >> 8u32) >> 1u32) & 1 == (p >> 9) & 1) by (bit_vector);
    assert(((p >> 10u32) >> 1u32) & 1 == (p >> 11) & 1) by (bit_vector);
    assert(((p >> 0u32) >> 0u32) & 1 == p & 1) by (bit_vector);
    assert(((p >> 2u32) >> 0u32) & 1 == (p >> 2) & 1) by (bit_vector);
    assert(((p >> 4u32) >> 0u32) & 1 == (p >> 4) & 1) by (bit_vector);
    assert(((p >> 6u32) >> 0u32) & 1 == (p >> 6) & 1) by (bit_vector);
    assert(((p >> 8u32) >> 0u32) & 1 == (p >> 8) & 1) by (bit_vector);
    assert(((p >> 10u32) >> 0u32) & 1 == (p >> 10) & 1) by (bit_vector);
    assert(axis_bit(p, 0, 1) == (p >> 1) & 1 && axis_bit(p, 1, 1) == (p >> 3) & 1 && axis_bit(p, 2, 1)
        == (p >> 5) & 1 && axis_bit(p, 3, 1) == (p >> 7) & 1 && axis_bit(p, 4, 1) == (p >> 9) & 1
        && axis_bit(p, 5, 1) == (p >> 11) & 1);
    assert(axis_bit(p, 0, 0) == p & 1 && axis_bit(p, 1, 0) == (p >> 2) & 1 && axis_bit(p, 2, 0) == (p
        >> 4) & 1 && axis_bit(p, 3, 0) == (p >> 6) & 1 && axis_bit(p, 4, 0) == (p >> 8) & 1
        && axis_bit(p, 5, 0) == (p >> 10) & 1);
    assert forall|axis: u32| axis_offset(p, axis, 6) == axis_bit(p, 0, axis) * 32 + axis_bit(p, 1, axis)
        * 16 + axis_bit(p, 2, axis) * 8 + axis_bit(p, 3, axis) * 4 + axis_bit(p, 4, axis) * 2
        + axis_bit(p, 5, axis) by {
        assert(axis_offset(p, axis, 0) == 0);
        assert(axis_bit(p, 0, axis) * (32u32 >> 0u32) == axis_bit(p, 0, axis) * 32);
        assert(axis_offset(p, axis, 1) == axis_bit(p, 0, axis) * 32);
        assert(axis_offset(p, axis, 2) == axis_offset(p, axis, 1) + axis_bit(p, 1, axis) * 16);
        assert(axis_offset(p, axis, 3) == axis_offset(p, axis, 2) + axis_bit(p, 2, axis) * 8);
        assert(axis_offset(p, axis, 4) == axis_offset(p, axis, 3) + axis_bit(p, 3, axis) * 4);
        assert(axis_offset(p, axis, 5) == axis_offset(p, axis, 4) + axis_bit(p, 4, axis) * 2);
        assert(axis_bit(p, 5, axis) * (32u32 >> 5u32) == axis_bit(p, 5, axis));
        assert(axis_offset(p, axis, 6) == axis_offset(p, axis, 5) + axis_bit(p, 5, axis));
    }
    assert({
        &&& ((p >> 1) & 1) * 32 + ((p >> 3) & 1) * 16 + ((p >> 5) & 1) * 8 + ((p >> 7) & 1) * 4 + ((p
            >> 9) & 1) * 2 + ((p >> 11) & 1) < 64
        &&& (p & 1) * 32 + ((p >> 2) & 1) * 16 + ((p >> 4) & 1) * 8 + ((p >> 6) & 1) * 4 + ((p >> 8)
            & 1) * 2 + ((p >> 10) & 1) < 64
    }) by (bit_vector);
}

/// Decoding is a bijection between the paths of six levels, `0 .. 4^6`, and
/// the cells `[0, 64) x [0, 64)` of a macro-cell, whose inverse is `encode`.
/// Path 0 is the corner `(0, 0)` and the largest path the far corner
/// `(63, 63)`.
pub proof fn lemma_decode_bijection(p: u32, x: u32, y: u32)
    ensures
        p < 4096 ==> 0 <= decode_x(p) < 64 && 0 <= decode_y(p) < 64,
        p < 4096 ==> encode(decode_x(p) as u32, decode_y(p) as u32) == p,
        x < 64 && y < 64 ==> encode(x, y) < 4096,
        x < 64 && y < 64 ==> decode_x(encode(x, y)) == x && decode_y(encode(x, y)) == y,
        decode_x(0) == 0 && decode_y(0) == 0,
        decode_x(4095) == 63 && decode_y(4095) == 63,
{
    lemma_decode_unfold(p);
    let q = encode(x, y);
    lemma_decode_unfold(q);
    lemma_decode_unfold(0);
    lemma_decode_unfold(4095);
    assert(p < 4096 ==> {
        let dx = ((p >> 1) & 1) * 32 + ((p >> 3) & 1) * 16 + ((p >> 5) & 1) * 8 + ((p >> 7) & 1) * 4
            + ((p >> 9) & 1) * 2 + ((p >> 11) & 1);
        let dy = (p & 1) * 32 + ((p >> 2) & 1) * 16 + ((p >> 4) & 1) * 8 + ((p >> 6) & 1) * 4 + ((p
            >> 8) & 1) * 2 + ((p >> 10) & 1);
        dx < 64 && dy < 64 && encode(dx as u32, dy as u32) == p
    }) by (bit_vector);
    assert(x < 64 && y < 64 ==> {
        let q = encode(x, y);
        let dx = ((q >> 1) & 1) * 32 + ((q >> 3) & 1) * 16 + ((q >> 5) & 1) * 8 + ((q >> 7) & 1) * 4
            + ((q >> 9) & 1) * 2 + ((q >> 11) & 1);
        let dy = (q & 1) * 32 + ((q >> 2) & 1) * 16 + ((q >> 4) & 1) * 8 + ((q >> 6) & 1) * 4 + ((q
            >> 8) & 1) * 2 + ((q >> 10) & 1);
        q < 4096 && dx == x && dy == y
    }) by (bit_vector);
    assert({
        let p = 0u32;
        &&& ((p >> 1) & 1) * 32 + ((p >> 3) & 1) * 16 + ((p >> 5) & 1) * 8 + ((p >> 7) & 1) * 4 + ((p
            >> 9) & 1) * 2 + ((p >> 11) & 1) == 0
        &&& (p & 1) * 32 + ((p >> 2) & 1) * 16 + ((p >> 4) & 1) * 8 + ((p >> 6) & 1) * 4 + ((p >> 8)
            & 1) * 2 + ((p >> 10) & 1) == 0
    }) by (bit_vector);
    assert({
        let p = 4095u32;
        &&& ((p >> 1) & 1) * 32 + ((p >> 3) & 1) * 16 + ((p >> 5) & 1) * 8 + ((p >> 7) & 1) * 4 + ((p
            >> 9) & 1) * 2 + ((p >> 11) & 1) == 63
        &&& (p & 1) * 32 + ((p >> 2) & 1) * 16 + ((p >> 4) & 1) * 8 + ((p >> 6) & 1) * 4 + ((p >> 8)
            & 1) * 2 + ((p >> 10) & 1) == 63
    }) by (bit_vector);
}

} // verus!
