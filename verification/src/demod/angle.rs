//! Angles in fixed point: a half turn is `HALF_TURN`.

use vstd::prelude::*;

verus! {

/// An eighth of a turn.
pub const EIGHTH_TURN: i32 = 4096;

/// Half a turn; angles lie between `-HALF_TURN` and `HALF_TURN`.
pub const HALF_TURN: i32 = 16384;

/// The value of the low 32 bits of `v`, read as a signed number.
pub open spec fn wrap32(v: int) -> int {
    (v + 0x8000_0000) % 0x1_0000_0000 - 0x8000_0000
}

/// The value of the low 16 bits of `v`, read as a signed number.
pub open spec fn wrap16(v: int) -> int {
    (v + 0x8000) % 0x1_0000 - 0x8000
}

/// `a / b` rounded towards zero, for a positive `b`.
pub open spec fn trunc_div(a: int, b: int) -> int {
    if a >= 0 {
        a / b
    } else {
        -((-a) / b)
    }
}

pub open spec fn abs(v: int) -> int {
    if v < 0 {
        -v
    } else {
        v
    }
}

/// A quotient is bounded by `m` when the dividend is bounded by `m` divisors.
pub proof fn lemma_trunc_div_bound(a: int, b: int, m: int)
    requires
        b > 0,
        -(m * b) <= a <= m * b,
    ensures
        -m <= trunc_div(a, b) <= m,
{
    let v = abs(a);
    vstd::arithmetic::div_mod::lemma_div_is_ordered(v, m * b, b);
    vstd::arithmetic::div_mod::lemma_div_multiples_vanish(m, b);
    assert(b * m == m * b) by (nonlinear_arith);
    vstd::arithmetic::div_mod::lemma_div_pos_is_pos(v, b);
}

/// The low 32 bits of `v`.
fn low_word(v: i64) -> (r: i32)
    requires
        -0x0800_0000_0000 <= v <= 0x0800_0000_0000,
    ensures
        r == wrap32(v as int),
{
    let shifted: i64 = v + 0x1000_8000_0000;
    let r: i64 = shifted % 0x1_0000_0000 - 0x8000_0000;
    r as i32
}

/// The quotient that turns the position within a quadrant into an angle. The
/// scaled difference is kept to 32 bits.
pub open spec fn quadrant_part(diff: int, sum: int) -> int {
    trunc_div(wrap32(EIGHTH_TURN * diff), sum)
}

/// The angle of the point `(x, y)`: linear in the ratio of difference and sum
/// within each quadrant, and odd in `y`.
pub open spec fn fast_angle(y: int, x: int) -> int {
    if x == 0 && y == 0 {
        0
    } else {
        let upper = if x >= 0 {
            EIGHTH_TURN - quadrant_part(x - abs(y), x + abs(y))
        } else {
            3 * EIGHTH_TURN - quadrant_part(x + abs(y), abs(y) - x)
        };
        if y < 0 {
            -upper
        } else {
            upper
        }
    }
}

/// A quadrant part is at most an eighth of a turn, with and without overflow of
/// the scaled difference.
proof fn lemma_quadrant_part(diff: int, sum: int)
    requires
        0 < sum,
        -sum <= diff <= sum,
    ensures
        -EIGHTH_TURN <= quadrant_part(diff, sum) <= EIGHTH_TURN,
{
    let w = wrap32(EIGHTH_TURN * diff);
    assert(-(4096 * sum) <= w <= 4096 * sum);
    lemma_trunc_div_bound(w, sum, 4096);
}

/// No angle exceeds half a turn; points in the right half plane stay within a
/// quarter turn, points left of it beyond.
pub proof fn lemma_fast_angle_range(y: int, x: int)
    ensures
        -HALF_TURN <= fast_angle(y, x) <= HALF_TURN,
        x >= 0 ==> abs(fast_angle(y, x)) <= 2 * EIGHTH_TURN,
        x < 0 ==> abs(fast_angle(y, x)) >= 2 * EIGHTH_TURN,
        y >= 0 ==> fast_angle(y, x) >= 0,
        y < 0 ==> fast_angle(y, x) <= 0,
{
    if !(x == 0 && y == 0) {
        if x >= 0 {
            lemma_quadrant_part(x - abs(y), x + abs(y));
        } else {
            lemma_quadrant_part(x + abs(y), abs(y) - x);
        }
    }
}

/// Mirroring a point at the horizontal axis turns the angle's sign.
pub proof fn lemma_fast_angle_odd(y: int, x: int)
    requires
        y != 0,
    ensures
        fast_angle(-y, x) == -fast_angle(y, x),
{
}

/// Keeping a number to 32 bits changes it by a multiple of 2^32, and not at all
/// where it fits.
pub proof fn lemma_wrap32(v: int)
    ensures
        -0x8000_0000 <= wrap32(v) < 0x8000_0000,
        (wrap32(v) - v) % 0x1_0000_0000 == 0,
        -0x8000_0000 <= v < 0x8000_0000 ==> wrap32(v) == v,
{
}

/// Keeping a number to 16 bits changes it by a multiple of 2^16, and not at all
/// where it fits.
pub proof fn lemma_wrap16(v: int)
    ensures
        -0x8000 <= wrap16(v) < 0x8000,
        (v - wrap16(v)) % 0x1_0000 == 0,
        -0x8000 <= v < 0x8000 ==> wrap16(v) == v,
{
}

/// The quotient leaves a remainder smaller than the divisor, on the side of the
/// dividend.
pub proof fn lemma_trunc_div(a: int, b: int)
    requires
        b > 0,
    ensures
        a >= 0 ==> 0 <= a - trunc_div(a, b) * b < b,
        a < 0 ==> -b < a - trunc_div(a, b) * b <= 0,
        trunc_div(-a, b) == -trunc_div(a, b),
{
    let v = abs(a);
    let q = v / b;
    vstd::arithmetic::div_mod::lemma_fundamental_div_mod(v, b);
    vstd::arithmetic::div_mod::lemma_mod_bound(v, b);
    assert(b * q == q * b) by (nonlinear_arith);
    assert((-q) * b == -(q * b)) by (nonlinear_arith);
    if a == 0 {
        vstd::arithmetic::div_mod::lemma_basic_div(0, b);
    }
}

/// In the first quadrant the angle grows from 0 to a quarter turn with the share
/// of `y` in `x + y`, to within one unit.
pub proof fn lemma_fast_angle_ratio(y: int, x: int)
    requires
        0 <= x,
        0 <= y,
        0 < x + y,
        x < 524_288,
        y < 524_288,
    ensures
        -(x + y) < fast_angle(y, x) * (x + y) - 8192 * y < x + y,
{
    let s = x + y;
    let w = 4096 * (x - y);
    lemma_wrap32(w);
    lemma_trunc_div(w, s);
    let q = trunc_div(w, s);
    assert(fast_angle(y, x) == 4096 - q);
    assert((4096 - q) * s == 4096 * s - q * s) by (nonlinear_arith);
}

/// Left of the vertical axis the angle is the supplement of that of the mirrored
/// point.
pub proof fn lemma_fast_angle_mirrored(y: int, x: int)
    requires
        0 <= y,
        0 < x,
        x < 524_288,
        y < 524_288,
    ensures
        fast_angle(y, -x) == 16384 - fast_angle(y, x),
{
    let w = 4096 * (x - y);
    lemma_wrap32(w);
    lemma_wrap32(-w);
    lemma_trunc_div(w, x + y);
    assert(EIGHTH_TURN * (-x + y) == -w);
}

/// For every point the angle comes from a quotient: `w` is the difference of the
/// coordinates times 4096, kept to 32 bits, and the angle lies `w` divided by the
/// sum of the magnitudes, rounded towards zero, below an eighth of a turn (right
/// of the vertical axis) or three eighths (left of it).
pub proof fn lemma_fast_angle_quotient(y: int, x: int, w: int)
    requires
        y >= 0,
        x != 0 || y != 0,
        -0x8000_0000 <= w < 0x8000_0000,
        x >= 0 ==> (w - 4096 * (x - y)) % 0x1_0000_0000 == 0,
        x < 0 ==> (w - 4096 * (x + y)) % 0x1_0000_0000 == 0,
    ensures
        ({
            let sum = if x >= 0 {
                x + y
            } else {
                y - x
            };
            let q = if x >= 0 {
                4096 - fast_angle(y, x)
            } else {
                12288 - fast_angle(y, x)
            };
            &&& w >= 0 ==> 0 <= w - q * sum < sum
            &&& w < 0 ==> -sum < w - q * sum <= 0
        }),
{
    let v = if x >= 0 {
        4096 * (x - y)
    } else {
        4096 * (x + y)
    };
    let sum = if x >= 0 {
        x + y
    } else {
        y - x
    };
    lemma_wrap32(v);
    assert(w == wrap32(v));
    lemma_trunc_div(w, sum);
}

/// The origin has the angle 0.
pub proof fn lemma_fast_angle_origin()
    ensures
        fast_angle(0, 0) == 0,
{
}

/// The angle of the point `(x, y)` by an integer approximation.
pub fn fast_atan2(y: i32, x: i32) -> (angle: i32)
    requires
        abs(x as int) + abs(y as int) <= i32::MAX,
    ensures
        angle == fast_angle(y as int, x as int),
        -HALF_TURN <= angle <= HALF_TURN,
{
    if x == 0 && y == 0 {
        return 0;
    }
    let yabs: i32 = if y < 0 {
        -y
    } else {
        y
    };
    proof {
        lemma_fast_angle_range(y as int, x as int);
        if x >= 0 {
            lemma_quadrant_part(x - yabs, x + yabs);
        } else {
            lemma_quadrant_part(x + yabs, yabs - x);
        }
    }
    let upper: i32 = if x >= 0 {
        let scaled: i32 = low_word(EIGHTH_TURN as i64 * (x - yabs) as i64);
        EIGHTH_TURN - scaled / (x + yabs)
    } else {
        let scaled: i32 = low_word(EIGHTH_TURN as i64 * (x + yabs) as i64);
        3 * EIGHTH_TURN - scaled / (yabs - x)
    };
    if y < 0 {
        -upper
    } else {
        upper
    }
}

} // verus!
