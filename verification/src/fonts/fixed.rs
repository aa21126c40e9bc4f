//! 16.16 fixed-point axis coordinates, and the integer facts the face logic
//! takes from them: the weight an instance reports and the OS/2 width class
//! its `wdth` coordinate falls in.
//!
//! A coordinate reaches the reported values as a single-precision number:
//! the 32-bit fixed value is first rounded to the 24 significant bits of a
//! binary32 (round to nearest, ties to even) and then divided by 65536,
//! which is exact.  Everything below works on that rounded integer.

use vstd::prelude::*;

verus! {

/// The distance between neighbouring binary32 values around magnitude `a`
/// (for `0 <= a <= 2^31`).
pub open spec fn f32_spacing(a: int) -> int {
    if a < 0x100_0000 {
        1
    } else if a < 0x200_0000 {
        2
    } else if a < 0x400_0000 {
        4
    } else if a < 0x800_0000 {
        8
    } else if a < 0x1000_0000 {
        16
    } else if a < 0x2000_0000 {
        32
    } else if a < 0x4000_0000 {
        64
    } else {
        128
    }
}

/// Round a non-negative value to the nearest multiple of `s`, ties to the
/// even multiple.
pub open spec fn round_to(a: int, s: int) -> int {
    let q = a / s;
    let r = a % s;
    if 2 * r > s || (2 * r == s && q % 2 == 1) {
        (q + 1) * s
    } else {
        q * s
    }
}

/// Round a non-negative magnitude to the nearest multiple of its spacing,
/// ties to the even multiple.
pub open spec fn round_magnitude(a: int) -> int {
    round_to(a, f32_spacing(a))
}

/// The integer that a 32-bit value becomes when converted to binary32.
pub open spec fn f32_round(x: int) -> int {
    if x >= 0 {
        round_magnitude(x)
    } else {
        -round_magnitude(-x)
    }
}

proof fn lemma_round_bounds(a: int, s: int)
    requires
        0 <= a <= 0x8000_0000,
        1 <= s <= 128,
    ensures
        0 <= (a / s) * s <= a,
        ((a / s) + 1) * s <= a + s,
        0 <= a % s < s,
{
    assert(0 <= (a / s) * s <= a) by (nonlinear_arith)
        requires
            0 <= a,
            1 <= s,
    ;
    assert(((a / s) + 1) * s == (a / s) * s + s) by (nonlinear_arith);
}

/// The value of a 16.16 coordinate once held in single precision, times 65536.
pub fn rounded_coord(x: i32) -> (res: i64)
    ensures
        res == f32_round(x as int),
        -0x8000_0000 <= res <= 0x8000_0000,
{
    let neg = x < 0;
    let a: i64 = if neg {
        -(x as i64)
    } else {
        x as i64
    };
    let s: i64 = if a < 0x100_0000 {
        1
    } else if a < 0x200_0000 {
        2
    } else if a < 0x400_0000 {
        4
    } else if a < 0x800_0000 {
        8
    } else if a < 0x1000_0000 {
        16
    } else if a < 0x2000_0000 {
        32
    } else if a < 0x4000_0000 {
        64
    } else {
        128
    };
    proof {
        lemma_round_bounds(a as int, s as int);
    }
    let q = a / s;
    let r = a % s;
    let m: i64 = if 2 * r > s || (2 * r == s && q % 2 == 1) {
        (q + 1) * s
    } else {
        q * s
    };
    assert(m <= 0x8000_0000) by {
        if a < 0x4000_0000 {
            assert(m <= a + s);
        } else {
            assert(0x8000_0000int % 128 == 0);
            assert(m <= 0x8000_0000) by (nonlinear_arith)
                requires
                    s == 128,
                    a <= 0x8000_0000,
                    q == a / s,
                    r == a % s,
                    m == q * s || (m == (q + 1) * s && r > 0),
            ;
        }
    }
    if neg {
        -m
    } else {
        m
    }
}

/// The weight an instance reports for its `wght` coordinate: the
/// single-precision value truncated towards zero and saturated into `u16`.
pub open spec fn spec_coord_weight(coord: i32) -> u16 {
    let f = f32_round(coord as int);
    if f <= 0 {
        0
    } else {
        (f / 65536) as u16
    }
}

pub fn coord_weight(coord: i32) -> (w: u16)
    ensures
        w == spec_coord_weight(coord),
{
    let f = rounded_coord(coord);
    if f <= 0 {
        0
    } else {
        (f / 65536) as u16
    }
}

/// The `wdth` percentages of the nine OS/2 width classes, times 65536:
/// 50, 62.5, 75, 87.5, 100, 112.5, 125, 150 and 200.
pub open spec fn width_target(j: int) -> int {
    if j == 0 {
        3276800
    } else if j == 1 {
        4096000
    } else if j == 2 {
        4915200
    } else if j == 3 {
        5734400
    } else if j == 4 {
        6553600
    } else if j == 5 {
        7372800
    } else if j == 6 {
        8192000
    } else if j == 7 {
        9830400
    } else {
        13107200
    }
}

pub open spec fn width_distance(f: int, j: int) -> int {
    let d = f - width_target(j);
    if d < 0 {
        -d
    } else {
        d
    }
}

/// The index of the closest of the first `k` targets; the earliest wins a tie.
pub open spec fn closest_width(f: int, k: int) -> int
    decreases k,
{
    if k <= 1 {
        0
    } else {
        let prev = closest_width(f, k - 1);
        if width_distance(f, k - 1) < width_distance(f, prev) {
            k - 1
        } else {
            prev
        }
    }
}

/// The OS/2 width class (1-9) whose target is closest to the coordinate.
pub open spec fn spec_quantize_width(coord: i32) -> u8 {
    (closest_width(f32_round(coord as int), 9) + 1) as u8
}

proof fn lemma_closest_width(f: int, k: int)
    requires
        1 <= k <= 9,
    ensures
        0 <= closest_width(f, k) < k,
        forall|i: int|
            0 <= i < k ==> #[trigger] width_distance(f, i) >= width_distance(f, closest_width(f, k)),
        forall|i: int|
            0 <= i < closest_width(f, k) ==> #[trigger] width_distance(f, i) > width_distance(
                f,
                closest_width(f, k),
            ),
    decreases k,
{
    if k > 1 {
        lemma_closest_width(f, k - 1);
    }
}

/// Map a `wdth` coordinate onto the OS/2 width class (1-9): the class whose
/// percentage is closest wins, the narrower one on a tie.
pub fn quantize_width(coord: i32) -> (class: u8)
    ensures
        class == spec_quantize_width(coord),
        1 <= class <= 9,
        forall|i: int|
            0 <= i < 9 ==> #[trigger] width_distance(f32_round(coord as int), i) >= width_distance(
                f32_round(coord as int),
                class - 1,
            ),
        forall|i: int|
            0 <= i < class - 1 ==> #[trigger] width_distance(f32_round(coord as int), i) > width_distance(
                f32_round(coord as int),
                class - 1,
            ),
{
    let f = rounded_coord(coord);
    let targets: [i64; 9] = [
        3276800,
        4096000,
        4915200,
        5734400,
        6553600,
        7372800,
        8192000,
        9830400,
        13107200,
    ];
    assert(forall|j: int| 0 <= j < 9 ==> targets@[j] == width_target(j));
    let mut best: usize = 0;
    let mut best_diff: i64 = if f >= targets[0] {
        f - targets[0]
    } else {
        targets[0] - f
    };
    for j in 1..9
        invariant
            -0x8000_0000 <= f <= 0x8000_0000,
            forall|i: int| 0 <= i < 9 ==> targets@[i] == width_target(i),
            best as int == closest_width(f as int, j as int),
            best_diff as int == width_distance(f as int, best as int),
    {
        assert(targets@[j as int] == width_target(j as int));
        assert(0 < targets@[j as int] < 20000000);
        let d = if f >= targets[j] {
            f - targets[j]
        } else {
            targets[j] - f
        };
        if d < best_diff {
            best_diff = d;
            best = j;
        }
    }
    proof {
        lemma_closest_width(f as int, 9);
    }
    (best + 1) as u8
}


/// Where the binade of a magnitude starts (0 for the first, whose spacing is 1).
pub open spec fn binade_start(a: int) -> int {
    if a < 0x100_0000 {
        0
    } else if a < 0x200_0000 {
        0x100_0000
    } else if a < 0x400_0000 {
        0x200_0000
    } else if a < 0x800_0000 {
        0x400_0000
    } else if a < 0x1000_0000 {
        0x800_0000
    } else if a < 0x2000_0000 {
        0x1000_0000
    } else if a < 0x4000_0000 {
        0x2000_0000
    } else {
        0x4000_0000
    }
}

proof fn lemma_round_to_same_spacing(a: int, b: int, s: int)
    requires
        0 <= a <= b,
        s >= 1,
    ensures
        0 <= round_to(a, s) <= round_to(b, s),
{
    let qa = a / s;
    let qb = b / s;
    let ra = a % s;
    let rb = b % s;
    assert(a == qa * s + ra && 0 <= ra < s) by (nonlinear_arith)
        requires
            s >= 1,
            qa == a / s,
            ra == a % s,
    ;
    assert(b == qb * s + rb && 0 <= rb < s) by (nonlinear_arith)
        requires
            s >= 1,
            qb == b / s,
            rb == b % s,
    ;
    assert(0 <= qa <= qb) by (nonlinear_arith)
        requires
            0 <= a <= b,
            s >= 1,
            qa == a / s,
            qb == b / s,
    ;
    assert(qa * s >= 0) by (nonlinear_arith)
        requires
            qa >= 0,
            s >= 1,
    ;
    if qa < qb {
        assert((qa + 1) * s <= qb * s) by (nonlinear_arith)
            requires
                qa + 1 <= qb,
                s >= 1,
        ;
        assert((qa + 1) * s == qa * s + s) by (nonlinear_arith);
        assert((qb + 1) * s == qb * s + s) by (nonlinear_arith);
        assert(round_to(a, s) <= (qa + 1) * s);
        assert(round_to(b, s) >= qb * s);
    } else {
        assert((qa + 1) * s == qa * s + s) by (nonlinear_arith);
        assert(ra <= rb);
    }
}

proof fn lemma_round_to_below(a: int, s: int, bound: int)
    requires
        0 <= a < bound,
        s >= 1,
        bound % s == 0,
    ensures
        round_to(a, s) <= bound,
{
    let q = a / s;
    let r = a % s;
    let k = bound / s;
    assert(a == q * s + r && 0 <= r < s && bound == k * s) by (nonlinear_arith)
        requires
            s >= 1,
            q == a / s,
            r == a % s,
            k == bound / s,
            bound % s == 0,
    ;
    assert(q + 1 <= k) by (nonlinear_arith)
        requires
            a == q * s + r,
            0 <= r,
            a < bound,
            bound == k * s,
            s >= 1,
    ;
    assert((q + 1) * s <= k * s && q * s <= (q + 1) * s) by (nonlinear_arith)
        requires
            q + 1 <= k,
            s >= 1,
    ;
}

proof fn lemma_round_to_above(b: int, s: int, bound: int)
    requires
        0 <= bound <= b,
        s >= 1,
        bound % s == 0,
    ensures
        round_to(b, s) >= bound,
{
    let q = b / s;
    let r = b % s;
    let k = bound / s;
    assert(b == q * s + r && 0 <= r < s && bound == k * s) by (nonlinear_arith)
        requires
            s >= 1,
            q == b / s,
            r == b % s,
            k == bound / s,
            bound % s == 0,
    ;
    assert(k <= q) by (nonlinear_arith)
        requires
            b == q * s + r,
            r < s,
            bound <= b,
            bound == k * s,
            s >= 1,
    ;
    assert(k * s <= q * s && q * s <= (q + 1) * s) by (nonlinear_arith)
        requires
            k <= q,
            s >= 1,
    ;
}

proof fn lemma_round_magnitude_monotone(a: int, b: int)
    requires
        0 <= a <= b <= 0x8000_0000,
    ensures
        0 <= round_magnitude(a) <= round_magnitude(b),
{
    let sa = f32_spacing(a);
    let sb = f32_spacing(b);
    if sa == sb {
        lemma_round_to_same_spacing(a, b, sa);
    } else {
        let bound = binade_start(b);
        assert(a < bound <= b);
        assert(bound % sa == 0 && bound % sb == 0);
        lemma_round_to_below(a, sa, bound);
        lemma_round_to_above(b, sb, bound);
        lemma_round_to_same_spacing(0, a, sa);
    }
}

proof fn lemma_f32_round_monotone(a: int, b: int)
    requires
        -0x8000_0000 <= a <= b <= 0x7FFF_FFFF,
    ensures
        f32_round(a) <= f32_round(b),
{
    if a >= 0 {
        lemma_round_magnitude_monotone(a, b);
    } else if b < 0 {
        lemma_round_magnitude_monotone(-b, -a);
    } else {
        lemma_round_magnitude_monotone(0, -a);
        lemma_round_magnitude_monotone(0, b);
    }
}

proof fn lemma_targets_increase(i: int, j: int)
    requires
        0 <= i < j < 9,
    ensures
        width_target(i) < width_target(j),
{
}

proof fn lemma_closest_width_monotone(f: int, g: int)
    requires
        f <= g,
    ensures
        closest_width(f, 9) <= closest_width(g, 9),
{
    lemma_closest_width(f, 9);
    lemma_closest_width(g, 9);
    let i = closest_width(f, 9);
    let j = closest_width(g, 9);
    if j < i {
        lemma_targets_increase(j, i);
        // At f the later target i is strictly closer than j, at g it is not.
        assert(width_distance(f, j) > width_distance(f, i));
        assert(width_distance(g, i) >= width_distance(g, j));
        assert(false);
    }
}

/// The width class never goes down as the `wdth` coordinate goes up.
pub proof fn width_class_is_monotone(a: i32, b: i32)
    requires
        a <= b,
    ensures
        spec_quantize_width(a) <= spec_quantize_width(b),
{
    lemma_f32_round_monotone(a as int, b as int);
    lemma_closest_width_monotone(f32_round(a as int), f32_round(b as int));
    lemma_closest_width(f32_round(a as int), 9);
    lemma_closest_width(f32_round(b as int), 9);
}

}
