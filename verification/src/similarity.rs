//! Pixel similarity: the Euclidean distance between colors, summed
//! over a rectangle and scaled.  Distances are irrational, so they are
//! carried in fixed point with 20 fractional bits; the final scaling
//! by 1/200 rounds once, to the nearest integer.
use vstd::prelude::*;

use crate::image::{image_wf, Image};
use crate::isl::{Color, Point};

verus! {

/// Fixed-point scale: distances carry `2^20` sub-integer steps.
pub const FP_ONE: u64 = 1048576;

/// `2^40`, the square of the fixed-point scale.
pub const FP_SQ: u64 = 1099511627776;

/// The similarity divisor: a raw distance sum is divided by `200 *
/// 2^20` (the 0.005 factor of the scoring rule, in fixed point).
pub const SIM_DEN: u64 = 209715200;

/// Sum of squared channel differences between two colors.
pub open spec fn sq_dist(a: Color, b: Color) -> int {
    (a.r - b.r) * (a.r - b.r) + (a.g - b.g) * (a.g - b.g) + (a.b - b.b) * (a.b - b.b) + (a.a - b.a)
        * (a.a - b.a)
}

/// `s` is the integer square root of `n`.
pub open spec fn is_sqrt_of(n: int, s: int) -> bool {
    &&& 0 <= s
    &&& s * s <= n
    &&& n < (s + 1) * (s + 1)
}

/// The integer square root (of a nonnegative argument).
pub open spec fn sqrt_floor(n: int) -> int {
    choose|s: int| is_sqrt_of(n, s)
}

pub proof fn lemma_sqrt_of_unique(n: int, s1: int, s2: int)
    requires
        is_sqrt_of(n, s1),
        is_sqrt_of(n, s2),
    ensures
        s1 == s2,
{
    if s1 < s2 {
        assert((s1 + 1) * (s1 + 1) <= s2 * s2) by (nonlinear_arith)
            requires
                0 <= s1,
                s1 + 1 <= s2,
        ;
    }
    if s2 < s1 {
        assert((s2 + 1) * (s2 + 1) <= s1 * s1) by (nonlinear_arith)
            requires
                0 <= s2,
                s2 + 1 <= s1,
        ;
    }
}

/// Binary-search integer square root.
pub fn isqrt(n: u64) -> (s: u64)
    requires
        n <= 0x400000000000000,
    ensures
        is_sqrt_of(n as int, s as int),
        s == sqrt_floor(n as int),
        s <= 0x20000000,
{
    let mut lo: u64 = 0;
    let mut hi: u64 = 0x20000001;
    proof {
        assert((0x20000001int) * (0x20000001int) > 0x400000000000000int) by (nonlinear_arith);
    }
    while lo + 1 < hi
        invariant
            0 <= lo < hi <= 0x20000001,
            lo * lo <= n,
            n < hi * hi,
        decreases hi - lo,
    {
        let mid = lo + (hi - lo) / 2;
        proof {
            assert(lo < mid < hi);
            assert(mid * mid <= 0x20000001int * 0x20000001int) by (nonlinear_arith)
                requires
                    0 <= mid <= 0x20000001,
            ;
            assert(0x20000001int * 0x20000001int < 0x8000000000000000int) by (nonlinear_arith);
        }
        if mid * mid <= n {
            lo = mid;
        } else {
            hi = mid;
        }
    }
    proof {
        assert(hi == lo + 1);
        assert(is_sqrt_of(n as int, lo as int));
        let c = sqrt_floor(n as int);
        assert(is_sqrt_of(n as int, c)) by {
            assert(exists|s: int| is_sqrt_of(n as int, s)) by {
                assert(is_sqrt_of(n as int, lo as int));
            }
        }
        lemma_sqrt_of_unique(n as int, lo as int, c);
    }
    lo
}

/// The distance between two colors, in fixed point: the integer part
/// of `2^20 * sqrt(sq_dist)`.
pub open spec fn pixel_dist(a: Color, b: Color) -> int {
    sqrt_floor(sq_dist(a, b) * FP_SQ)
}

/// Every color channel handled here lies in `[-1, 255]`.
pub open spec fn chan_wf(c: Color) -> bool {
    &&& -1 <= c.r <= 255
    &&& -1 <= c.g <= 255
    &&& -1 <= c.b <= 255
    &&& -1 <= c.a <= 255
}

/// A pixel distance never exceeds `512 * 2^20`.
pub proof fn lemma_pixel_dist_bounds(a: Color, b: Color)
    requires
        chan_wf(a),
        chan_wf(b),
    ensures
        0 <= pixel_dist(a, b) <= 512 * FP_ONE,
        is_sqrt_of(sq_dist(a, b) * FP_SQ, pixel_dist(a, b)),
{
    lemma_sq_dist_bounds(a, b);
    assert(0 <= sq_dist(a, b) * FP_SQ <= 262144 * FP_SQ) by (nonlinear_arith)
        requires
            0 <= sq_dist(a, b) <= 262144,
    ;
    let n = sq_dist(a, b) * FP_SQ;
    lemma_sqrt_exists(n);
    let s = sqrt_floor(n);
    assert(is_sqrt_of(n, s));
    assert(s <= 512 * FP_ONE) by (nonlinear_arith)
        requires
            is_sqrt_of(n, s),
            n <= 262144 * FP_SQ,
            262144 * FP_SQ == (512 * FP_ONE) * (512 * FP_ONE),
    ;
    assert(262144 * FP_SQ == (512 * FP_ONE) * (512 * FP_ONE)) by (nonlinear_arith);
}

pub proof fn lemma_sq_dist_bounds(a: Color, b: Color)
    requires
        chan_wf(a),
        chan_wf(b),
    ensures
        0 <= sq_dist(a, b) <= 262144,
        0 <= (a.r - b.r) * (a.r - b.r) <= 65536,
        0 <= (a.g - b.g) * (a.g - b.g) <= 65536,
        0 <= (a.b - b.b) * (a.b - b.b) <= 65536,
        0 <= (a.a - b.a) * (a.a - b.a) <= 65536,
{
    assert(0 <= (a.r - b.r) * (a.r - b.r) <= 65536) by (nonlinear_arith)
        requires
            -256 <= a.r - b.r <= 256,
    ;
    assert(0 <= (a.g - b.g) * (a.g - b.g) <= 65536) by (nonlinear_arith)
        requires
            -256 <= a.g - b.g <= 256,
    ;
    assert(0 <= (a.b - b.b) * (a.b - b.b) <= 65536) by (nonlinear_arith)
        requires
            -256 <= a.b - b.b <= 256,
    ;
    assert(0 <= (a.a - b.a) * (a.a - b.a) <= 65536) by (nonlinear_arith)
        requires
            -256 <= a.a - b.a <= 256,
    ;
}

/// Every nonnegative integer has an integer square root.
pub proof fn lemma_sqrt_exists(n: int)
    requires
        0 <= n,
    ensures
        is_sqrt_of(n, sqrt_floor(n)),
    decreases n,
{
    if n == 0 {
        assert(is_sqrt_of(0, 0));
    } else {
        lemma_sqrt_exists(n - 1);
        let s = sqrt_floor(n - 1);
        assert(is_sqrt_of(n - 1, s));
        if n < (s + 1) * (s + 1) {
            assert(is_sqrt_of(n, s));
        } else {
            assert(n == (s + 1) * (s + 1));
            assert(is_sqrt_of(n, s + 1)) by (nonlinear_arith)
                requires
                    n == (s + 1) * (s + 1),
                    0 <= s,
            ;
        }
    }
    assert(exists|s: int| is_sqrt_of(n, s));
}

/// Executable fixed-point color distance.
pub fn color_dist(a: Color, b: Color) -> (r: u64)
    requires
        chan_wf(a),
        chan_wf(b),
    ensures
        r == pixel_dist(a, b),
        0 <= r <= 512 * FP_ONE,
{
    let dr = (a.r - b.r) as i64;
    let dg = (a.g - b.g) as i64;
    let db = (a.b - b.b) as i64;
    let da = (a.a - b.a) as i64;
    proof {
        lemma_sq_dist_bounds(a, b);
        lemma_pixel_dist_bounds(a, b);
    }
    let sq = (dr * dr + dg * dg + db * db + da * da) as u64;
    let n = sq * FP_SQ;
    proof {
        assert(sq * FP_SQ <= 262144 * FP_SQ) by (nonlinear_arith)
            requires
                0 <= sq <= 262144,
        ;
        assert(262144 * FP_SQ <= 0x400000000000000int) by (nonlinear_arith);
    }
    let s = isqrt(n);
    proof {
        lemma_sqrt_of_unique(n as int, s as int, pixel_dist(a, b));
    }
    s
}

/// Scale a raw fixed-point distance sum to a similarity: multiply by
/// 0.005, round to the nearest integer (halves up).
pub open spec fn sim_round(t: int) -> int {
    (2 * t + SIM_DEN) / (2 * SIM_DEN as int)
}

/// Executable similarity rounding.
pub fn sim_round_exec(t: u64) -> (r: i64)
    requires
        t <= 0x40000000000000,
    ensures
        r == sim_round(t as int),
        0 <= r <= t + SIM_DEN,
{
    let r = (2 * t + SIM_DEN) / (2 * SIM_DEN);
    proof {
        vstd::arithmetic::div_mod::lemma_div_is_ordered(
            0,
            (2 * t + SIM_DEN) as int,
            2 * SIM_DEN as int,
        );
        vstd::arithmetic::div_mod::lemma_div_is_ordered_by_denominator(
            (2 * t + SIM_DEN) as int,
            2,
            2 * SIM_DEN as int,
        );
    }
    r as i64
}

/// Splitting a distance sum in two and rounding each part changes the
/// rounded total by at most one.  This bounds the drift of any
/// incremental rescoring that subtracts one rectangle's similarity and
/// adds another's.
pub proof fn lemma_sim_round_split(a: int, b: int)
    requires
        0 <= a,
        0 <= b,
    ensures
        sim_round(a) + sim_round(b) - 1 <= sim_round(a + b) <= sim_round(a) + sim_round(b) + 1,
{
    let d = 2 * SIM_DEN as int;
    let h = SIM_DEN as int;
    let xa = 2 * a + h;
    let xb = 2 * b + h;
    let xc = 2 * (a + b) + h;
    vstd::arithmetic::div_mod::lemma_fundamental_div_mod(xa, d);
    vstd::arithmetic::div_mod::lemma_fundamental_div_mod(xb, d);
    vstd::arithmetic::div_mod::lemma_fundamental_div_mod(xc, d);
    let qa = xa / d;
    let qb = xb / d;
    let qc = xc / d;
    let ra = xa % d;
    let rb = xb % d;
    let rc = xc % d;
    assert(0 <= ra < d) by {
        vstd::arithmetic::div_mod::lemma_mod_bound(xa, d);
    }
    assert(0 <= rb < d) by {
        vstd::arithmetic::div_mod::lemma_mod_bound(xb, d);
    }
    assert(0 <= rc < d) by {
        vstd::arithmetic::div_mod::lemma_mod_bound(xc, d);
    }
    // xa + xb - xc == h, so d*(qa + qb - qc) == h - ra - rb + rc
    assert(d * (qa + qb - qc) == h - ra - rb + rc) by (nonlinear_arith)
        requires
            xa == d * qa + ra,
            xb == d * qb + rb,
            xc == d * qc + rc,
            xa + xb - xc == h,
    ;
    let k = qa + qb - qc;
    assert(-(2 * d) + 1 + h - d < d * k < h + d);
    assert(-1 <= k <= 1) by (nonlinear_arith)
        requires
            d == 2 * SIM_DEN as int,
            -(3 * h) <= d * k <= 3 * h,
            d == 2 * h,
    ;
}

/// Raw distance between a solid color and the target over the
/// rectangle `[x0, x1) x [y0, y1)`: one row at a time.
pub open spec fn row_dist_color(c: Color, row: Seq<Color>, x0: int, x1: int) -> int
    decreases x1 - x0,
{
    if x0 >= x1 {
        0
    } else {
        pixel_dist(c, row[x0]) + row_dist_color(c, row, x0 + 1, x1)
    }
}

pub open spec fn rect_dist_color(
    c: Color,
    img: Seq<Seq<Color>>,
    x0: int,
    x1: int,
    y0: int,
    y1: int,
) -> int
    decreases y1 - y0,
{
    if y0 >= y1 {
        0
    } else {
        row_dist_color(c, img[y0], x0, x1) + rect_dist_color(c, img, x0, x1, y0 + 1, y1)
    }
}

/// Raw distance between two images over the rectangle
/// `[x0, x1) x [y0, y1)`.
pub open spec fn row_dist(cur: Seq<Color>, tgt: Seq<Color>, x0: int, x1: int) -> int
    decreases x1 - x0,
{
    if x0 >= x1 {
        0
    } else {
        pixel_dist(cur[x0], tgt[x0]) + row_dist(cur, tgt, x0 + 1, x1)
    }
}

pub open spec fn rect_dist(
    cur: Seq<Seq<Color>>,
    tgt: Seq<Seq<Color>>,
    x0: int,
    x1: int,
    y0: int,
    y1: int,
) -> int
    decreases y1 - y0,
{
    if y0 >= y1 {
        0
    } else {
        row_dist(cur[y0], tgt[y0], x0, x1) + rect_dist(cur, tgt, x0, x1, y0 + 1, y1)
    }
}

pub proof fn lemma_row_dist_color_snoc(c: Color, row: Seq<Color>, x0: int, x: int)
    requires
        x0 <= x,
    ensures
        row_dist_color(c, row, x0, x + 1) == row_dist_color(c, row, x0, x) + pixel_dist(c, row[x]),
    decreases x - x0,
{
    if x0 < x {
        lemma_row_dist_color_snoc(c, row, x0 + 1, x);
    } else {
        assert(row_dist_color(c, row, x + 1, x + 1) == 0);
    }
}

pub proof fn lemma_rect_dist_color_snoc(
    c: Color,
    img: Seq<Seq<Color>>,
    x0: int,
    x1: int,
    y0: int,
    y: int,
)
    requires
        y0 <= y,
    ensures
        rect_dist_color(c, img, x0, x1, y0, y + 1) == rect_dist_color(c, img, x0, x1, y0, y)
            + row_dist_color(c, img[y], x0, x1),
    decreases y - y0,
{
    if y0 < y {
        lemma_rect_dist_color_snoc(c, img, x0, x1, y0 + 1, y);
    } else {
        assert(rect_dist_color(c, img, x0, x1, y + 1, y + 1) == 0);
    }
}

pub proof fn lemma_row_dist_snoc(cur: Seq<Color>, tgt: Seq<Color>, x0: int, x: int)
    requires
        x0 <= x,
    ensures
        row_dist(cur, tgt, x0, x + 1) == row_dist(cur, tgt, x0, x) + pixel_dist(cur[x], tgt[x]),
    decreases x - x0,
{
    if x0 < x {
        lemma_row_dist_snoc(cur, tgt, x0 + 1, x);
    } else {
        assert(row_dist(cur, tgt, x + 1, x + 1) == 0);
    }
}

pub proof fn lemma_rect_dist_snoc(
    cur: Seq<Seq<Color>>,
    tgt: Seq<Seq<Color>>,
    x0: int,
    x1: int,
    y0: int,
    y: int,
)
    requires
        y0 <= y,
    ensures
        rect_dist(cur, tgt, x0, x1, y0, y + 1) == rect_dist(cur, tgt, x0, x1, y0, y) + row_dist(
            cur[y],
            tgt[y],
            x0,
            x1,
        ),
    decreases y - y0,
{
    if y0 < y {
        lemma_rect_dist_snoc(cur, tgt, x0, x1, y0 + 1, y);
    } else {
        assert(rect_dist(cur, tgt, x0, x1, y + 1, y + 1) == 0);
    }
}

pub proof fn lemma_row_dist_color_bounds(c: Color, row: Seq<Color>, x0: int, x1: int)
    requires
        chan_wf(c),
        0 <= x0,
        x1 <= row.len(),
        forall|x: int| 0 <= x < row.len() ==> (#[trigger] row[x]).is_valid(),
    ensures
        0 <= row_dist_color(c, row, x0, x1),
        x0 <= x1 ==> row_dist_color(c, row, x0, x1) <= (x1 - x0) * (512 * FP_ONE),
    decreases x1 - x0,
{
    if x0 < x1 {
        lemma_row_dist_color_bounds(c, row, x0 + 1, x1);
        lemma_pixel_dist_bounds(c, row[x0]);
        assert((x1 - x0) * (512 * FP_ONE) == 512 * FP_ONE + (x1 - x0 - 1) * (512 * FP_ONE))
            by (nonlinear_arith);
    }
}

pub proof fn lemma_rect_dist_color_bounds(
    c: Color,
    img: Seq<Seq<Color>>,
    x0: int,
    x1: int,
    y0: int,
    y1: int,
)
    requires
        chan_wf(c),
        image_wf(img),
        0 <= x0,
        x1 <= img[0].len(),
        0 <= y0,
        y1 <= img.len(),
    ensures
        0 <= rect_dist_color(c, img, x0, x1, y0, y1),
        y0 <= y1 && x0 <= x1 ==> rect_dist_color(c, img, x0, x1, y0, y1) <= (y1 - y0) * (x1 - x0) * (
        512 * FP_ONE),
    decreases y1 - y0,
{
    if y0 < y1 {
        lemma_row_dist_color_bounds(c, img[y0], x0, x1);
        lemma_rect_dist_color_bounds(c, img, x0, x1, y0 + 1, y1);
        if x0 <= x1 {
            assert((y1 - y0) * (x1 - x0) * (512 * FP_ONE) == (x1 - x0) * (512 * FP_ONE) + (y1 - y0
                - 1) * (x1 - x0) * (512 * FP_ONE)) by (nonlinear_arith);
        }
    }
}

pub proof fn lemma_row_dist_bounds(cur: Seq<Color>, tgt: Seq<Color>, x0: int, x1: int)
    requires
        0 <= x0,
        x1 <= cur.len(),
        x1 <= tgt.len(),
        forall|x: int| 0 <= x < cur.len() ==> (#[trigger] cur[x]).is_valid(),
        forall|x: int| 0 <= x < tgt.len() ==> (#[trigger] tgt[x]).is_valid(),
    ensures
        0 <= row_dist(cur, tgt, x0, x1),
        x0 <= x1 ==> row_dist(cur, tgt, x0, x1) <= (x1 - x0) * (512 * FP_ONE),
    decreases x1 - x0,
{
    if x0 < x1 {
        lemma_row_dist_bounds(cur, tgt, x0 + 1, x1);
        lemma_pixel_dist_bounds(cur[x0], tgt[x0]);
        assert((x1 - x0) * (512 * FP_ONE) == 512 * FP_ONE + (x1 - x0 - 1) * (512 * FP_ONE))
            by (nonlinear_arith);
    }
}

pub proof fn lemma_rect_dist_bounds(
    cur: Seq<Seq<Color>>,
    tgt: Seq<Seq<Color>>,
    x0: int,
    x1: int,
    y0: int,
    y1: int,
)
    requires
        image_wf(cur),
        image_wf(tgt),
        cur.len() == tgt.len(),
        cur[0].len() == tgt[0].len(),
        0 <= x0,
        x1 <= cur[0].len(),
        0 <= y0,
        y1 <= cur.len(),
    ensures
        0 <= rect_dist(cur, tgt, x0, x1, y0, y1),
        y0 <= y1 && x0 <= x1 ==> rect_dist(cur, tgt, x0, x1, y0, y1) <= (y1 - y0) * (x1 - x0) * (512
            * FP_ONE),
    decreases y1 - y0,
{
    if y0 < y1 {
        lemma_row_dist_bounds(cur[y0], tgt[y0], x0, x1);
        lemma_rect_dist_bounds(cur, tgt, x0, x1, y0 + 1, y1);
        if x0 <= x1 {
            assert((y1 - y0) * (x1 - x0) * (512 * FP_ONE) == (x1 - x0) * (512 * FP_ONE) + (y1 - y0
                - 1) * (x1 - x0) * (512 * FP_ONE)) by (nonlinear_arith);
        }
    }
}

/// The raw fixed-point distance between a solid color and the target
/// over a clipped rectangle, as an executable sum.
pub fn raw_dist_one_color(
    x0: usize,
    x1: usize,
    y0: usize,
    y1: usize,
    color: Color,
    target: &Image,
) -> (r: u64)
    requires
        target.wf(),
        chan_wf(color),
        x1 <= target@[0].len(),
        y1 <= target@.len(),
    ensures
        r == rect_dist_color(color, target@, x0 as int, x1 as int, y0 as int, y1 as int),
        r <= 0x40000000000000,
{
    let ghost img = target@;
    proof {
        lemma_rect_dist_color_bounds(color, img, x0 as int, x1 as int, y0 as int, y1 as int);
        lemma_area_dist_cap(img.len() as int, img[0].len() as int, y1 - y0, x1 - x0);
    }
    if x0 >= x1 || y0 >= y1 {
        proof {
            lemma_rect_dist_color_empty(color, img, x0 as int, x1 as int, y0 as int, y1 as int);
        }
        return 0;
    }
    let mut sum: u64 = 0;
    let mut y: usize = y0;
    while y < y1
        invariant
            y0 <= y <= y1,
            img == target@,
            target.wf(),
            chan_wf(color),
            x0 < x1,
            x1 <= img[0].len(),
            y1 <= img.len(),
            sum == rect_dist_color(color, img, x0 as int, x1 as int, y0 as int, y as int),
            sum <= (y - y0) * (x1 - x0) * (512 * FP_ONE),
            (y1 - y0) * (x1 - x0) * (512 * FP_ONE) <= 0x40000000000000,
        decreases y1 - y,
    {
        let mut row_sum: u64 = 0;
        let mut x: usize = x0;
        while x < x1
            invariant
                x0 <= x <= x1,
                img == target@,
                target.wf(),
                chan_wf(color),
                x1 <= img[0].len(),
                y1 <= img.len(),
                y0 <= y < y1,
                row_sum == row_dist_color(color, img[y as int], x0 as int, x as int),
                row_sum <= (x - x0) * (512 * FP_ONE),
            decreases x1 - x,
        {
            proof {
                assert(img[y as int].len() == img[0].len());
                assert(img[y as int][x as int].is_valid());
            }
            let d = color_dist(color, target.pixel(x, y));
            proof {
                lemma_row_dist_color_snoc(color, img[y as int], x0 as int, x as int);
                assert((x + 1 - x0) * (512 * FP_ONE) == (x - x0) * (512 * FP_ONE) + 512 * FP_ONE)
                    by (nonlinear_arith);
                assert((x - x0) * (512 * FP_ONE) <= 0x8000 * (512 * FP_ONE)) by (nonlinear_arith)
                    requires
                        0 <= x - x0 <= 0x8000,
                ;
            }
            row_sum = row_sum + d;
            x = x + 1;
        }
        proof {
            lemma_rect_dist_color_snoc(color, img, x0 as int, x1 as int, y0 as int, y as int);
            lemma_rect_dist_color_bounds(color, img, x0 as int, x1 as int, y0 as int, y + 1);
            lemma_area_dist_cap(img.len() as int, img[0].len() as int, y + 1 - y0, x1 - x0);
        }
        sum = sum + row_sum;
        y = y + 1;
    }
    sum
}

/// The raw fixed-point distance between two equal-sized images over a
/// rectangle.
pub fn raw_dist_images(
    x0: usize,
    x1: usize,
    y0: usize,
    y1: usize,
    current: &Image,
    target: &Image,
) -> (r: u64)
    requires
        current.wf(),
        target.wf(),
        current@.len() == target@.len(),
        current@[0].len() == target@[0].len(),
        x1 <= target@[0].len(),
        y1 <= target@.len(),
    ensures
        r == rect_dist(current@, target@, x0 as int, x1 as int, y0 as int, y1 as int),
        r <= 0x40000000000000,
{
    let ghost cur = current@;
    let ghost img = target@;
    proof {
        lemma_rect_dist_bounds(cur, img, x0 as int, x1 as int, y0 as int, y1 as int);
        lemma_area_dist_cap(img.len() as int, img[0].len() as int, y1 - y0, x1 - x0);
    }
    if x0 >= x1 || y0 >= y1 {
        proof {
            lemma_rect_dist_empty(cur, img, x0 as int, x1 as int, y0 as int, y1 as int);
        }
        return 0;
    }
    let mut sum: u64 = 0;
    let mut y: usize = y0;
    while y < y1
        invariant
            y0 <= y <= y1,
            cur == current@,
            img == target@,
            current.wf(),
            target.wf(),
            cur.len() == img.len(),
            cur[0].len() == img[0].len(),
            x0 < x1,
            x1 <= img[0].len(),
            y1 <= img.len(),
            sum == rect_dist(cur, img, x0 as int, x1 as int, y0 as int, y as int),
            sum <= (y - y0) * (x1 - x0) * (512 * FP_ONE),
            (y1 - y0) * (x1 - x0) * (512 * FP_ONE) <= 0x40000000000000,
        decreases y1 - y,
    {
        let mut row_sum: u64 = 0;
        let mut x: usize = x0;
        while x < x1
            invariant
                x0 <= x <= x1,
                cur == current@,
                img == target@,
                current.wf(),
                target.wf(),
                cur.len() == img.len(),
                cur[0].len() == img[0].len(),
                x1 <= img[0].len(),
                y1 <= img.len(),
                y0 <= y < y1,
                row_sum == row_dist(cur[y as int], img[y as int], x0 as int, x as int),
                row_sum <= (x - x0) * (512 * FP_ONE),
            decreases x1 - x,
        {
            proof {
                assert(img[y as int].len() == img[0].len());
                assert(cur[y as int].len() == cur[0].len());
                assert(img[y as int][x as int].is_valid());
                assert(cur[y as int][x as int].is_valid());
            }
            let d = color_dist(current.pixel(x, y), target.pixel(x, y));
            proof {
                lemma_row_dist_snoc(cur[y as int], img[y as int], x0 as int, x as int);
                assert((x + 1 - x0) * (512 * FP_ONE) == (x - x0) * (512 * FP_ONE) + 512 * FP_ONE)
                    by (nonlinear_arith);
                assert((x - x0) * (512 * FP_ONE) <= 0x8000 * (512 * FP_ONE)) by (nonlinear_arith)
                    requires
                        0 <= x - x0 <= 0x8000,
                ;
            }
            row_sum = row_sum + d;
            x = x + 1;
        }
        proof {
            lemma_rect_dist_snoc(cur, img, x0 as int, x1 as int, y0 as int, y as int);
            lemma_rect_dist_bounds(cur, img, x0 as int, x1 as int, y0 as int, y + 1);
            lemma_area_dist_cap(img.len() as int, img[0].len() as int, y + 1 - y0, x1 - x0);
        }
        sum = sum + row_sum;
        y = y + 1;
    }
    sum
}

/// Any rectangle inside an image keeps the raw distance sum under
/// `2^54`.
proof fn lemma_area_dist_cap(h: int, w: int, dy: int, dx: int)
    requires
        1 <= h,
        1 <= w,
        h * w <= crate::image::MAX_IMAGE_AREA,
        dy <= h,
        dx <= w,
    ensures
        dy >= 0 && dx >= 0 ==> dy * dx * (512 * FP_ONE) <= 0x40000000000000,
{
    if dy >= 0 && dx >= 0 {
        assert(dy * dx <= h * w) by (nonlinear_arith)
            requires
                0 <= dy <= h,
                0 <= dx <= w,
                1 <= h,
                1 <= w,
        ;
        assert(dy * dx * (512 * FP_ONE) <= (crate::image::MAX_IMAGE_AREA as int) * (512 * FP_ONE))
            by (nonlinear_arith)
            requires
                0 <= dy * dx <= crate::image::MAX_IMAGE_AREA,
        ;
        assert((crate::image::MAX_IMAGE_AREA as int) * (512 * FP_ONE) <= 0x40000000000000)
            by (nonlinear_arith);
    }
}

/// Similarity of a solid `color` against the target over the rectangle
/// at `p` of extent `size`, clipped to the image.
pub fn calc_partial_one_color_similarity(
    p: Point,
    size: Point,
    color: Color,
    target_image: &Image,
) -> (r: i64)
    requires
        target_image.wf(),
        chan_wf(color),
        0 <= p.x,
        0 <= p.y,
        0 <= size.x,
        0 <= size.y,
        p.x + size.x <= crate::isl::MAX_COORD,
        p.y + size.y <= crate::isl::MAX_COORD,
    ensures
        ({
            let w = target_image@[0].len() as int;
            let h = target_image@.len() as int;
            let x1 = if p.x + size.x <= w {
                p.x + size.x
            } else {
                w
            };
            let y1 = if p.y + size.y <= h {
                p.y + size.y
            } else {
                h
            };
            r == sim_round(rect_dist_color(color, target_image@, p.x as int, x1, p.y as int, y1))
        }),
        0 <= r <= 0x40000000000000 + SIM_DEN,
{
    let w = target_image.width();
    let h = target_image.height();
    let xe = p.x as usize + size.x as usize;
    let ye = p.y as usize + size.y as usize;
    let x1 = if xe <= w {
        xe
    } else {
        w
    };
    let y1 = if ye <= h {
        ye
    } else {
        h
    };
    let x0 = if p.x as usize <= x1 {
        p.x as usize
    } else {
        x1
    };
    let y0 = if p.y as usize <= y1 {
        p.y as usize
    } else {
        y1
    };
    let raw = raw_dist_one_color(x0, x1, y0, y1, color, target_image);
    proof {
        if p.x as int > x1 as int || p.y as int > y1 as int {
            lemma_rect_dist_color_empty(
                color,
                target_image@,
                p.x as int,
                x1 as int,
                p.y as int,
                y1 as int,
            );
            lemma_rect_dist_color_empty(
                color,
                target_image@,
                x0 as int,
                x1 as int,
                y0 as int,
                y1 as int,
            );
        }
    }
    sim_round_exec(raw)
}

/// An empty rectangle has distance zero, whichever way it is empty.
pub proof fn lemma_rect_dist_color_empty(
    c: Color,
    img: Seq<Seq<Color>>,
    x0: int,
    x1: int,
    y0: int,
    y1: int,
)
    requires
        x0 >= x1 || y0 >= y1,
    ensures
        rect_dist_color(c, img, x0, x1, y0, y1) == 0,
    decreases y1 - y0,
{
    if y0 < y1 {
        lemma_row_dist_color_empty(c, img[y0], x0, x1);
        lemma_rect_dist_color_empty(c, img, x0, x1, y0 + 1, y1);
    }
}

pub proof fn lemma_row_dist_color_empty(c: Color, row: Seq<Color>, x0: int, x1: int)
    requires
        x0 >= x1,
    ensures
        row_dist_color(c, row, x0, x1) == 0,
{
}

/// An empty rectangle between two images has distance zero.
pub proof fn lemma_rect_dist_empty(
    cur: Seq<Seq<Color>>,
    tgt: Seq<Seq<Color>>,
    x0: int,
    x1: int,
    y0: int,
    y1: int,
)
    requires
        x0 >= x1 || y0 >= y1,
    ensures
        rect_dist(cur, tgt, x0, x1, y0, y1) == 0,
    decreases y1 - y0,
{
    if y0 < y1 {
        lemma_rect_dist_empty(cur, tgt, x0, x1, y0 + 1, y1);
    }
}

/// Similarity between two equal-sized images over the rectangle at
/// `p` of extent `size` (which must lie inside the images).
pub fn calc_partial_image_similarity(
    p: Point,
    size: Point,
    current_image: &Image,
    target_image: &Image,
) -> (r: i64)
    requires
        current_image.wf(),
        target_image.wf(),
        current_image@.len() == target_image@.len(),
        current_image@[0].len() == target_image@[0].len(),
        0 <= p.x,
        0 <= p.y,
        0 <= size.x,
        0 <= size.y,
        p.x + size.x <= target_image@[0].len(),
        p.y + size.y <= target_image@.len(),
    ensures
        r == sim_round(
            rect_dist(
                current_image@,
                target_image@,
                p.x as int,
                p.x + size.x,
                p.y as int,
                p.y + size.y,
            ),
        ),
        0 <= r <= 0x40000000000000 + SIM_DEN,
{
    let x0 = p.x as usize;
    let y0 = p.y as usize;
    let x1 = x0 + size.x as usize;
    let y1 = y0 + size.y as usize;
    let raw = raw_dist_images(x0, x1, y0, y1, current_image, target_image);
    sim_round_exec(raw)
}

} // verus!
