use vstd::prelude::*;
use crate::canvas::{paint, colored, kept, reached, PixelCanvas};
use crate::color::Color;
use crate::polygon::{pixel, polygon_pixels, polygon_rect, polygon_bounds, scan_polygon};
use crate::rect::Rect;
use crate::vector::IntVec2;

verus! {

/// Stroke positions and widths are given in sub-pixel units: this many per pixel.
pub const SUBPIXEL: i64 = 256;

/// Largest magnitude of a stroke coordinate or width, in sub-pixel units.
pub const STROKE_LIMIT: i64 = 0x100_0000;


/// A control point of a variable-width stroke: position and stroke width there,
/// both in sub-pixel units.
#[derive(Debug, Clone, Copy, PartialEq, Eq, Structural)]
pub struct StrokePoint {
    pub pos: IntVec2,
    pub width: u32,
}

/// Floor division.
pub open spec fn fdiv(a: int, b: int) -> int
    recommends
        b > 0,
{
    a / b
}

/// The integer square root: the `r` with `r * r <= n < (r + 1) * (r + 1)`.
pub open spec fn isqrt(n: int) -> int
    recommends
        n >= 0,
{
    choose|r: int| 0 <= r && #[trigger] sq(r) <= n < sq(r + 1)
}

pub open spec fn sq(r: int) -> int {
    r * r
}

/// Sample `i` of `d + 1` along the quadratic curve, one coordinate.
pub open spec fn curve_coord(c0: int, c1: int, c2: int, i: int, d: int) -> int {
    fdiv((d - i) * (d - i) * c0 + 2 * (d - i) * i * c1 + i * i * c2, d * d)
}

/// The stroke width at sample `i`: from the start width to the control
/// width over the first half, then to the end width.
pub open spec fn sample_width(s: StrokePoint, m: StrokePoint, e: StrokePoint, i: int, d: int) -> int {
    if 2 * i < d {
        fdiv(s.width * (d - 2 * i) + 2 * m.width * i, d)
    } else {
        fdiv(2 * m.width * (d - i) + e.width * (2 * i - d), d)
    }
}

/// The curve's direction at sample `i`: its derivative, or the chord from the
/// end to the start where the derivative vanishes, or nothing.
pub open spec fn sample_direction(s: StrokePoint, m: StrokePoint, e: StrokePoint, i: int, d: int) -> (int, int) {
    let vx = (d - i) * (m.pos.x - s.pos.x) + i * (e.pos.x - m.pos.x);
    let vy = (d - i) * (m.pos.y - s.pos.y) + i * (e.pos.y - m.pos.y);
    if vx != 0 || vy != 0 {
        (vx, vy)
    } else {
        (s.pos.x - e.pos.x, s.pos.y - e.pos.y)
    }
}

/// The pixel half a stroke width to one side of sample `i`: the left side for
/// `side == 1`, the right side for `side == -1`, rounded to the nearest pixel.
pub open spec fn side_point(s: StrokePoint, m: StrokePoint, e: StrokePoint, i: int, d: int, side: int) -> IntVec2 {
    let (vx, vy) = sample_direction(s, m, e, i, d);
    let len = isqrt(vx * vx + vy * vy);
    let w = sample_width(s, m, e, i, d);
    let ox = if len == 0 { 0 } else { fdiv(-side * vy * w, 2 * len) };
    let oy = if len == 0 { 0 } else { fdiv(side * vx * w, 2 * len) };
    let px = curve_coord(s.pos.x as int, m.pos.x as int, e.pos.x as int, i, d);
    let py = curve_coord(s.pos.y as int, m.pos.y as int, e.pos.y as int, i, d);
    pixel(fdiv(px + ox + SUBPIXEL / 2, SUBPIXEL as int), fdiv(py + oy + SUBPIXEL / 2, SUBPIXEL as int))
}

/// `v` with runs of equal consecutive entries collapsed to one.
pub open spec fn dedup(v: Seq<IntVec2>) -> Seq<IntVec2>
    decreases v.len(),
{
    if v.len() == 0 {
        Seq::empty()
    } else {
        let d = dedup(v.drop_last());
        if d.len() > 0 && d.last() == v.last() { d } else { d.push(v.last()) }
    }
}

pub open spec fn side_points(s: StrokePoint, m: StrokePoint, e: StrokePoint, n: int, side: int) -> Seq<IntVec2> {
    Seq::new(n as nat, |i: int| side_point(s, m, e, i, n - 1, side))
}

/// The closed outline of the stroke: its left edge forward, then its right
/// edge backward. Fewer than two samples give no outline.
pub open spec fn stroke_outline(s: StrokePoint, m: StrokePoint, e: StrokePoint, n: int) -> Seq<IntVec2> {
    if n < 2 {
        Seq::empty()
    } else {
        dedup(side_points(s, m, e, n, 1)) + dedup(side_points(s, m, e, n, -1)).reverse()
    }
}

pub open spec fn stroke_fits(p: StrokePoint) -> bool {
    &&& -STROKE_LIMIT <= p.pos.x <= STROKE_LIMIT
    &&& -STROKE_LIMIT <= p.pos.y <= STROKE_LIMIT
    &&& p.width <= STROKE_LIMIT
}

proof fn lemma_isqrt_unique(n: int, r: int)
    requires
        0 <= r,
        r * r <= n < (r + 1) * (r + 1),
    ensures
        isqrt(n) == r,
{
    assert(0 <= r && sq(r) <= n < sq(r + 1));
    let q = isqrt(n);
    assert(0 <= q && q * q <= n < (q + 1) * (q + 1));
    if q < r {
        assert((q + 1) * (q + 1) <= r * r) by (nonlinear_arith) requires 0 <= q, q + 1 <= r;
    } else if q > r {
        assert((r + 1) * (r + 1) <= q * q) by (nonlinear_arith) requires 0 <= r, r + 1 <= q;
    }
}

/// Integer square root by bisection.
fn int_sqrt(n: u128) -> (r: u64)
    requires
        n < 0x100_0000_0000_0000_0000_0000_0000_0000,
    ensures
        r == isqrt(n as int),
        r < 0x1000_0000_0000_0000,
{
    let mut lo: u64 = 0;
    let mut hi: u64 = 0x1000_0000_0000_0000;
    proof {
        assert((hi as int) * (hi as int) > n);
    }
    while hi - lo > 1
        invariant
            lo < hi,
            hi <= 0x1000_0000_0000_0000,
            (lo as int) * (lo as int) <= n,
            (hi as int) * (hi as int) > n,
        decreases hi - lo,
    {
        let mid = lo + (hi - lo) / 2;
        proof {
            assert((mid as int) * (mid as int) <= 0x1000_0000_0000_0000 * 0x1000_0000_0000_0000) by (nonlinear_arith)
                requires mid <= 0x1000_0000_0000_0000;
        }
        if (mid as u128) * (mid as u128) <= n {
            lo = mid;
        } else {
            hi = mid;
        }
    }
    proof {
        lemma_isqrt_unique(n as int, lo as int);
    }
    lo
}

/// Floor division by a positive divisor.
fn div_floor(a: i128, b: i128) -> (q: i128)
    requires
        0 < b <= 0x100_0000_0000_0000_0000_0000_0000_0000,
        -0x100_0000_0000_0000_0000_0000_0000_0000 <= a <= 0x100_0000_0000_0000_0000_0000_0000_0000,
    ensures
        q == fdiv(a as int, b as int),
{
    if a >= 0 {
        a / b
    } else {
        let m = (-a + b - 1) / b;
        proof {
            let (ai, bi) = (a as int, b as int);
            let t = (-ai + bi - 1) / bi;
            let u = (-ai + bi - 1) % bi;
            vstd::arithmetic::div_mod::lemma_fundamental_div_mod(-ai + bi - 1, bi);
            assert(ai == (-t) * bi + (bi - 1 - u)) by (nonlinear_arith)
                requires -ai + bi - 1 == bi * t + u;
            vstd::arithmetic::div_mod::lemma_fundamental_div_mod_converse(ai, bi, -t, bi - 1 - u);
            assert(0 <= t <= -ai + bi) by (nonlinear_arith)
                requires -ai + bi - 1 == bi * t + u, 0 <= u < bi, bi > 0, -ai > 0;
        }
        -m
    }
}

proof fn lemma_mul_bound(a: int, b: int, ba: int, bb: int)
    requires
        -ba <= a <= ba,
        -bb <= b <= bb,
    ensures
        -(ba * bb) <= a * b <= ba * bb,
{
    assert(-(ba * bb) <= a * b <= ba * bb) by (nonlinear_arith)
        requires -ba <= a <= ba, -bb <= b <= bb;
}

proof fn lemma_fdiv_bound(a: int, b: int, ba: int)
    requires
        b >= 1,
        -ba <= a <= ba,
    ensures
        -ba <= fdiv(a, b) <= ba,
{
    vstd::arithmetic::div_mod::lemma_fundamental_div_mod(a, b);
    let q = a / b;
    let r = a % b;
    assert(a == b * q + r);
    assert(0 <= r < b);
    if q > 0 {
        assert(q <= b * q) by (nonlinear_arith) requires q > 0, b >= 1;
    } else if q < -ba {
        assert(b * q + b <= -ba) by (nonlinear_arith) requires q + 1 <= -ba, b >= 1, ba >= 0;
    }
}

/// Sample `i` along one coordinate of the curve.
fn compute_curve_coord(c0: i32, c1: i32, c2: i32, i: i64, d: i64) -> (v: i128)
    requires
        -STROKE_LIMIT <= c0 <= STROKE_LIMIT,
        -STROKE_LIMIT <= c1 <= STROKE_LIMIT,
        -STROKE_LIMIT <= c2 <= STROKE_LIMIT,
        1 <= d < 0x1_0000_0000,
        0 <= i <= d,
    ensures
        v == curve_coord(c0 as int, c1 as int, c2 as int, i as int, d as int),
        -0x400_0000_0000_0000_0000_0000 <= v <= 0x400_0000_0000_0000_0000_0000,
{
    let a: i128 = (d - i) as i128;
    let b: i128 = i as i128;
    proof {
        lemma_mul_bound((a) as int, (a) as int, 0x1_0000_0000, 0x1_0000_0000);
        lemma_mul_bound((a) as int, (b) as int, 0x1_0000_0000, 0x1_0000_0000);
        lemma_mul_bound((b) as int, (b) as int, 0x1_0000_0000, 0x1_0000_0000);
        lemma_mul_bound(d as int, d as int, 0x1_0000_0000, 0x1_0000_0000);
        lemma_mul_bound((a * a) as int, c0 as int, 0x1_0000_0000_0000_0000, 0x100_0000);
        lemma_mul_bound((2 * (a * b)) as int, c1 as int, 0x2_0000_0000_0000_0000, 0x100_0000);
        lemma_mul_bound((b * b) as int, c2 as int, 0x1_0000_0000_0000_0000, 0x100_0000);
        assert((d - i) * (d - i) * c0 == (a * a) * c0);
        assert(2 * (d - i) * i * c1 == (2 * (a * b)) * c1) by (nonlinear_arith)
            requires a == d - i, b == i;
        assert(i * i * c2 == (b * b) * c2);
        assert(d * d >= 1) by (nonlinear_arith) requires d >= 1;
    }
    let num = a * a * c0 as i128 + 2 * (a * b) * c1 as i128 + b * b * c2 as i128;
    proof {
        lemma_fdiv_bound(num as int, d * d, 0x400_0000_0000_0000_0000_0000);
    }
    div_floor(num, d as i128 * d as i128)
}

/// One side point of sample `i`, as `side_point` states it.
fn compute_side_point(s: StrokePoint, m: StrokePoint, e: StrokePoint, i: i64, d: i64, side: i64) -> (p: IntVec2)
    requires
        stroke_fits(s),
        stroke_fits(m),
        stroke_fits(e),
        1 <= d < 0x1_0000_0000,
        0 <= i <= d,
        side == 1 || side == -1,
    ensures
        p == side_point(s, m, e, i as int, d as int, side as int),
{
    let a: i128 = (d - i) as i128;
    let b: i128 = i as i128;
    let (sx, sy, mx, my, ex, ey) = (
        s.pos.x as i128,
        s.pos.y as i128,
        m.pos.x as i128,
        m.pos.y as i128,
        e.pos.x as i128,
        e.pos.y as i128,
    );
    proof {
        lemma_mul_bound((a) as int, (mx - sx) as int, 0x1_0000_0000, 0x200_0000);
        lemma_mul_bound((b) as int, (ex - mx) as int, 0x1_0000_0000, 0x200_0000);
        lemma_mul_bound((a) as int, (my - sy) as int, 0x1_0000_0000, 0x200_0000);
        lemma_mul_bound((b) as int, (ey - my) as int, 0x1_0000_0000, 0x200_0000);
    }
    let mut vx = a * (mx - sx) + b * (ex - mx);
    let mut vy = a * (my - sy) + b * (ey - my);
    if vx == 0 && vy == 0 {
        vx = sx - ex;
        vy = sy - ey;
    }
    proof {
        lemma_mul_bound((vx) as int, (vx) as int, 0x400_0000_0000_0000, 0x400_0000_0000_0000);
        lemma_mul_bound((vy) as int, (vy) as int, 0x400_0000_0000_0000, 0x400_0000_0000_0000);
        assert(vx * vx >= 0 && vy * vy >= 0) by (nonlinear_arith);
    }
    let len = int_sqrt((vx * vx + vy * vy) as u128) as i128;
    let (dw, sw, mw, ew) = (d as i128, s.width as i128, m.width as i128, e.width as i128);
    proof {
        lemma_mul_bound((sw) as int, (dw - 2 * b) as int, 0x100_0000, 0x1_0000_0000);
        lemma_mul_bound((2 * mw) as int, (b) as int, 0x200_0000, 0x1_0000_0000);
        lemma_mul_bound((2 * mw) as int, (dw - b) as int, 0x200_0000, 0x1_0000_0000);
        lemma_mul_bound((ew) as int, (2 * b - dw) as int, 0x100_0000, 0x1_0000_0000);
    }
    let wnum = if 2 * b < dw {
        sw * (dw - 2 * b) + 2 * mw * b
    } else {
        2 * mw * (dw - b) + ew * (2 * b - dw)
    };
    proof {
        lemma_fdiv_bound(wnum as int, dw as int, 0x400_0000_0000_0000);
        assert(2 * mw * b == (2 * mw) * b) by (nonlinear_arith);
        assert(2 * mw * (dw - b) == (2 * mw) * (dw - b)) by (nonlinear_arith);
    }
    let w = div_floor(wnum, dw);
    proof {
        lemma_mul_bound((vy) as int, (w) as int, 0x400_0000_0000_0000, 0x400_0000_0000_0000);
        lemma_mul_bound((vx) as int, (w) as int, 0x400_0000_0000_0000, 0x400_0000_0000_0000);
        assert(-side * vy * w == -side * (vy * w) && side * vx * w == side * (vx * w)) by (nonlinear_arith);
        assert(-0x10_0000_0000_0000_0000_0000_0000_0000 <= -side * (vy * w) <= 0x10_0000_0000_0000_0000_0000_0000_0000) by (nonlinear_arith)
            requires side == 1 || side == -1, -0x10_0000_0000_0000_0000_0000_0000_0000 <= vy * w <= 0x10_0000_0000_0000_0000_0000_0000_0000;
        assert(-0x10_0000_0000_0000_0000_0000_0000_0000 <= side * (vx * w) <= 0x10_0000_0000_0000_0000_0000_0000_0000) by (nonlinear_arith)
            requires side == 1 || side == -1, -0x10_0000_0000_0000_0000_0000_0000_0000 <= vx * w <= 0x10_0000_0000_0000_0000_0000_0000_0000;
    }
    let (ox, oy) = if len == 0 {
        (0i128, 0i128)
    } else {
        proof {
            lemma_fdiv_bound((-side * (vy * w)) as int, 2 * len, 0x10_0000_0000_0000_0000_0000_0000_0000);
            lemma_fdiv_bound((side * (vx * w)) as int, 2 * len, 0x10_0000_0000_0000_0000_0000_0000_0000);
        }
        (div_floor(-(side as i128) * (vy * w), 2 * len), div_floor(side as i128 * (vx * w), 2 * len))
    };
    let px = compute_curve_coord(s.pos.x, m.pos.x, e.pos.x, i, d);
    let py = compute_curve_coord(s.pos.y, m.pos.y, e.pos.y, i, d);
    let qx = div_floor(px + ox + (SUBPIXEL / 2) as i128, SUBPIXEL as i128);
    let qy = div_floor(py + oy + (SUBPIXEL / 2) as i128, SUBPIXEL as i128);
    IntVec2 { x: #[verifier::truncate] (qx as i32), y: #[verifier::truncate] (qy as i32) }
}

/// Appends `p` unless it repeats the last entry.
fn push_distinct(v: &mut Vec<IntVec2>, p: IntVec2, Ghost(src): Ghost<Seq<IntVec2>>)
    requires
        old(v)@ == dedup(src),
    ensures
        final(v)@ == dedup(src.push(p)),
{
    proof {
        assert(src.push(p).drop_last() =~= src);
    }
    let n = v.len();
    if n > 0 && v[n - 1] == p {
        return;
    }
    v.push(p);
}

/// The closed outline of a variable-width stroke along the quadratic curve
/// from `s` through control point `m` to `e`, sampled `samples` times.
pub fn stroke_polygon(s: StrokePoint, m: StrokePoint, e: StrokePoint, samples: u32) -> (r: Vec<IntVec2>)
    requires
        stroke_fits(s),
        stroke_fits(m),
        stroke_fits(e),
    ensures
        r@ == stroke_outline(s, m, e, samples as int),
{
    if samples < 2 {
        return Vec::new();
    }
    let d: i64 = samples as i64 - 1;
    let mut left: Vec<IntVec2> = Vec::new();
    let mut right: Vec<IntVec2> = Vec::new();
    let ghost n = samples as int;
    let mut i: i64 = 0;
    while i <= d
        invariant
            0 <= i <= d + 1,
            d == samples - 1,
            n == samples,
            stroke_fits(s),
            stroke_fits(m),
            stroke_fits(e),
            2 <= samples,
            left@ == dedup(side_points(s, m, e, n, 1).take(i as int)),
            right@ == dedup(side_points(s, m, e, n, -1).take(i as int)),
        decreases d + 1 - i,
    {
        let lp = compute_side_point(s, m, e, i, d, 1);
        let rp = compute_side_point(s, m, e, i, d, -1);
        proof {
            assert(side_points(s, m, e, n, 1).take(i + 1) =~= side_points(s, m, e, n, 1).take(i as int).push(lp));
            assert(side_points(s, m, e, n, -1).take(i + 1) =~= side_points(s, m, e, n, -1).take(i as int).push(rp));
        }
        push_distinct(&mut left, lp, Ghost(side_points(s, m, e, n, 1).take(i as int)));
        push_distinct(&mut right, rp, Ghost(side_points(s, m, e, n, -1).take(i as int)));
        i += 1;
    }
    proof {
        assert(side_points(s, m, e, n, 1).take(n) =~= side_points(s, m, e, n, 1));
        assert(side_points(s, m, e, n, -1).take(n) =~= side_points(s, m, e, n, -1));
    }
    let ghost l0 = left@;
    let mut k: usize = right.len();
    while k > 0
        invariant
            k <= right@.len(),
            left@ == l0 + right@.skip(k as int).reverse(),
        decreases k,
    {
        k -= 1;
        left.push(right[k]);
        proof {
            assert(right@.skip(k as int).reverse() =~= right@.skip(k + 1).reverse().push(right@[k as int]));
        }
    }
    assert(right@.skip(0) =~= right@);
    left
}

/// Strokes the quadratic curve from `s` through control point `m` to `e`
/// with a width interpolated from the three points' widths, by filling the
/// outline that `stroke_outline` describes. An outline of fewer than three
/// distinct points (fewer than two samples among them) paints nothing and
/// returns the invalid rectangle.
pub fn draw_dynamic_bezier<C: PixelCanvas>(
    canvas: &mut C,
    s: StrokePoint,
    m: StrokePoint,
    e: StrokePoint,
    samples: u32,
    c: Color,
) -> (r: Rect)
    requires
        stroke_fits(s),
        stroke_fits(m),
        stroke_fits(e),
    ensures
        stroke_outline(s, m, e, samples as int).len() > 2 ==> final(canvas).painted() == old(canvas).painted()
            + reached(*old(canvas), colored(polygon_pixels(stroke_outline(s, m, e, samples as int), true), c))
            && r == polygon_rect(stroke_outline(s, m, e, samples as int)),
        stroke_outline(s, m, e, samples as int).len() <= 2 ==> final(canvas).painted() == old(canvas).painted()
            && r == Rect::invalid_spec(),
        kept(*old(canvas), *final(canvas)),
{
    let outline = stroke_polygon(s, m, e, samples);
    if outline.len() > 2 {
        let px = scan_polygon(&outline, true);
        paint(canvas, &px, c);
        polygon_bounds(&outline)
    } else {
        Rect::invalid()
    }
}

/// Strokes the quadratic curve with one constant width (in sub-pixel units).
pub fn draw_bezier<C: PixelCanvas>(
    canvas: &mut C,
    start: IntVec2,
    ctrl: IntVec2,
    end: IntVec2,
    width: u32,
    samples: u32,
    c: Color,
) -> (r: Rect)
    requires
        stroke_fits(StrokePoint { pos: start, width }),
        stroke_fits(StrokePoint { pos: ctrl, width }),
        stroke_fits(StrokePoint { pos: end, width }),
    ensures
        ({
            let o = stroke_outline(
                StrokePoint { pos: start, width },
                StrokePoint { pos: ctrl, width },
                StrokePoint { pos: end, width },
                samples as int,
            );
            &&& o.len() > 2 ==> final(canvas).painted() == old(canvas).painted() + reached(
                *old(canvas),
                colored(polygon_pixels(o, true), c),
            ) && r == polygon_rect(o)
            &&& o.len() <= 2 ==> final(canvas).painted() == old(canvas).painted() && r == Rect::invalid_spec()
        }),
        kept(*old(canvas), *final(canvas)),
{
    draw_dynamic_bezier(
        canvas,
        StrokePoint { pos: start, width },
        StrokePoint { pos: ctrl, width },
        StrokePoint { pos: end, width },
        samples,
        c,
    )
}

} // verus!
