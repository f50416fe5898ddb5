use vstd::prelude::*;
use crate::canvas::{paint, paint_writes, colored, kept, reached, PixelCanvas, PixelWrite};
use crate::color::Color;
use crate::polygon::{abs, pixel, polygon_pixels, polygon_rect, polygon_bounds, scan_polygon};
use crate::rect::{corner_box, Rect};
use crate::vector::IntVec2;

verus! {

// ---------------------------------------------------------------------------
// Blocks of pixels.
// ---------------------------------------------------------------------------

/// `w` pixels of row `y`, from column `x` rightward.
pub open spec fn row_run(x: int, y: int, w: int) -> Seq<IntVec2>
    decreases w,
{
    if w <= 0 {
        Seq::empty()
    } else {
        row_run(x, y, w - 1).push(pixel(x + w - 1, y))
    }
}

/// The `w` by `h` block with top-left corner `(x, y)`, row by row.
pub open spec fn block(x: int, y: int, w: int, h: int) -> Seq<IntVec2>
    decreases h,
{
    if h <= 0 {
        Seq::empty()
    } else {
        block(x, y, w, h - 1) + row_run(x, y + h - 1, w)
    }
}

fn push_block(out: &mut Vec<IntVec2>, x: i32, y: i32, w: u32, h: u32)
    requires
        x + w <= i32::MAX,
        y + h <= i32::MAX,
    ensures
        final(out)@ == old(out)@ + block(x as int, y as int, w as int, h as int),
{
    let mut j: u32 = 0;
    while j < h
        invariant
            j <= h,
            x + w <= i32::MAX,
            y + h <= i32::MAX,
            out@ == old(out)@ + block(x as int, y as int, w as int, j as int),
        decreases h - j,
    {
        let ghost mid = out@;
        let mut i: u32 = 0;
        while i < w
            invariant
                i <= w,
                j < h,
                x + w <= i32::MAX,
                y + h <= i32::MAX,
                out@ == mid + row_run(x as int, y + j, i as int),
            decreases w - i,
        {
            out.push(IntVec2 { x: (x as i64 + i as i64) as i32, y: (y as i64 + j as i64) as i32 });
            i += 1;
        }
        assert(out@ =~= old(out)@ + block(x as int, y as int, w as int, j + 1));
        j += 1;
    }
}

/// Paints the `width` by `height` block whose top-left corner is `pos`, row by row.
pub fn fill_rect<C: PixelCanvas>(canvas: &mut C, pos: IntVec2, width: u32, height: u32, c: Color)
    requires
        pos.x + width <= i32::MAX,
        pos.y + height <= i32::MAX,
    ensures
        final(canvas).painted() == old(canvas).painted() + reached(
            *old(canvas),
            colored(block(pos.x as int, pos.y as int, width as int, height as int), c),
        ),
        kept(*old(canvas), *final(canvas)),
{
    let mut px: Vec<IntVec2> = Vec::new();
    push_block(&mut px, pos.x, pos.y, width, height);
    assert(px@ =~= block(pos.x as int, pos.y as int, width as int, height as int));
    paint(canvas, &px, c);
}

// ---------------------------------------------------------------------------
// Lines.
// ---------------------------------------------------------------------------

/// The step direction from `a` toward `b` (`-1` when they are equal).
pub open spec fn step_toward(a: int, b: int) -> int {
    if a < b { 1 } else { -1 }
}

/// The error term a line starts with.
pub open spec fn line_start_error(dx: int, dy: int) -> int {
    if dx > dy { dx / 2 } else { -(dy / 2) }
}

/// Integer Bresenham stepping from `(x, y)` with error `err` until `(x1, y1)`,
/// at most `fuel` points.
pub open spec fn line_walk(
    x: int,
    y: int,
    err: int,
    x1: int,
    y1: int,
    dx: int,
    dy: int,
    sx: int,
    sy: int,
    fuel: nat,
) -> Seq<IntVec2>
    decreases fuel,
{
    if fuel == 0 {
        Seq::empty()
    } else if x == x1 && y == y1 {
        seq![pixel(x, y)]
    } else {
        let e2 = 2 * err;
        let err1 = if e2 > -dx { err - dy } else { err };
        let xn = if e2 > -dx { x + sx } else { x };
        let err2 = if e2 < dy { err1 + dx } else { err1 };
        let yn = if e2 < dy { y + sy } else { y };
        seq![pixel(x, y)] + line_walk(xn, yn, err2, x1, y1, dx, dy, sx, sy, (fuel - 1) as nat)
    }
}

/// The points Bresenham's algorithm steps through from `(x0, y0)` to `(x1, y1)`.
pub open spec fn line_path(x0: int, y0: int, x1: int, y1: int) -> Seq<IntVec2> {
    let dx = abs(x1 - x0);
    let dy = abs(y1 - y0);
    line_walk(
        x0,
        y0,
        line_start_error(dx, dy),
        x1,
        y1,
        dx,
        dy,
        step_toward(x0, x1),
        step_toward(y0, y1),
        (dx + dy + 1) as nat,
    )
}

/// The points of the Bresenham line from `(x0, y0)` to `(x1, y1)`, in order;
/// it starts at the first endpoint and ends at the second.
pub fn line_points(x0: i32, y0: i32, x1: i32, y1: i32) -> (r: Vec<IntVec2>)
    ensures
        r@ == line_path(x0 as int, y0 as int, x1 as int, y1 as int),
        r@.len() >= 1,
        r@[0] == pixel(x0 as int, y0 as int),
        r@.last() == pixel(x1 as int, y1 as int),
        forall|i: int|
            0 <= i < r@.len() ==> min(x0 as int, x1 as int) <= #[trigger] r@[i].x <= max(x0 as int, x1 as int)
                && min(y0 as int, y1 as int) <= r@[i].y <= max(y0 as int, y1 as int),
{
    let dx: i64 = if x0 > x1 { x0 as i64 - x1 as i64 } else { x1 as i64 - x0 as i64 };
    let dy: i64 = if y0 > y1 { y0 as i64 - y1 as i64 } else { y1 as i64 - y0 as i64 };
    let sx: i64 = if x0 < x1 { 1 } else { -1 };
    let sy: i64 = if y0 < y1 { 1 } else { -1 };
    let e0: i128 = if dx > dy { (dx / 2) as i128 } else { -((dy / 2) as i128) };
    let mut err: i128 = e0;
    let mut x: i64 = x0 as i64;
    let mut y: i64 = y0 as i64;
    let mut pts: Vec<IntVec2> = Vec::new();
    let ghost whole = line_path(x0 as int, y0 as int, x1 as int, y1 as int);
    let ghost mut cx: int = 0;
    let ghost mut cy: int = 0;
    let ghost mut pdy: int = 0;
    let ghost mut pdx: int = 0;
    let ghost mut fuel: nat = (dx + dy + 1) as nat;
    proof {
        assert(dx * dy <= 0x1_0000_0000 * 0x1_0000_0000) by (nonlinear_arith)
            requires 0 <= dx <= 0x1_0000_0000, 0 <= dy <= 0x1_0000_0000;
    }
    loop
        invariant_except_break
            pts@ + line_walk(x as int, y as int, err as int, x1 as int, y1 as int, dx as int, dy as int, sx as int, sy as int, fuel) == whole,
            pts@.len() == 0 ==> x == x0 && y == y0,
        invariant
            0 <= dx <= 0x1_0000_0000,
            0 <= dy <= 0x1_0000_0000,
            dx * dy <= 0x1_0000_0000 * 0x1_0000_0000,
            dx == abs(x1 - x0),
            dy == abs(y1 - y0),
            sx == step_toward(x0 as int, x1 as int),
            sy == step_toward(y0 as int, y1 as int),
            e0 == line_start_error(dx as int, dy as int),
            0 <= cx <= dx,
            0 <= cy <= dy,
            x == x0 + sx * cx,
            y == y0 + sy * cy,
            pdy == cx * dy,
            pdx == cy * dx,
            0 <= pdy <= dx * dy,
            0 <= pdx <= dx * dy,
            err == e0 - pdy + pdx,
            fuel >= (dx - cx) + (dy - cy) + 1,
            pts@.len() > 0 ==> pts@[0] == pixel(x0 as int, y0 as int),
            forall|i: int|
                0 <= i < pts@.len() ==> min(x0 as int, x1 as int) <= #[trigger] pts@[i].x <= max(x0 as int, x1 as int)
                    && min(y0 as int, y1 as int) <= pts@[i].y <= max(y0 as int, y1 as int),
        ensures
            forall|i: int|
                0 <= i < pts@.len() ==> min(x0 as int, x1 as int) <= #[trigger] pts@[i].x <= max(x0 as int, x1 as int)
                    && min(y0 as int, y1 as int) <= pts@[i].y <= max(y0 as int, y1 as int),
            pts@ == whole,
            pts@.len() >= 1,
            pts@[0] == pixel(x0 as int, y0 as int),
            pts@.last() == pixel(x1 as int, y1 as int),
        decreases (dx - cx) + (dy - cy),
    {
        let ghost before = pts@;
        proof {
            if sx == 1 {
                assert(x == x0 + cx);
            } else {
                assert(x == x0 - cx);
            }
            if sy == 1 {
                assert(y == y0 + cy);
            } else {
                assert(y == y0 - cy);
            }
            assert(min(x0 as int, x1 as int) <= x <= max(x0 as int, x1 as int));
            assert(min(y0 as int, y1 as int) <= y <= max(y0 as int, y1 as int));
        }
        pts.push(IntVec2 { x: x as i32, y: y as i32 });
        proof {
            assert forall|i: int| 0 <= i < pts@.len() implies min(x0 as int, x1 as int) <= #[trigger] pts@[i].x
                <= max(x0 as int, x1 as int) && min(y0 as int, y1 as int) <= pts@[i].y <= max(y0 as int, y1 as int) by {
                if i < before.len() {
                    assert(pts@[i] == before[i]);
                }
            }
        }
        if x == x1 as i64 && y == y1 as i64 {
            assert(pts@ =~= before + seq![pixel(x as int, y as int)]);
            break;
        }
        proof {
            let rest = line_walk(x as int, y as int, err as int, x1 as int, y1 as int, dx as int, dy as int, sx as int, sy as int, fuel);
            assert(pts@ + rest.drop_first() =~= before + rest);
        }
        let e2: i128 = 2 * err;
        let ghost mx = e2 > -(dx as i128);
        let ghost my = e2 < dy as i128;
        proof {
            if cx == dx {
                assert(cy < dy);
                assert(pdx <= dx * dy - dx) by (nonlinear_arith)
                    requires pdx == cy * dx, cy + 1 <= dy, dx >= 0;
                assert(pdy == dx * dy) by (nonlinear_arith) requires pdy == cx * dy, cx == dx;
                assert(!mx);
            }
            if cy == dy {
                assert(cx < dx);
                assert(pdy <= dx * dy - dy) by (nonlinear_arith)
                    requires pdy == cx * dy, cx + 1 <= dx, dy >= 0;
                assert(pdx == dx * dy) by (nonlinear_arith) requires pdx == cy * dx, cy == dy;
                assert(!my);
            }
            assert(mx || my);
        }
        if e2 > -(dx as i128) {
            err = err - dy as i128;
            x = x + sx;
            proof {
                assert((cx + 1) * dy == cx * dy + dy) by (nonlinear_arith);
                assert((cx + 1) * dy <= dx * dy) by (nonlinear_arith) requires cx + 1 <= dx, dy >= 0;
                cx = cx + 1;
                pdy = pdy + dy;
            }
        }
        if e2 < dy as i128 {
            err = err + dx as i128;
            y = y + sy;
            proof {
                assert((cy + 1) * dx == cy * dx + dx) by (nonlinear_arith);
                assert((cy + 1) * dx <= dx * dy) by (nonlinear_arith) requires cy + 1 <= dy, dx >= 0;
                cy = cy + 1;
                pdx = pdx + dx;
            }
        }
        proof {
            fuel = (fuel - 1) as nat;
        }
    }
    pts
}

/// What one point of a line stamps: the pixel itself for width 1, else the
/// `width`-sided square centred on it (nothing for width 0).
pub open spec fn stamp(p: IntVec2, width: int) -> Seq<IntVec2> {
    if width == 1 {
        seq![p]
    } else {
        block(p.x - width / 2, p.y - width / 2, width, width)
    }
}

/// The stamps of every point of `path`, in order.
pub open spec fn stamps(path: Seq<IntVec2>, width: int) -> Seq<IntVec2>
    decreases path.len(),
{
    if path.len() == 0 {
        Seq::empty()
    } else {
        stamps(path.drop_last(), width) + stamp(path.last(), width)
    }
}

/// Coordinates leave room for a stamp of side `width` around every point of the line.
pub open spec fn stamp_fits(x0: int, y0: int, x1: int, y1: int, width: int) -> bool {
    &&& i32::MIN + width <= x0 <= i32::MAX - width
    &&& i32::MIN + width <= x1 <= i32::MAX - width
    &&& i32::MIN + width <= y0 <= i32::MAX - width
    &&& i32::MIN + width <= y1 <= i32::MAX - width
}

pub open spec fn min(a: int, b: int) -> int {
    if a <= b { a } else { b }
}

pub open spec fn max(a: int, b: int) -> int {
    if a >= b { a } else { b }
}

/// The pixels of `width`-wide stamps along the line from `(x0, y0)` to `(x1, y1)`.
#[verifier::spinoff_prover]
fn stamped_line(x0: i32, y0: i32, x1: i32, y1: i32, width: u32) -> (r: Vec<IntVec2>)
    requires
        stamp_fits(x0 as int, y0 as int, x1 as int, y1 as int, width as int),
    ensures
        r@ == stamps(line_path(x0 as int, y0 as int, x1 as int, y1 as int), width as int),
{
    let path = line_points(x0, y0, x1, y1);
    proof {
        assert(path@.len() >= 1);
        assert(path@[0] == pixel(x0 as int, y0 as int));
        assert(min(x0 as int, x1 as int) <= path@[0].x);
        assert forall|i: int| 0 <= i < path@.len() implies min(x0 as int, x1 as int) <= #[trigger] path@[i].x
            <= max(x0 as int, x1 as int) && min(y0 as int, y1 as int) <= path@[i].y <= max(y0 as int, y1 as int) by {
        }
    }
    let mut out: Vec<IntVec2> = Vec::new();
    let mut k: usize = 0;
    while k < path.len()
        invariant
            k <= path.len(),
            stamp_fits(x0 as int, y0 as int, x1 as int, y1 as int, width as int),
            forall|i: int|
                0 <= i < path@.len() ==> min(x0 as int, x1 as int) <= #[trigger] path@[i].x <= max(
                    x0 as int,
                    x1 as int,
                ) && min(y0 as int, y1 as int) <= path@[i].y <= max(y0 as int, y1 as int),
            out@ == stamps(path@.take(k as int), width as int),
        decreases path.len() - k,
    {
        let p = path[k];
        let ghost before = out@;
        if width == 1 {
            out.push(p);
        } else {
            let half = (width / 2) as i64;
            push_block(&mut out, (p.x as i64 - half) as i32, (p.y as i64 - half) as i32, width, width);
        }
        proof {
            assert(path@.take(k + 1).drop_last() =~= path@.take(k as int));
            assert(out@ =~= before + stamp(p, width as int));
        }
        k += 1;
    }
    assert(path@.take(path.len() as int) =~= path@);
    out
}

/// Steps from `(x0, y0)` to `(x1, y1)` with Bresenham's algorithm and stamps
/// every point: the pixel itself for `width` 1, else a `width`-sided square
/// centred on it. Returns the box spanning the two endpoints.
pub fn stamp_along_line<C: PixelCanvas>(
    canvas: &mut C,
    y0: i32,
    x0: i32,
    y1: i32,
    x1: i32,
    width: u32,
    c: Color,
) -> (r: Rect)
    requires
        stamp_fits(x0 as int, y0 as int, x1 as int, y1 as int, width as int),
    ensures
        final(canvas).painted() == old(canvas).painted() + reached(
            *old(canvas),
            colored(stamps(line_path(x0 as int, y0 as int, x1 as int, y1 as int), width as int), c),
        ),
        kept(*old(canvas), *final(canvas)),
        r == corner_box(
            min(x0 as int, x1 as int),
            min(y0 as int, y1 as int),
            max(x0 as int, x1 as int),
            max(y0 as int, y1 as int),
        ),
{
    let px = stamped_line(x0, y0, x1, y1, width);
    paint(canvas, &px, c);
    Rect::from_corners(
        if x0 <= x1 { x0 } else { x1 },
        if y0 <= y1 { y0 } else { y1 },
        if x0 >= x1 { x0 } else { x1 },
        if y0 >= y1 { y0 } else { y1 },
    )
}

/// Draws a line of the given width; the returned rectangle is the endpoints'
/// box expanded by `(width + 1) / 2` on each side.
pub fn draw_line<C: PixelCanvas>(canvas: &mut C, start: IntVec2, end: IntVec2, width: u32, c: Color) -> (r: Rect)
    requires
        stamp_fits(start.x as int, start.y as int, end.x as int, end.y as int, width as int),
    ensures
        final(canvas).painted() == old(canvas).painted() + reached(
            *old(canvas),
            colored(stamps(line_path(start.x as int, start.y as int, end.x as int, end.y as int), width as int), c),
        ),
        kept(*old(canvas), *final(canvas)),
        r == corner_box(
            min(start.x as int, end.x as int),
            min(start.y as int, end.y as int),
            max(start.x as int, end.x as int),
            max(start.y as int, end.y as int),
        ).spec_expand(((width as int + 1) / 2) as u32),
{
    let rect = stamp_along_line(canvas, start.y, start.x, end.y, end.x, width, c);
    let margin = ((width as u64 + 1) / 2) as u32;
    rect.expand(margin)
}

/// Draws the outline of the `width` by `height` rectangle at `pos` with lines
/// `border` pixels wide: top, left, right, then bottom side.
pub fn draw_rect<C: PixelCanvas>(canvas: &mut C, pos: IntVec2, width: u32, height: u32, border: u32, c: Color)
    requires
        stamp_fits(pos.x as int, pos.y as int, pos.x + width, pos.y + height, border as int),
    ensures
        final(canvas).painted() == old(canvas).painted() + reached(
            *old(canvas),
            colored(rect_outline(pos.x as int, pos.y as int, width as int, height as int, border as int), c),
        ),
        kept(*old(canvas), *final(canvas)),
{
    let (l, t) = (pos.x, pos.y);
    let r = (pos.x as i64 + width as i64) as i32;
    let b = (pos.y as i64 + height as i64) as i32;
    let mut px = stamped_line(l, t, r, t, border);
    let mut side = stamped_line(l, t, l, b, border);
    px.append(&mut side);
    let mut side = stamped_line(r, t, r, b, border);
    px.append(&mut side);
    let mut side = stamped_line(l, b, r, b, border);
    px.append(&mut side);
    paint(canvas, &px, c);
}

/// The four sides of a rectangle outline, in drawing order.
pub open spec fn rect_outline(x: int, y: int, w: int, h: int, border: int) -> Seq<IntVec2> {
    stamps(line_path(x, y, x + w, y), border) + stamps(line_path(x, y, x, y + h), border) + stamps(
        line_path(x + w, y, x + w, y + h),
        border,
    ) + stamps(line_path(x, y + h, x + w, y + h), border)
}

// ---------------------------------------------------------------------------
// Circles.
// ---------------------------------------------------------------------------

/// Offsets `xo` of row `yo` within `[-(r + 1), -(r + 1) + k)` whose squared
/// distance is at most `r * r`, as pixels around `(cx, cy)`.
pub open spec fn disk_row(cx: int, cy: int, r: int, yo: int, k: int) -> Seq<IntVec2>
    decreases k,
{
    if k <= 0 {
        Seq::empty()
    } else {
        let xo = -(r + 1) + k - 1;
        if xo * xo + yo * yo <= r * r {
            disk_row(cx, cy, r, yo, k - 1).push(pixel(cx + xo, cy + yo))
        } else {
            disk_row(cx, cy, r, yo, k - 1)
        }
    }
}

/// The first `k` rows of the disk scan, from offset `-(r + 1)` downward.
pub open spec fn disk_rows(cx: int, cy: int, r: int, k: int) -> Seq<IntVec2>
    decreases k,
{
    if k <= 0 {
        Seq::empty()
    } else {
        disk_rows(cx, cy, r, k - 1) + disk_row(cx, cy, r, -(r + 1) + k - 1, 2 * r + 2)
    }
}

/// Every pixel within distance `r` of `(cx, cy)`, scanning offsets
/// `-(r + 1) .. r + 1` row by row.
pub open spec fn disk(cx: int, cy: int, r: int) -> Seq<IntVec2> {
    disk_rows(cx, cy, r, 2 * r + 2)
}

/// The circle's centre and radius keep every scanned offset within `i32`.
pub open spec fn circle_fits(cx: int, cy: int, r: int) -> bool {
    &&& 0 <= r <= 0x1000_0000
    &&& i32::MIN + r + 1 <= cx <= i32::MAX - r - 1
    &&& i32::MIN + r + 1 <= cy <= i32::MAX - r - 1
}

/// Fills the disk of radius `rad` around `pos`; returns its circumscribing
/// square. A zero radius is degenerate: nothing is painted and the invalid
/// rectangle comes back.
pub fn fill_circle<C: PixelCanvas>(canvas: &mut C, pos: IntVec2, rad: u32, c: Color) -> (r: Rect)
    requires
        circle_fits(pos.x as int, pos.y as int, rad as int),
    ensures
        rad == 0 ==> final(canvas).painted() == old(canvas).painted() && r == Rect::invalid_spec(),
        rad > 0 ==> final(canvas).painted() == old(canvas).painted() + reached(
            *old(canvas),
            colored(disk(pos.x as int, pos.y as int, rad as int), c),
        ),
        kept(*old(canvas), *final(canvas)),
        rad > 0 ==> r == corner_box(pos.x - rad, pos.y - rad, pos.x + rad, pos.y + rad),
{
    if rad == 0 {
        return Rect::invalid();
    }
    let ghost (cx, cy, gr) = (pos.x as int, pos.y as int, rad as int);
    let rr: i64 = rad as i64;
    let sd: i64 = rr + 1;
    proof {
        assert(rr * rr <= 0x1000_0000 * 0x1000_0000) by (nonlinear_arith) requires 0 <= rr <= 0x1000_0000;
    }
    let rsq: i64 = rr * rr;
    let mut px: Vec<IntVec2> = Vec::new();
    let mut yo: i64 = -sd;
    while yo < sd
        invariant
            circle_fits(cx, cy, gr),
            rr == gr,
            sd == rr + 1,
            rsq == rr * rr,
            -sd <= yo <= sd,
            cx == pos.x,
            cy == pos.y,
            px@ == disk_rows(cx, cy, gr, yo + sd),
        decreases sd - yo,
    {
        let ghost mid = px@;
        let mut xo: i64 = -sd;
        while xo < sd
            invariant
                circle_fits(cx, cy, gr),
                rr == gr,
                sd == rr + 1,
                rsq == rr * rr,
                -sd <= yo < sd,
                -sd <= xo <= sd,
                cx == pos.x,
                cy == pos.y,
                px@ == mid + disk_row(cx, cy, gr, yo as int, xo + sd),
            decreases sd - xo,
        {
            proof {
                assert(xo * xo <= sd * sd) by (nonlinear_arith) requires -sd <= xo <= sd;
                assert(yo * yo <= sd * sd) by (nonlinear_arith) requires -sd <= yo <= sd;
                assert(sd * sd <= 0x1000_0001 * 0x1000_0001) by (nonlinear_arith) requires 0 <= sd <= 0x1000_0001;
                assert(xo * xo + yo * yo <= 2 * 0x1000_0001 * 0x1000_0001);
                assert(xo * xo >= 0 && yo * yo >= 0) by (nonlinear_arith);
            }
            if xo * xo + yo * yo <= rsq {
                px.push(IntVec2 { x: (pos.x as i64 + xo) as i32, y: (pos.y as i64 + yo) as i32 });
            }
            xo += 1;
        }
        proof {
            assert(px@ =~= disk_rows(cx, cy, gr, yo + sd + 1));
        }
        yo += 1;
    }
    paint(canvas, &px, c);
    Rect::from_corners(
        (pos.x as i64 - rr) as i32,
        (pos.y as i64 - rr) as i32,
        (pos.x as i64 + rr) as i32,
        (pos.y as i64 + rr) as i32,
    )
}

/// The points that `line_drawing`'s Bresenham circle iterator yields for
/// centre `(cx, cy)` and radius `r`, in order.
pub uninterp spec fn bresenham_circle(cx: int, cy: int, r: int) -> Seq<(i32, i32)>;

/// Relies on `line_drawing::BresenhamCircle::new(cx, cy, r)`, collected: the
/// outline points of the circle, which depend on the three arguments alone.
#[verifier::external_body]
fn circle_outline(cx: i32, cy: i32, r: i32) -> (pts: Vec<(i32, i32)>)
    requires
        circle_fits(cx as int, cy as int, r as int),
    ensures
        pts@ == bresenham_circle(cx as int, cy as int, r as int),
{
    line_drawing::BresenhamCircle::new(cx, cy, r).collect()
}

/// The outline points as pixels.
pub open spec fn circle_pixels(pts: Seq<(i32, i32)>) -> Seq<IntVec2> {
    Seq::new(pts.len(), |i: int| IntVec2 { x: pts[i].0, y: pts[i].1 })
}

/// Draws the outline of the circle of radius `rad` around `pos` with
/// Bresenham's midpoint circle; returns its circumscribing square. A zero
/// radius is degenerate: nothing is painted and the invalid rectangle comes back.
pub fn draw_circle<C: PixelCanvas>(canvas: &mut C, pos: IntVec2, rad: u32, c: Color) -> (r: Rect)
    requires
        circle_fits(pos.x as int, pos.y as int, rad as int),
    ensures
        rad == 0 ==> final(canvas).painted() == old(canvas).painted() && r == Rect::invalid_spec(),
        rad > 0 ==> final(canvas).painted() == old(canvas).painted() + reached(
            *old(canvas),
            colored(circle_pixels(bresenham_circle(pos.x as int, pos.y as int, rad as int)), c),
        ),
        kept(*old(canvas), *final(canvas)),
        rad > 0 ==> r == corner_box(pos.x - rad, pos.y - rad, pos.x + rad, pos.y + rad),
{
    if rad == 0 {
        return Rect::invalid();
    }
    let pts = circle_outline(pos.x, pos.y, rad as i32);
    let mut px: Vec<IntVec2> = Vec::new();
    let mut i: usize = 0;
    while i < pts.len()
        invariant
            i <= pts.len(),
            px@ == circle_pixels(pts@.take(i as int)),
        decreases pts.len() - i,
    {
        let (x, y) = pts[i];
        px.push(IntVec2 { x, y });
        i += 1;
        assert(px@ =~= circle_pixels(pts@.take(i as int)));
    }
    assert(pts@.take(pts.len() as int) =~= pts@);
    paint(canvas, &px, c);
    let rr = rad as i64;
    Rect::from_corners(
        (pos.x as i64 - rr) as i32,
        (pos.y as i64 - rr) as i32,
        (pos.x as i64 + rr) as i32,
        (pos.y as i64 + rr) as i32,
    )
}

// ---------------------------------------------------------------------------
// Polygons and images.
// ---------------------------------------------------------------------------

/// Fills (or, with `fill` false, outlines) the closed polygon through `points`
/// by scanline with an active-edge table and the nonzero winding rule. Returns
/// the vertices' box, or the invalid rectangle when nothing spans a scanline.
pub fn draw_polygon<C: PixelCanvas>(canvas: &mut C, points: &Vec<IntVec2>, fill: bool, c: Color) -> (r: Rect)
    ensures
        final(canvas).painted() == old(canvas).painted() + reached(
            *old(canvas),
            colored(polygon_pixels(points@, fill), c),
        ),
        kept(*old(canvas), *final(canvas)),
        r == polygon_rect(points@),
{
    let px = scan_polygon(points, fill);
    paint(canvas, &px, c);
    polygon_bounds(points)
}

/// The lines along the polygon's edges `0..k`, each from a vertex to the next
/// (the last back to the first), one pixel wide.
pub open spec fn edge_lines(p: Seq<IntVec2>, k: int) -> Seq<IntVec2>
    decreases k,
{
    if k <= 0 {
        Seq::empty()
    } else {
        let a = p[k - 1];
        let b = p[k % (p.len() as int)];
        edge_lines(p, k - 1) + stamps(line_path(a.x as int, a.y as int, b.x as int, b.y as int), 1)
    }
}

/// The rectangle `draw_line` reports for edge `i`, one pixel wide.
pub open spec fn edge_rect(p: Seq<IntVec2>, i: int) -> Rect {
    let a = p[i];
    let b = p[(i + 1) % (p.len() as int)];
    corner_box(
        min(a.x as int, b.x as int),
        min(a.y as int, b.y as int),
        max(a.x as int, b.x as int),
        max(a.y as int, b.y as int),
    ).spec_expand(1)
}

/// The merged rectangles of the lines along edges `0..k`.
pub open spec fn edges_rect(p: Seq<IntVec2>, k: int) -> Rect
    decreases k,
{
    if k <= 0 {
        Rect::invalid_spec()
    } else {
        edges_rect(p, k - 1).spec_merge(edge_rect(p, k - 1))
    }
}

proof fn lemma_edges_rect(p: Seq<IntVec2>, k: int)
    requires
        0 <= k <= p.len(),
    ensures
        edges_rect(p, k).wf(),
        forall|i: int| 0 <= i < k ==> edges_rect(p, k).encloses(#[trigger] edge_rect(p, i)),
    decreases k,
{
    if k > 0 {
        lemma_edges_rect(p, k - 1);
        let e = edges_rect(p, k - 1);
        let r = edge_rect(p, k - 1);
        assert(r.wf());
        crate::rect::lemma_merge_is_least_bound(e, r, e);
        assert forall|i: int| 0 <= i < k implies edges_rect(p, k).encloses(#[trigger] edge_rect(p, i)) by {
            if i < k - 1 {
                crate::rect::lemma_encloses_trans(edges_rect(p, k), e, edge_rect(p, i));
            }
        }
    }
}

proof fn lemma_edges_rect_least(p: Seq<IntVec2>, k: int, c: Rect)
    requires
        0 <= k <= p.len(),
        forall|i: int| 0 <= i < k ==> c.encloses(#[trigger] edge_rect(p, i)),
    ensures
        c.encloses(edges_rect(p, k)),
    decreases k,
{
    if k > 0 {
        lemma_edges_rect(p, k - 1);
        lemma_edges_rect_least(p, k - 1, c);
        crate::rect::lemma_merge_is_least_bound(edges_rect(p, k - 1), edge_rect(p, k - 1), c);
    }
}

/// The rectangle that `draw_polygon_edges` returns encloses the rectangle of
/// every edge's line, and every rectangle that encloses all of those
/// encloses it: it is the smallest such rectangle.
pub proof fn lemma_polygon_edges_rect_is_least(p: Seq<IntVec2>, c: Rect)
    ensures
        forall|i: int| 0 <= i < p.len() ==> edges_rect(p, p.len() as int).encloses(#[trigger] edge_rect(p, i)),
        (forall|i: int| 0 <= i < p.len() ==> c.encloses(#[trigger] edge_rect(p, i))) ==> c.encloses(
            edges_rect(p, p.len() as int),
        ),
{
    lemma_edges_rect(p, p.len() as int);
    if forall|i: int| 0 <= i < p.len() ==> c.encloses(#[trigger] edge_rect(p, i)) {
        lemma_edges_rect_least(p, p.len() as int, c);
    }
}

/// Draws the closed outline through `points` as one-pixel lines from each
/// vertex to the next; returns the merged rectangles of the lines.
pub fn draw_polygon_edges<C: PixelCanvas>(canvas: &mut C, points: &Vec<IntVec2>, c: Color) -> (r: Rect)
    requires
        forall|i: int|
            0 <= i < points@.len() ==> i32::MIN + 1 <= (#[trigger] points@[i]).x <= i32::MAX - 1 && i32::MIN + 1
                <= points@[i].y <= i32::MAX - 1,
    ensures
        final(canvas).painted() == old(canvas).painted() + reached(
            *old(canvas),
            colored(edge_lines(points@, points@.len() as int), c),
        ),
        kept(*old(canvas), *final(canvas)),
        r == edges_rect(points@, points@.len() as int),
{
    let n = points.len();
    let mut px: Vec<IntVec2> = Vec::new();
    let mut rect = Rect::invalid();
    let mut i: usize = 0;
    while i < n
        invariant
            i <= n,
            n == points@.len(),
            forall|j: int|
                0 <= j < points@.len() ==> i32::MIN + 1 <= (#[trigger] points@[j]).x <= i32::MAX - 1 && i32::MIN
                    + 1 <= points@[j].y <= i32::MAX - 1,
            px@ == edge_lines(points@, i as int),
            rect == edges_rect(points@, i as int),
            rect.wf(),
        decreases n - i,
    {
        let a = points[i];
        let b = points[(i + 1) % n];
        let mut line = stamped_line(a.x, a.y, b.x, b.y, 1);
        px.append(&mut line);
        let lr = Rect::from_corners(
            if a.x <= b.x { a.x } else { b.x },
            if a.y <= b.y { a.y } else { b.y },
            if a.x >= b.x { a.x } else { b.x },
            if a.y >= b.y { a.y } else { b.y },
        ).expand(1);
        rect = rect.merge_rect(&lr);
        i += 1;
    }
    paint(canvas, &px, c);
    rect
}

/// The writes of an RGB image (three bytes per pixel, row-major) placed with
/// its top-left corner at `(x, y)`.
pub open spec fn image_writes(x: int, y: int, w: int, h: int, rgb: Seq<u8>) -> Seq<PixelWrite> {
    Seq::new(
        (w * h) as nat,
        |k: int| (pixel(x + k % w, y + k / w), Color::Rgb(rgb[3 * k], rgb[3 * k + 1], rgb[3 * k + 2])),
    )
}

/// Draws a `width` by `height` RGB image, row by row; returns its box.
pub fn draw_image<C: PixelCanvas>(canvas: &mut C, pos: IntVec2, width: u32, height: u32, rgb: &Vec<u8>) -> (r: Rect)
    requires
        rgb@.len() == 3 * width * height,
        pos.x + width <= i32::MAX,
        pos.y + height <= i32::MAX,
    ensures
        final(canvas).painted() == old(canvas).painted() + reached(
            *old(canvas),
            image_writes(pos.x as int, pos.y as int, width as int, height as int, rgb@),
        ),
        kept(*old(canvas), *final(canvas)),
        r == corner_box(pos.x as int, pos.y as int, pos.x + width, pos.y + height),
{
    let ghost (gx, gy, gw, gh) = (pos.x as int, pos.y as int, width as int, height as int);
    let n = rgb.len();
    let mut writes: Vec<PixelWrite> = Vec::new();
    let mut j: u32 = 0;
    while j < height
        invariant
            j <= height,
            rgb@.len() == 3 * width * height,
            n == rgb@.len(),
            pos.x + width <= i32::MAX,
            pos.y + height <= i32::MAX,
            gx == pos.x && gy == pos.y && gw == width && gh == height,
            writes@ == image_writes(gx, gy, gw, gh, rgb@).take(j * width),
        decreases height - j,
    {
        let mut i: u32 = 0;
        while i < width
            invariant
                i <= width,
                j < height,
                rgb@.len() == 3 * width * height,
                n == rgb@.len(),
                pos.x + width <= i32::MAX,
                pos.y + height <= i32::MAX,
                gx == pos.x && gy == pos.y && gw == width && gh == height,
                writes@ == image_writes(gx, gy, gw, gh, rgb@).take(j * width + i),
            decreases width - i,
        {
            proof {
                assert(j * width + i < width * height) by (nonlinear_arith)
                    requires i < width, j < height;
                assert(3 * (j * width + i) + 2 < 3 * width * height) by (nonlinear_arith)
                    requires j * width + i < width * height;
                assert(image_writes(gx, gy, gw, gh, rgb@).len() == width * height);
                assert((j * width + i) % (width as int) == i && (j * width + i) / (width as int) == j) by {
                    vstd::arithmetic::div_mod::lemma_fundamental_div_mod_converse(
                        j * width + i, width as int, j as int, i as int);
                }
            }
            let k = j as usize * width as usize + i as usize;
            let px = IntVec2 { x: (pos.x as i64 + i as i64) as i32, y: (pos.y as i64 + j as i64) as i32 };
            writes.push((px, Color::Rgb(rgb[3 * k], rgb[3 * k + 1], rgb[3 * k + 2])));
            proof {
                assert(writes@ =~= image_writes(gx, gy, gw, gh, rgb@).take(j * width + i + 1));
            }
            i += 1;
        }
        proof {
            assert((j + 1) * width == j * width + width) by (nonlinear_arith);
        }
        j += 1;
    }
    proof {
        assert(image_writes(gx, gy, gw, gh, rgb@).take(height * width) =~= image_writes(gx, gy, gw, gh, rgb@));
    }
    paint_writes(canvas, &writes);
    Rect::from_corners(pos.x, pos.y, (pos.x as i64 + width as i64) as i32, (pos.y as i64 + height as i64) as i32)
}

} // verus!
