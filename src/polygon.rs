use vstd::prelude::*;
use vstd::arithmetic::div_mod::lemma_fundamental_div_mod_converse;
use crate::rect::Rect;
use crate::vector::IntVec2;

verus! {

// ---------------------------------------------------------------------------
// The edges of a closed polygon, as the scanline fill sees them.
// ---------------------------------------------------------------------------

pub open spec fn edge_from(p: Seq<IntVec2>, i: int) -> IntVec2 {
    p[i]
}

pub open spec fn edge_to(p: Seq<IntVec2>, i: int) -> IntVec2 {
    p[(i + 1) % (p.len() as int)]
}

/// The endpoint with the smaller `y` (the second one on a tie).
pub open spec fn edge_lower(p: Seq<IntVec2>, i: int) -> IntVec2 {
    if edge_from(p, i).y < edge_to(p, i).y { edge_from(p, i) } else { edge_to(p, i) }
}

pub open spec fn edge_upper(p: Seq<IntVec2>, i: int) -> IntVec2 {
    if edge_from(p, i).y < edge_to(p, i).y { edge_to(p, i) } else { edge_from(p, i) }
}

/// `1` for an edge that runs downward (increasing `y`), `-1` otherwise.
pub open spec fn edge_dir(p: Seq<IntVec2>, i: int) -> int {
    if edge_from(p, i).y < edge_to(p, i).y { 1 } else { -1 }
}

pub open spec fn abs(v: int) -> int {
    if v >= 0 { v } else { -v }
}

/// Whether the edge crosses scanline `y`: its rows are `[lower.y, upper.y)`.
pub open spec fn edge_active(p: Seq<IntVec2>, i: int, y: int) -> bool {
    edge_lower(p, i).y <= y < edge_upper(p, i).y
}

/// The column at which the edge crosses scanline `y`: it has moved from the
/// lower endpoint toward the upper one by `floor((y - lower.y) * |dx| / dy)`.
pub open spec fn edge_x(p: Seq<IntVec2>, i: int, y: int) -> int {
    let lo = edge_lower(p, i);
    let hi = edge_upper(p, i);
    let step = (y - lo.y) * abs(hi.x - lo.x) / (hi.y - lo.y);
    if lo.x > hi.x { lo.x - step } else { lo.x + step }
}

/// The crossings of scanline `y` by edges `0..k`, in edge order: column and direction.
pub open spec fn crossings_upto(p: Seq<IntVec2>, y: int, k: int) -> Seq<(i64, i64)>
    decreases k,
{
    if k <= 0 {
        Seq::empty()
    } else if edge_active(p, k - 1, y) {
        crossings_upto(p, y, k - 1).push((edge_x(p, k - 1, y) as i64, edge_dir(p, k - 1) as i64))
    } else {
        crossings_upto(p, y, k - 1)
    }
}

pub open spec fn crossings(p: Seq<IntVec2>, y: int) -> Seq<(i64, i64)> {
    crossings_upto(p, y, p.len() as int)
}

/// The winding number at column `x`: the summed directions of the crossings at or left of `x`.
pub open spec fn winding(c: Seq<(i64, i64)>, x: int) -> int
    decreases c.len(),
{
    if c.len() == 0 {
        0
    } else {
        winding(c.drop_last(), x) + if c.last().0 <= x { c.last().1 as int } else { 0 }
    }
}

/// The summed directions of all crossings.
pub open spec fn total_dir(c: Seq<(i64, i64)>) -> int
    decreases c.len(),
{
    if c.len() == 0 { 0 } else { total_dir(c.drop_last()) + c.last().1 as int }
}

// ---------------------------------------------------------------------------
// Ordering the crossings by column.
// ---------------------------------------------------------------------------

pub open spec fn sorted_by_x(t: Seq<(i64, i64)>) -> bool {
    forall|i: int, j: int| 0 <= i < j < t.len() ==> t[i].0 <= t[j].0
}

/// The first index at or after `i` whose column exceeds `v`.
pub open spec fn first_greater(t: Seq<(i64, i64)>, v: i64, i: int) -> int
    decreases t.len() - i,
{
    if i < 0 || i >= t.len() || t[i].0 > v {
        if i < 0 { 0 } else { i }
    } else {
        first_greater(t, v, i + 1)
    }
}

/// Inserts `e` after every entry whose column is at most its own.
pub open spec fn insert_by_x(t: Seq<(i64, i64)>, e: (i64, i64)) -> Seq<(i64, i64)> {
    t.insert(first_greater(t, e.0, 0), e)
}

/// Insertion sort by column, stable.
pub open spec fn sort_by_x(c: Seq<(i64, i64)>) -> Seq<(i64, i64)>
    decreases c.len(),
{
    if c.len() == 0 {
        Seq::empty()
    } else {
        insert_by_x(sort_by_x(c.drop_last()), c.last())
    }
}

proof fn lemma_first_greater(t: Seq<(i64, i64)>, v: i64, i: int)
    requires
        0 <= i <= t.len(),
        forall|j: int| 0 <= j < i ==> t[j].0 <= v,
        sorted_by_x(t),
    ensures
        0 <= first_greater(t, v, i) <= t.len(),
        forall|j: int| 0 <= j < first_greater(t, v, i) ==> t[j].0 <= v,
        forall|j: int| first_greater(t, v, i) <= j < t.len() ==> t[j].0 > v,
    decreases t.len() - i,
{
    if i < t.len() && t[i].0 <= v {
        lemma_first_greater(t, v, i + 1);
    }
}

proof fn lemma_winding_concat(a: Seq<(i64, i64)>, b: Seq<(i64, i64)>, x: int)
    ensures
        winding(a + b, x) == winding(a, x) + winding(b, x),
        total_dir(a + b) == total_dir(a) + total_dir(b),
    decreases b.len(),
{
    if b.len() == 0 {
        assert(a + b =~= a);
    } else {
        lemma_winding_concat(a, b.drop_last(), x);
        assert((a + b).drop_last() =~= a + b.drop_last());
    }
}

proof fn lemma_insert_sorted(t: Seq<(i64, i64)>, e: (i64, i64), x: int)
    requires
        sorted_by_x(t),
    ensures
        sorted_by_x(insert_by_x(t, e)),
        winding(insert_by_x(t, e), x) == winding(t, x) + if e.0 <= x { e.1 as int } else { 0 },
        total_dir(insert_by_x(t, e)) == total_dir(t) + e.1,
        insert_by_x(t, e).len() == t.len() + 1,
{
    let p = first_greater(t, e.0, 0);
    lemma_first_greater(t, e.0, 0);
    let r = insert_by_x(t, e);
    assert(r =~= t.take(p) + seq![e] + t.skip(p));
    assert(t =~= t.take(p) + t.skip(p));
    lemma_winding_concat(t.take(p) + seq![e], t.skip(p), x);
    lemma_winding_concat(t.take(p), seq![e], x);
    lemma_winding_concat(t.take(p), t.skip(p), x);
    assert(seq![e].drop_last() =~= Seq::<(i64, i64)>::empty());
    assert(winding(Seq::<(i64, i64)>::empty(), x) == 0);
    assert(total_dir(Seq::<(i64, i64)>::empty()) == 0);
    assert(winding(seq![e], x) == if e.0 <= x { e.1 as int } else { 0 });
    assert(total_dir(seq![e]) == e.1);
    assert forall|i: int, j: int| 0 <= i < j < r.len() implies r[i].0 <= r[j].0 by {
        if j < p {
        } else if j == p {
        } else if i < p {
        } else if i == p {
        } else {
        }
    }
}

/// Sorting keeps the winding numbers and the total direction, and sorts.
pub proof fn lemma_sort_by_x(c: Seq<(i64, i64)>, x: int)
    ensures
        sorted_by_x(sort_by_x(c)),
        winding(sort_by_x(c), x) == winding(c, x),
        total_dir(sort_by_x(c)) == total_dir(c),
        sort_by_x(c).len() == c.len(),
    decreases c.len(),
{
    if c.len() > 0 {
        lemma_sort_by_x(c.drop_last(), x);
        lemma_insert_sorted(sort_by_x(c.drop_last()), c.last(), x);
    }
}

/// Sorting keeps the crossings' columns within `i32` and their directions within `[-1, 1]`.
proof fn lemma_sort_bounds(c: Seq<(i64, i64)>)
    requires
        forall|i: int| 0 <= i < c.len() ==> i32::MIN <= (#[trigger] c[i]).0 <= i32::MAX && -1 <= c[i].1 <= 1,
    ensures
        forall|i: int|
            0 <= i < sort_by_x(c).len() ==> i32::MIN <= (#[trigger] sort_by_x(c)[i]).0 <= i32::MAX && -1
                <= sort_by_x(c)[i].1 <= 1,
    decreases c.len(),
{
    if c.len() > 0 {
        lemma_sort_bounds(c.drop_last());
        let t = sort_by_x(c.drop_last());
        let q = first_greater(t, c.last().0, 0);
        assert(0 <= q <= t.len()) by {
            lemma_sort_by_x(c.drop_last(), 0);
            lemma_first_greater(t, c.last().0, 0);
        }
        assert forall|i: int| 0 <= i < t.len() + 1 implies i32::MIN <= (#[trigger] t.insert(q, c.last())[i]).0
            <= i32::MAX && -1 <= t.insert(q, c.last())[i].1 <= 1 by {
            if i < q {
            } else if i == q {
            } else {
                assert(t.insert(q, c.last())[i] == t[i - 1]);
            }
        }
    }
}

proof fn lemma_winding_all(t: Seq<(i64, i64)>, x: int)
    requires
        forall|i: int| 0 <= i < t.len() ==> t[i].0 <= x,
    ensures
        winding(t, x) == total_dir(t),
    decreases t.len(),
{
    if t.len() > 0 {
        lemma_winding_all(t.drop_last(), x);
    }
}

/// On a sorted sequence, the winding number between the columns of entries
/// `k - 1` and `k` is the summed direction of the first `k` entries.
proof fn lemma_winding_sorted_prefix(t: Seq<(i64, i64)>, k: int, x: int)
    requires
        sorted_by_x(t),
        0 <= k <= t.len(),
        k > 0 ==> t[k - 1].0 <= x,
        k < t.len() ==> x < t[k].0,
    ensures
        winding(t, x) == total_dir(t.take(k)),
    decreases t.len(),
{
    if t.len() == k {
        assert(t.take(k) =~= t);
        lemma_winding_all(t, x);
    } else {
        lemma_winding_sorted_prefix(t.drop_last(), k, x);
        assert(t.drop_last().take(k) =~= t.take(k));
    }
}

// ---------------------------------------------------------------------------
// What one scanline paints.
// ---------------------------------------------------------------------------

pub open spec fn pixel(x: int, y: int) -> IntVec2 {
    IntVec2 { x: x as i32, y: y as i32 }
}

/// The columns of `[lo, hi)` on scanline `y` whose winding number is nonzero, left to right.
pub open spec fn nonzero_span(c: Seq<(i64, i64)>, y: int, lo: int, hi: int) -> Seq<IntVec2>
    decreases hi - lo,
{
    if hi <= lo {
        Seq::empty()
    } else if winding(c, hi - 1) != 0 {
        nonzero_span(c, y, lo, hi - 1).push(pixel(hi - 1, y))
    } else {
        nonzero_span(c, y, lo, hi - 1)
    }
}

/// Fill mode: between the leftmost and the rightmost crossing, every column
/// with a nonzero winding number.
pub open spec fn fill_row(c: Seq<(i64, i64)>, y: int) -> Seq<IntVec2> {
    let t = sort_by_x(c);
    if t.len() == 0 {
        Seq::empty()
    } else {
        nonzero_span(c, y, t[0].0 as int, t.last().0 as int)
    }
}

/// Outline mode, first `m` pairs of the sorted crossings: for each pair of
/// distinct columns, its left column and the column before its right one.
pub open spec fn outline_pairs(t: Seq<(i64, i64)>, y: int, m: int) -> Seq<IntVec2>
    decreases m,
{
    if m <= 0 {
        Seq::empty()
    } else if t[2 * m - 2].0 != t[2 * m - 1].0 {
        outline_pairs(t, y, m - 1).push(pixel(t[2 * m - 2].0 as int, y)).push(
            pixel(t[2 * m - 1].0 - 1, y),
        )
    } else {
        outline_pairs(t, y, m - 1)
    }
}

pub open spec fn outline_row(c: Seq<(i64, i64)>, y: int) -> Seq<IntVec2> {
    let t = sort_by_x(c);
    outline_pairs(t, y, t.len() as int / 2)
}

pub open spec fn scan_row(p: Seq<IntVec2>, fill: bool, y: int) -> Seq<IntVec2> {
    if fill { fill_row(crossings(p, y), y) } else { outline_row(crossings(p, y), y) }
}

/// The scanlines `[lo, y)`, top to bottom.
pub open spec fn scan_rows(p: Seq<IntVec2>, fill: bool, lo: int, y: int) -> Seq<IntVec2>
    decreases y - lo,
{
    if y <= lo {
        Seq::empty()
    } else {
        scan_rows(p, fill, lo, y - 1) + scan_row(p, fill, y - 1)
    }
}

pub open spec fn min_y(p: Seq<IntVec2>) -> int
    decreases p.len(),
{
    if p.len() <= 1 {
        if p.len() == 0 { 0 } else { p[0].y as int }
    } else {
        let m = min_y(p.drop_last());
        if p.last().y < m { p.last().y as int } else { m }
    }
}

pub open spec fn max_y(p: Seq<IntVec2>) -> int
    decreases p.len(),
{
    if p.len() <= 1 {
        if p.len() == 0 { 0 } else { p[0].y as int }
    } else {
        let m = max_y(p.drop_last());
        if p.last().y > m { p.last().y as int } else { m }
    }
}

pub open spec fn min_x(p: Seq<IntVec2>) -> int
    decreases p.len(),
{
    if p.len() <= 1 {
        if p.len() == 0 { 0 } else { p[0].x as int }
    } else {
        let m = min_x(p.drop_last());
        if p.last().x < m { p.last().x as int } else { m }
    }
}

pub open spec fn max_x(p: Seq<IntVec2>) -> int
    decreases p.len(),
{
    if p.len() <= 1 {
        if p.len() == 0 { 0 } else { p[0].x as int }
    } else {
        let m = max_x(p.drop_last());
        if p.last().x > m { p.last().x as int } else { m }
    }
}

/// Every pixel the scanline algorithm paints for the polygon `p`: scanlines
/// from the topmost vertex down to (not including) the bottommost one.
pub open spec fn polygon_pixels(p: Seq<IntVec2>, fill: bool) -> Seq<IntVec2> {
    scan_rows(p, fill, min_y(p), max_y(p))
}

/// The box of the vertices, or the invalid rectangle for a polygon without
/// vertices or whose vertices all lie on one scanline.
pub open spec fn polygon_rect(p: Seq<IntVec2>) -> Rect {
    if p.len() == 0 || min_y(p) == max_y(p) {
        Rect { top: 0, left: 0, width: 0, height: 0 }
    } else {
        crate::rect::corner_box(min_x(p), min_y(p), max_x(p), max_y(p))
    }
}

/// The rectangle a polygon draw reports: see `polygon_rect`.
pub fn polygon_bounds(points: &Vec<IntVec2>) -> (r: Rect)
    ensures
        r == polygon_rect(points@),
{
    let ghost p = points@;
    let n = points.len();
    if n == 0 {
        return Rect::invalid();
    }
    let (mut x0, mut y0, mut x1, mut y1) = (points[0].x, points[0].y, points[0].x, points[0].y);
    let mut i: usize = 1;
    while i < n
        invariant
            1 <= i <= n,
            n == p.len(),
            p == points@,
            x0 == min_x(p.take(i as int)),
            y0 == min_y(p.take(i as int)),
            x1 == max_x(p.take(i as int)),
            y1 == max_y(p.take(i as int)),
        decreases n - i,
    {
        proof {
            assert(p.take(i + 1).drop_last() =~= p.take(i as int));
        }
        let q = points[i];
        if q.x < x0 {
            x0 = q.x;
        }
        if q.y < y0 {
            y0 = q.y;
        }
        if q.x > x1 {
            x1 = q.x;
        }
        if q.y > y1 {
            y1 = q.y;
        }
        i += 1;
    }
    proof {
        assert(p.take(n as int) =~= p);
        lemma_extremes(p, 0);
    }
    if y0 == y1 {
        return Rect::invalid();
    }
    Rect::from_corners(x0, y0, x1, y1)
}

proof fn lemma_extremes(p: Seq<IntVec2>, k: int)
    requires
        0 <= k < p.len(),
    ensures
        min_y(p) <= p[k].y <= max_y(p),
        min_x(p) <= p[k].x <= max_x(p),
        i32::MIN <= min_y(p) <= max_y(p) <= i32::MAX,
        i32::MIN <= min_x(p) <= max_x(p) <= i32::MAX,
    decreases p.len(),
{
    if p.len() > 1 {
        if k < p.len() - 1 {
            lemma_extremes(p.drop_last(), k);
        } else {
            lemma_extremes(p.drop_last(), 0);
        }
    }
}

proof fn lemma_span_zero(c: Seq<(i64, i64)>, y: int, lo: int, a: int, b: int)
    requires
        lo <= a <= b,
        forall|x: int| a <= x < b ==> winding(c, x) == 0,
    ensures
        nonzero_span(c, y, lo, b) == nonzero_span(c, y, lo, a),
    decreases b - a,
{
    if b > a {
        lemma_span_zero(c, y, lo, a, b - 1);
    }
}

proof fn lemma_edge_x_at_start(p: Seq<IntVec2>, j: int)
    ensures
        edge_upper(p, j).y > edge_lower(p, j).y ==> edge_x(p, j, edge_lower(p, j).y as int) == edge_lower(
            p,
            j,
        ).x,
{
    let lo = edge_lower(p, j);
    let hi = edge_upper(p, j);
    if hi.y > lo.y {
        assert((lo.y - lo.y) * abs(hi.x - lo.x) == 0);
        assert(0int / (hi.y - lo.y) == 0);
    }
}

/// On the first scanline of an edge nothing has accumulated.
proof fn lemma_start_error(y: int, e: EdgeBucket)
    ensures
        y == e.ymin && e.dy > 0 ==> ((y - e.ymin) * e.dx) % (e.dy as int) == 0,
{
    if y == e.ymin && e.dy > 0 {
        assert((y - e.ymin) * e.dx == 0) by (nonlinear_arith) requires y == e.ymin;
        assert(0int % (e.dy as int) == 0);
    }
}

/// One edge of the table: where it starts and ends, how it steps, and where it
/// crosses the current scanline (`x`, with `sum` the accumulated error).
#[derive(Clone, Copy)]
struct EdgeBucket {
    ymax: i64,
    ymin: i64,
    x: i64,
    sign: i64,
    direction: i64,
    dx: i64,
    dy: i64,
    sum: i64,
}

/// The bucket holds edge `j` of `p` as it stands on scanline `y`.
spec fn bucket_ok(e: EdgeBucket, p: Seq<IntVec2>, j: int, y: int) -> bool {
    let lo = edge_lower(p, j);
    let hi = edge_upper(p, j);
    &&& e.ymin == lo.y && e.ymax == hi.y && e.direction == edge_dir(p, j)
    &&& e.dx == abs(hi.x - lo.x) && e.dy == hi.y - lo.y
    &&& e.sign == (if lo.x > hi.x { 1int } else { -1int })
    &&& 0 <= e.sum
    &&& (e.dy > 0 ==> e.sum < e.dy)
    &&& (lo.x <= e.x <= hi.x || hi.x <= e.x <= lo.x)
    &&& (y <= e.ymin ==> e.x == lo.x && e.sum == 0)
    &&& (e.ymin <= y <= e.ymax && e.dy > 0 ==> e.x == edge_x(p, j, y) && e.sum == ((y - e.ymin) * e.dx)
        % (e.dy as int))
}

/// Moves an active edge from scanline `y` to `y + 1` by integer error accumulation.
fn advance_edge(e: &mut EdgeBucket, Ghost(p): Ghost<Seq<IntVec2>>, Ghost(j): Ghost<int>, Ghost(y): Ghost<int>)
    requires
        0 <= j < p.len(),
        bucket_ok(*old(e), p, j, y),
        old(e).ymin <= y < old(e).ymax,
    ensures
        bucket_ok(*final(e), p, j, y + 1),
{
    let ghost lo = edge_lower(p, j);
    let ghost hi = edge_upper(p, j);
    let ghost k = y - e.ymin;
    let ghost q0 = (k * e.dx) / (e.dy as int);
    let ghost x0 = e.x;
    let ghost total = (k + 1) * e.dx;
    proof {
        vstd::arithmetic::div_mod::lemma_fundamental_div_mod(k * e.dx, e.dy as int);
        assert(k * e.dx >= 0) by (nonlinear_arith) requires k >= 0, e.dx >= 0;
        assert(total == k * e.dx + e.dx) by (nonlinear_arith) requires total == (k + 1) * e.dx;
        assert(k * e.dx == q0 * e.dy + (k * e.dx) % (e.dy as int)) by (nonlinear_arith)
            requires k * e.dx == e.dy * q0 + (k * e.dx) % (e.dy as int);
        assert(total <= e.dy * e.dx) by (nonlinear_arith) requires total == (k + 1) * e.dx, k + 1 <= e.dy, e.dx >= 0;
    }
    let ghost mut c: int = 0;
    e.sum = e.sum + e.dx;
    while e.sum >= e.dy
        invariant
            e.dy > 0,
            e.dx == old(e).dx,
            e.dy == old(e).dy,
            e.sign == old(e).sign,
            e.ymin == old(e).ymin,
            e.ymax == old(e).ymax,
            e.direction == old(e).direction,
            e.sum >= 0,
            c >= 0,
            total == (q0 + c) * e.dy + e.sum,
            q0 >= 0,
            total <= e.dy * e.dx,
            e.x == x0 - e.sign * c,
            x0 == lo.x - e.sign * q0,
            e.sign == 1 || e.sign == -1,
            e.dx == abs(hi.x - lo.x),
            e.sign == (if lo.x > hi.x { 1int } else { -1int }),
        decreases e.sum,
    {
        proof {
            assert((q0 + c + 1) * e.dy <= e.dy * e.dx) by (nonlinear_arith)
                requires total == (q0 + c) * e.dy + e.sum, e.sum >= e.dy, total <= e.dy * e.dx;
            assert(q0 + c + 1 <= e.dx) by (nonlinear_arith)
                requires (q0 + c + 1) * e.dy <= e.dy * e.dx, e.dy > 0;
            assert((q0 + c + 1) * e.dy == (q0 + c) * e.dy + e.dy) by (nonlinear_arith);
        }
        e.x = e.x - e.sign;
        e.sum = e.sum - e.dy;
        proof {
            c = c + 1;
        }
    }
    proof {
        lemma_fundamental_div_mod_converse(total, e.dy as int, q0 + c, e.sum as int);
        assert(q0 + c <= e.dx) by (nonlinear_arith)
            requires total == (q0 + c) * e.dy + e.sum, e.sum >= 0, total <= e.dy * e.dx, e.dy > 0;
        assert(y + 1 - e.ymin == k + 1);
    }
}

/// Sorts crossings by column (insertion sort, stable).
fn sort_crossings(c: &Vec<(i64, i64)>) -> (t: Vec<(i64, i64)>)
    ensures
        t@ == sort_by_x(c@),
{
    let mut t: Vec<(i64, i64)> = Vec::new();
    let mut i: usize = 0;
    while i < c.len()
        invariant
            i <= c.len(),
            t@ == sort_by_x(c@.take(i as int)),
            sorted_by_x(t@),
        decreases c.len() - i,
    {
        let e = c[i];
        let mut q: usize = 0;
        while q < t.len() && t[q].0 <= e.0
            invariant
                q <= t.len(),
                first_greater(t@, e.0, 0) == first_greater(t@, e.0, q as int),
            decreases t.len() - q,
        {
            q += 1;
        }
        proof {
            assert(c@.take(i + 1).drop_last() =~= c@.take(i as int));
            lemma_insert_sorted(t@, e, 0);
        }
        t.insert(q, e);
        i += 1;
    }
    assert(c@.take(c.len() as int) =~= c@);
    t
}

/// The fill-mode pixels of one scanline from its sorted crossings.
fn fill_span(t: &Vec<(i64, i64)>, y: i64, Ghost(c): Ghost<Seq<(i64, i64)>>) -> (row: Vec<IntVec2>)
    requires
        t@ == sort_by_x(c),
        forall|i: int| 0 <= i < t.len() ==> i32::MIN <= #[trigger] t@[i].0 <= i32::MAX,
        forall|i: int| 0 <= i < t.len() ==> -1 <= #[trigger] t@[i].1 <= 1,
        i32::MIN <= y <= i32::MAX,
    ensures
        row@ == fill_row(c, y as int),
{
    let mut row: Vec<IntVec2> = Vec::new();
    if t.len() == 0 {
        return row;
    }
    proof {
        assert forall|x: int| #[trigger] winding(c, x) == winding(t@, x) by {
            lemma_sort_by_x(c, x);
        }
        lemma_sort_by_x(c, 0);
    }
    let ghost t0 = t@[0].0 as int;
    let mut prev: i64 = t[0].0;
    let mut count: i128 = 0;
    let mut k: usize = 0;
    while k < t.len()
        invariant
            t@ == sort_by_x(c),
            sorted_by_x(t@),
            forall|x: int| #[trigger] winding(c, x) == winding(t@, x),
            forall|i: int| 0 <= i < t.len() ==> i32::MIN <= #[trigger] t@[i].0 <= i32::MAX,
            forall|i: int| 0 <= i < t.len() ==> -1 <= #[trigger] t@[i].1 <= 1,
            i32::MIN <= y <= i32::MAX,
            t.len() > 0,
            t0 == t@[0].0,
            k <= t.len(),
            prev == (if k == 0 { t@[0].0 } else { t@[k - 1].0 }),
            t0 <= prev,
            row@ == nonzero_span(c, y as int, t0, prev as int),
            count == total_dir(t@.take(k as int)),
            -(k as int) <= count <= k,
        decreases t.len() - k,
    {
        let xk = t[k].0;
        proof {
            assert forall|x: int| prev <= x < xk implies winding(c, x) == count by {
                lemma_winding_sorted_prefix(t@, k as int, x);
            }
        }
        if count != 0 {
            let mut x: i64 = prev;
            while x < xk
                invariant
                    prev <= x <= xk,
                    t0 <= prev,
                    i32::MIN <= prev,
                    xk <= i32::MAX,
                    i32::MIN <= y <= i32::MAX,
                    forall|x2: int| prev <= x2 < xk ==> winding(c, x2) == count,
                    count != 0,
                    row@ == nonzero_span(c, y as int, t0, x as int),
                decreases xk - x,
            {
                row.push(IntVec2 { x: x as i32, y: y as i32 });
                x += 1;
            }
        } else {
            proof {
                lemma_span_zero(c, y as int, t0, prev as int, xk as int);
            }
        }
        proof {
            assert(t@.take(k + 1).drop_last() =~= t@.take(k as int));
        }
        prev = xk;
        count = count + t[k].1 as i128;
        k += 1;
    }
    row
}

/// The outline-mode pixels of one scanline from its sorted crossings.
fn outline_span(t: &Vec<(i64, i64)>, y: i64, Ghost(c): Ghost<Seq<(i64, i64)>>) -> (row: Vec<IntVec2>)
    requires
        t@ == sort_by_x(c),
        forall|i: int| 0 <= i < t.len() ==> i32::MIN <= #[trigger] t@[i].0 <= i32::MAX,
        i32::MIN <= y <= i32::MAX,
    ensures
        row@ == outline_row(c, y as int),
{
    let mut row: Vec<IntVec2> = Vec::new();
    let m = t.len() / 2;
    let mut k: usize = 0;
    while k < m
        invariant
            m == t.len() / 2,
            k <= m,
            forall|i: int| 0 <= i < t.len() ==> i32::MIN <= #[trigger] t@[i].0 <= i32::MAX,
            i32::MIN <= y <= i32::MAX,
            row@ == outline_pairs(t@, y as int, k as int),
        decreases m - k,
    {
        let a = t[2 * k].0;
        let b = t[2 * k + 1].0;
        if a != b {
            row.push(IntVec2 { x: a as i32, y: y as i32 });
            row.push(IntVec2 { x: (b - 1) as i32, y: y as i32 });
        }
        k += 1;
    }
    row
}

/// The pixels that a scanline fill (or, with `fill` false, outline) of the
/// closed polygon through `points` paints, in painting order.
pub fn scan_polygon(points: &Vec<IntVec2>, fill: bool) -> (r: Vec<IntVec2>)
    ensures
        r@ == polygon_pixels(points@, fill),
{
    let ghost p = points@;
    let n = points.len();
    let mut out: Vec<IntVec2> = Vec::new();
    if n == 0 {
        return out;
    }
    let mut ylo: i32 = points[0].y;
    let mut yhi: i32 = points[0].y;
    let mut i: usize = 1;
    while i < n
        invariant
            1 <= i <= n,
            n == p.len(),
            p == points@,
            ylo == min_y(p.take(i as int)),
            yhi == max_y(p.take(i as int)),
        decreases n - i,
    {
        proof {
            assert(p.take(i + 1).drop_last() =~= p.take(i as int));
        }
        if points[i].y < ylo {
            ylo = points[i].y;
        }
        if points[i].y > yhi {
            yhi = points[i].y;
        }
        i += 1;
    }
    proof {
        assert(p.take(n as int) =~= p);
    }
    let mut table: Vec<EdgeBucket> = Vec::new();
    let mut j: usize = 0;
    while j < n
        invariant
            j <= n,
            n == p.len(),
            p == points@,
            ylo == min_y(p),
            table@.len() == j,
            forall|jj: int| 0 <= jj < j ==> bucket_ok(#[trigger] table@[jj], p, jj, ylo as int),
        decreases n - j,
    {
        let p0 = points[j];
        let p1 = points[(j + 1) % n];
        let (lower, higher, direction) = if p0.y < p1.y {
            (p0, p1, 1i64)
        } else {
            (p1, p0, -1i64)
        };
        proof {
            lemma_extremes(p, j as int);
            lemma_extremes(p, (j + 1) % (n as int));
        }
        let dxs = higher.x as i64 - lower.x as i64;
        table.push(
            EdgeBucket {
                ymax: higher.y as i64,
                ymin: lower.y as i64,
                x: lower.x as i64,
                sign: if lower.x > higher.x { 1 } else { -1 },
                direction,
                dx: if dxs >= 0 { dxs } else { -dxs },
                dy: higher.y as i64 - lower.y as i64,
                sum: 0,
            },
        );
        proof {
            lemma_edge_x_at_start(p, j as int);
            let e = table@[j as int];
            let lo = edge_lower(p, j as int);
            let hi = edge_upper(p, j as int);
            assert(lo == lower && hi == higher);
            assert(e.ymin == lo.y && e.ymax == hi.y && e.direction == edge_dir(p, j as int));
            assert(e.dx == abs(hi.x - lo.x) && e.dy == hi.y - lo.y);
            assert(ylo <= e.ymin);
            lemma_start_error(ylo as int, e);
            assert(bucket_ok(table@[j as int], p, j as int, ylo as int));
        }
        j += 1;
    }
    let mut y: i64 = ylo as i64;
    while y < yhi as i64
        invariant
            n == p.len(),
            n > 0,
            p == points@,
            ylo == min_y(p),
            yhi == max_y(p),
            ylo <= y <= yhi,
            table@.len() == n,
            forall|jj: int| 0 <= jj < n ==> bucket_ok(#[trigger] table@[jj], p, jj, y as int),
            out@ == scan_rows(p, fill, ylo as int, y as int),
        decreases yhi - y,
    {
        let mut cr: Vec<(i64, i64)> = Vec::new();
        let mut j: usize = 0;
        while j < n
            invariant
                j <= n,
                n == p.len(),
                table@.len() == n,
                forall|jj: int| 0 <= jj < n ==> bucket_ok(#[trigger] table@[jj], p, jj, y as int),
                cr@ == crossings_upto(p, y as int, j as int),
                forall|i: int| 0 <= i < cr.len() ==> i32::MIN <= #[trigger] cr@[i].0 <= i32::MAX,
                forall|i: int| 0 <= i < cr.len() ==> -1 <= #[trigger] cr@[i].1 <= 1,
            decreases n - j,
        {
            let e = table[j];
            proof {
                assert(bucket_ok(table@[j as int], p, j as int, y as int));
            }
            if e.ymin <= y && y < e.ymax {
                cr.push((e.x, e.direction));
            }
            j += 1;
        }
        let t = sort_crossings(&cr);
        proof {
            lemma_sort_bounds(cr@);
        }
        let mut row = if fill {
            fill_span(&t, y, Ghost(cr@))
        } else {
            outline_span(&t, y, Ghost(cr@))
        };
        out.append(&mut row);
        let mut j: usize = 0;
        while j < n
            invariant
                j <= n,
                n == p.len(),
                table@.len() == n,
                forall|jj: int| 0 <= jj < j ==> bucket_ok(#[trigger] table@[jj], p, jj, y + 1),
                forall|jj: int| j <= jj < n ==> bucket_ok(#[trigger] table@[jj], p, jj, y as int),
            decreases n - j,
        {
            let mut e = table[j];
            proof {
                lemma_edge_x_at_start(p, j as int);
                lemma_start_error(y + 1, e);
            }
            if e.ymin <= y && y < e.ymax {
                advance_edge(&mut e, Ghost(p), Ghost(j as int), Ghost(y as int));
            }
            table.set(j, e);
            j += 1;
        }
        y += 1;
    }
    out
}

proof fn lemma_unit_square_order_0(x: i32, y: i32)
    requires
        x < i32::MAX,
        y < i32::MAX,
    ensures
        ({
            let a = IntVec2 { x: x, y: y };
            let b = IntVec2 { x: x, y: (y + 1) as i32 };
            let c = IntVec2 { x: (x + 1) as i32, y: (y + 1) as i32 };
            let d = IntVec2 { x: (x + 1) as i32, y: y };
            &&& polygon_pixels(seq![a, b, c, d], true) == seq![pixel(x as int, y as int)]
            &&& (x >= 0 && y >= 0 ==> polygon_rect(seq![a, b, c, d]) == (Rect { top: y as u32, left: x as u32, width: 1, height: 1 }))
        }),
{
    let a = IntVec2 { x: x, y: y };
    let b = IntVec2 { x: x, y: (y + 1) as i32 };
    let c = IntVec2 { x: (x + 1) as i32, y: (y + 1) as i32 };
    let d = IntVec2 { x: (x + 1) as i32, y: y };
    let p = seq![a, b, c, d];
    let yy = y as int;
    let empty = Seq::<(i64, i64)>::empty();
    assert(seq![a, b, c, d].drop_last() =~= seq![a, b, c]);
    assert(seq![a, b, c].drop_last() =~= seq![a, b]);
    assert(seq![a, b].drop_last() =~= seq![a]);
    assert(min_y(seq![a]) == y && max_y(seq![a]) == y);
    assert(min_x(seq![a]) == x && max_x(seq![a]) == x);
    assert(min_y(seq![a, b]) == y && max_y(seq![a, b]) == y + 1);
    assert(min_x(seq![a, b]) == x && max_x(seq![a, b]) == x);
    assert(min_y(seq![a, b, c]) == y && max_y(seq![a, b, c]) == y + 1);
    assert(min_x(seq![a, b, c]) == x && max_x(seq![a, b, c]) == x + 1);
    assert(min_y(seq![a, b, c, d]) == y && max_y(seq![a, b, c, d]) == y + 1);
    assert(min_x(seq![a, b, c, d]) == x && max_x(seq![a, b, c, d]) == x + 1);
    assert(crossings_upto(p, yy, 0) == empty);
    assert(edge_active(p, 0, yy) && edge_x(p, 0, yy) == x && edge_dir(p, 0) == 1);
    assert(crossings_upto(p, yy, 1) == seq![((x) as i64, 1i64)]);
    assert(!edge_active(p, 1, yy));
    assert(crossings_upto(p, yy, 2) == seq![((x) as i64, 1i64)]);
    assert(edge_active(p, 2, yy) && edge_x(p, 2, yy) == x + 1 && edge_dir(p, 2) == -1);
    assert(crossings_upto(p, yy, 3) == seq![((x) as i64, 1i64), ((x + 1) as i64, -1i64)]);
    assert(!edge_active(p, 3, yy));
    assert(crossings_upto(p, yy, 4) == seq![((x) as i64, 1i64), ((x + 1) as i64, -1i64)]);
    let e0 = ((x) as i64, 1i64);
    let e1 = ((x + 1) as i64, -1i64);
    let cr = seq![e0, e1];
    assert(crossings(p, yy) == cr);
    assert(cr.drop_last() =~= seq![e0]);
    assert(seq![e0].drop_last() =~= empty);
    assert(sort_by_x(empty) == empty);
    assert(first_greater(empty, e0.0, 0) == 0);
    assert(empty.insert(0, e0) =~= seq![e0]);
    assert(sort_by_x(seq![e0]) == seq![e0]);
    assert(first_greater(seq![e0], e1.0, 1) == 1);
    assert(first_greater(seq![e0], e1.0, 0) == 1);
    assert(seq![e0].insert(1, e1) =~= cr);
    let t = cr;
    assert(sort_by_x(cr) == t);
    assert(winding(empty, x as int) == 0);
    assert(winding(seq![e0], x as int) == 1);
    assert(winding(cr, x as int) == 1);
    assert(nonzero_span(cr, yy, x as int, x as int) == Seq::<IntVec2>::empty());
    assert(nonzero_span(cr, yy, x as int, x + 1) =~= seq![pixel(x as int, yy)]);
    assert(fill_row(cr, yy) == seq![pixel(x as int, yy)]);
    assert(scan_rows(p, true, yy, yy) == Seq::<IntVec2>::empty());
    assert(scan_rows(p, true, yy, yy + 1) =~= seq![pixel(x as int, yy)]);
}

proof fn lemma_unit_square_order_1(x: i32, y: i32)
    requires
        x < i32::MAX,
        y < i32::MAX,
    ensures
        ({
            let a = IntVec2 { x: x, y: y };
            let b = IntVec2 { x: x, y: (y + 1) as i32 };
            let c = IntVec2 { x: (x + 1) as i32, y: (y + 1) as i32 };
            let d = IntVec2 { x: (x + 1) as i32, y: y };
            &&& polygon_pixels(seq![d, c, b, a], true) == seq![pixel(x as int, y as int)]
            &&& (x >= 0 && y >= 0 ==> polygon_rect(seq![d, c, b, a]) == (Rect { top: y as u32, left: x as u32, width: 1, height: 1 }))
        }),
{
    let a = IntVec2 { x: x, y: y };
    let b = IntVec2 { x: x, y: (y + 1) as i32 };
    let c = IntVec2 { x: (x + 1) as i32, y: (y + 1) as i32 };
    let d = IntVec2 { x: (x + 1) as i32, y: y };
    let p = seq![d, c, b, a];
    let yy = y as int;
    let empty = Seq::<(i64, i64)>::empty();
    assert(seq![d, c, b, a].drop_last() =~= seq![d, c, b]);
    assert(seq![d, c, b].drop_last() =~= seq![d, c]);
    assert(seq![d, c].drop_last() =~= seq![d]);
    assert(min_y(seq![d]) == y && max_y(seq![d]) == y);
    assert(min_x(seq![d]) == x + 1 && max_x(seq![d]) == x + 1);
    assert(min_y(seq![d, c]) == y && max_y(seq![d, c]) == y + 1);
    assert(min_x(seq![d, c]) == x + 1 && max_x(seq![d, c]) == x + 1);
    assert(min_y(seq![d, c, b]) == y && max_y(seq![d, c, b]) == y + 1);
    assert(min_x(seq![d, c, b]) == x && max_x(seq![d, c, b]) == x + 1);
    assert(min_y(seq![d, c, b, a]) == y && max_y(seq![d, c, b, a]) == y + 1);
    assert(min_x(seq![d, c, b, a]) == x && max_x(seq![d, c, b, a]) == x + 1);
    assert(crossings_upto(p, yy, 0) == empty);
    assert(edge_active(p, 0, yy) && edge_x(p, 0, yy) == x + 1 && edge_dir(p, 0) == 1);
    assert(crossings_upto(p, yy, 1) == seq![((x + 1) as i64, 1i64)]);
    assert(!edge_active(p, 1, yy));
    assert(crossings_upto(p, yy, 2) == seq![((x + 1) as i64, 1i64)]);
    assert(edge_active(p, 2, yy) && edge_x(p, 2, yy) == x && edge_dir(p, 2) == -1);
    assert(crossings_upto(p, yy, 3) == seq![((x + 1) as i64, 1i64), ((x) as i64, -1i64)]);
    assert(!edge_active(p, 3, yy));
    assert(crossings_upto(p, yy, 4) == seq![((x + 1) as i64, 1i64), ((x) as i64, -1i64)]);
    let e0 = ((x + 1) as i64, 1i64);
    let e1 = ((x) as i64, -1i64);
    let cr = seq![e0, e1];
    assert(crossings(p, yy) == cr);
    assert(cr.drop_last() =~= seq![e0]);
    assert(seq![e0].drop_last() =~= empty);
    assert(sort_by_x(empty) == empty);
    assert(first_greater(empty, e0.0, 0) == 0);
    assert(empty.insert(0, e0) =~= seq![e0]);
    assert(sort_by_x(seq![e0]) == seq![e0]);
    assert(first_greater(seq![e0], e1.0, 0) == 0);
    assert(seq![e0].insert(0, e1) =~= seq![e1, e0]);
    let t = seq![e1, e0];
    assert(sort_by_x(cr) == t);
    assert(winding(empty, x as int) == 0);
    assert(winding(seq![e0], x as int) == 0);
    assert(winding(cr, x as int) == -1);
    assert(nonzero_span(cr, yy, x as int, x as int) == Seq::<IntVec2>::empty());
    assert(nonzero_span(cr, yy, x as int, x + 1) =~= seq![pixel(x as int, yy)]);
    assert(fill_row(cr, yy) == seq![pixel(x as int, yy)]);
    assert(scan_rows(p, true, yy, yy) == Seq::<IntVec2>::empty());
    assert(scan_rows(p, true, yy, yy + 1) =~= seq![pixel(x as int, yy)]);
}

proof fn lemma_unit_square_order_2(x: i32, y: i32)
    requires
        x < i32::MAX,
        y < i32::MAX,
    ensures
        ({
            let a = IntVec2 { x: x, y: y };
            let b = IntVec2 { x: x, y: (y + 1) as i32 };
            let c = IntVec2 { x: (x + 1) as i32, y: (y + 1) as i32 };
            let d = IntVec2 { x: (x + 1) as i32, y: y };
            &&& polygon_pixels(seq![b, c, d, a], true) == seq![pixel(x as int, y as int)]
            &&& (x >= 0 && y >= 0 ==> polygon_rect(seq![b, c, d, a]) == (Rect { top: y as u32, left: x as u32, width: 1, height: 1 }))
        }),
{
    let a = IntVec2 { x: x, y: y };
    let b = IntVec2 { x: x, y: (y + 1) as i32 };
    let c = IntVec2 { x: (x + 1) as i32, y: (y + 1) as i32 };
    let d = IntVec2 { x: (x + 1) as i32, y: y };
    let p = seq![b, c, d, a];
    let yy = y as int;
    let empty = Seq::<(i64, i64)>::empty();
    assert(seq![b, c, d, a].drop_last() =~= seq![b, c, d]);
    assert(seq![b, c, d].drop_last() =~= seq![b, c]);
    assert(seq![b, c].drop_last() =~= seq![b]);
    assert(min_y(seq![b]) == y + 1 && max_y(seq![b]) == y + 1);
    assert(min_x(seq![b]) == x && max_x(seq![b]) == x);
    assert(min_y(seq![b, c]) == y + 1 && max_y(seq![b, c]) == y + 1);
    assert(min_x(seq![b, c]) == x && max_x(seq![b, c]) == x + 1);
    assert(min_y(seq![b, c, d]) == y && max_y(seq![b, c, d]) == y + 1);
    assert(min_x(seq![b, c, d]) == x && max_x(seq![b, c, d]) == x + 1);
    assert(min_y(seq![b, c, d, a]) == y && max_y(seq![b, c, d, a]) == y + 1);
    assert(min_x(seq![b, c, d, a]) == x && max_x(seq![b, c, d, a]) == x + 1);
    assert(crossings_upto(p, yy, 0) == empty);
    assert(!edge_active(p, 0, yy));
    assert(crossings_upto(p, yy, 1) == empty);
    assert(edge_active(p, 1, yy) && edge_x(p, 1, yy) == x + 1 && edge_dir(p, 1) == -1);
    assert(crossings_upto(p, yy, 2) == seq![((x + 1) as i64, -1i64)]);
    assert(!edge_active(p, 2, yy));
    assert(crossings_upto(p, yy, 3) == seq![((x + 1) as i64, -1i64)]);
    assert(edge_active(p, 3, yy) && edge_x(p, 3, yy) == x && edge_dir(p, 3) == 1);
    assert(crossings_upto(p, yy, 4) == seq![((x + 1) as i64, -1i64), ((x) as i64, 1i64)]);
    let e0 = ((x + 1) as i64, -1i64);
    let e1 = ((x) as i64, 1i64);
    let cr = seq![e0, e1];
    assert(crossings(p, yy) == cr);
    assert(cr.drop_last() =~= seq![e0]);
    assert(seq![e0].drop_last() =~= empty);
    assert(sort_by_x(empty) == empty);
    assert(first_greater(empty, e0.0, 0) == 0);
    assert(empty.insert(0, e0) =~= seq![e0]);
    assert(sort_by_x(seq![e0]) == seq![e0]);
    assert(first_greater(seq![e0], e1.0, 0) == 0);
    assert(seq![e0].insert(0, e1) =~= seq![e1, e0]);
    let t = seq![e1, e0];
    assert(sort_by_x(cr) == t);
    assert(winding(empty, x as int) == 0);
    assert(winding(seq![e0], x as int) == 0);
    assert(winding(cr, x as int) == 1);
    assert(nonzero_span(cr, yy, x as int, x as int) == Seq::<IntVec2>::empty());
    assert(nonzero_span(cr, yy, x as int, x + 1) =~= seq![pixel(x as int, yy)]);
    assert(fill_row(cr, yy) == seq![pixel(x as int, yy)]);
    assert(scan_rows(p, true, yy, yy) == Seq::<IntVec2>::empty());
    assert(scan_rows(p, true, yy, yy + 1) =~= seq![pixel(x as int, yy)]);
}

proof fn lemma_unit_square_order_3(x: i32, y: i32)
    requires
        x < i32::MAX,
        y < i32::MAX,
    ensures
        ({
            let a = IntVec2 { x: x, y: y };
            let b = IntVec2 { x: x, y: (y + 1) as i32 };
            let c = IntVec2 { x: (x + 1) as i32, y: (y + 1) as i32 };
            let d = IntVec2 { x: (x + 1) as i32, y: y };
            &&& polygon_pixels(seq![a, d, c, b], true) == seq![pixel(x as int, y as int)]
            &&& (x >= 0 && y >= 0 ==> polygon_rect(seq![a, d, c, b]) == (Rect { top: y as u32, left: x as u32, width: 1, height: 1 }))
        }),
{
    let a = IntVec2 { x: x, y: y };
    let b = IntVec2 { x: x, y: (y + 1) as i32 };
    let c = IntVec2 { x: (x + 1) as i32, y: (y + 1) as i32 };
    let d = IntVec2 { x: (x + 1) as i32, y: y };
    let p = seq![a, d, c, b];
    let yy = y as int;
    let empty = Seq::<(i64, i64)>::empty();
    assert(seq![a, d, c, b].drop_last() =~= seq![a, d, c]);
    assert(seq![a, d, c].drop_last() =~= seq![a, d]);
    assert(seq![a, d].drop_last() =~= seq![a]);
    assert(min_y(seq![a]) == y && max_y(seq![a]) == y);
    assert(min_x(seq![a]) == x && max_x(seq![a]) == x);
    assert(min_y(seq![a, d]) == y && max_y(seq![a, d]) == y);
    assert(min_x(seq![a, d]) == x && max_x(seq![a, d]) == x + 1);
    assert(min_y(seq![a, d, c]) == y && max_y(seq![a, d, c]) == y + 1);
    assert(min_x(seq![a, d, c]) == x && max_x(seq![a, d, c]) == x + 1);
    assert(min_y(seq![a, d, c, b]) == y && max_y(seq![a, d, c, b]) == y + 1);
    assert(min_x(seq![a, d, c, b]) == x && max_x(seq![a, d, c, b]) == x + 1);
    assert(crossings_upto(p, yy, 0) == empty);
    assert(!edge_active(p, 0, yy));
    assert(crossings_upto(p, yy, 1) == empty);
    assert(edge_active(p, 1, yy) && edge_x(p, 1, yy) == x + 1 && edge_dir(p, 1) == 1);
    assert(crossings_upto(p, yy, 2) == seq![((x + 1) as i64, 1i64)]);
    assert(!edge_active(p, 2, yy));
    assert(crossings_upto(p, yy, 3) == seq![((x + 1) as i64, 1i64)]);
    assert(edge_active(p, 3, yy) && edge_x(p, 3, yy) == x && edge_dir(p, 3) == -1);
    assert(crossings_upto(p, yy, 4) == seq![((x + 1) as i64, 1i64), ((x) as i64, -1i64)]);
    let e0 = ((x + 1) as i64, 1i64);
    let e1 = ((x) as i64, -1i64);
    let cr = seq![e0, e1];
    assert(crossings(p, yy) == cr);
    assert(cr.drop_last() =~= seq![e0]);
    assert(seq![e0].drop_last() =~= empty);
    assert(sort_by_x(empty) == empty);
    assert(first_greater(empty, e0.0, 0) == 0);
    assert(empty.insert(0, e0) =~= seq![e0]);
    assert(sort_by_x(seq![e0]) == seq![e0]);
    assert(first_greater(seq![e0], e1.0, 0) == 0);
    assert(seq![e0].insert(0, e1) =~= seq![e1, e0]);
    let t = seq![e1, e0];
    assert(sort_by_x(cr) == t);
    assert(winding(empty, x as int) == 0);
    assert(winding(seq![e0], x as int) == 0);
    assert(winding(cr, x as int) == -1);
    assert(nonzero_span(cr, yy, x as int, x as int) == Seq::<IntVec2>::empty());
    assert(nonzero_span(cr, yy, x as int, x + 1) =~= seq![pixel(x as int, yy)]);
    assert(fill_row(cr, yy) == seq![pixel(x as int, yy)]);
    assert(scan_rows(p, true, yy, yy) == Seq::<IntVec2>::empty());
    assert(scan_rows(p, true, yy, yy + 1) =~= seq![pixel(x as int, yy)]);
}

proof fn lemma_unit_square_order_4(x: i32, y: i32)
    requires
        x < i32::MAX,
        y < i32::MAX,
    ensures
        ({
            let a = IntVec2 { x: x, y: y };
            let b = IntVec2 { x: x, y: (y + 1) as i32 };
            let c = IntVec2 { x: (x + 1) as i32, y: (y + 1) as i32 };
            let d = IntVec2 { x: (x + 1) as i32, y: y };
            &&& polygon_pixels(seq![c, d, a, b], true) == seq![pixel(x as int, y as int)]
            &&& (x >= 0 && y >= 0 ==> polygon_rect(seq![c, d, a, b]) == (Rect { top: y as u32, left: x as u32, width: 1, height: 1 }))
        }),
{
    let a = IntVec2 { x: x, y: y };
    let b = IntVec2 { x: x, y: (y + 1) as i32 };
    let c = IntVec2 { x: (x + 1) as i32, y: (y + 1) as i32 };
    let d = IntVec2 { x: (x + 1) as i32, y: y };
    let p = seq![c, d, a, b];
    let yy = y as int;
    let empty = Seq::<(i64, i64)>::empty();
    assert(seq![c, d, a, b].drop_last() =~= seq![c, d, a]);
    assert(seq![c, d, a].drop_last() =~= seq![c, d]);
    assert(seq![c, d].drop_last() =~= seq![c]);
    assert(min_y(seq![c]) == y + 1 && max_y(seq![c]) == y + 1);
    assert(min_x(seq![c]) == x + 1 && max_x(seq![c]) == x + 1);
    assert(min_y(seq![c, d]) == y && max_y(seq![c, d]) == y + 1);
    assert(min_x(seq![c, d]) == x + 1 && max_x(seq![c, d]) == x + 1);
    assert(min_y(seq![c, d, a]) == y && max_y(seq![c, d, a]) == y + 1);
    assert(min_x(seq![c, d, a]) == x && max_x(seq![c, d, a]) == x + 1);
    assert(min_y(seq![c, d, a, b]) == y && max_y(seq![c, d, a, b]) == y + 1);
    assert(min_x(seq![c, d, a, b]) == x && max_x(seq![c, d, a, b]) == x + 1);
    assert(crossings_upto(p, yy, 0) == empty);
    assert(edge_active(p, 0, yy) && edge_x(p, 0, yy) == x + 1 && edge_dir(p, 0) == -1);
    assert(crossings_upto(p, yy, 1) == seq![((x + 1) as i64, -1i64)]);
    assert(!edge_active(p, 1, yy));
    assert(crossings_upto(p, yy, 2) == seq![((x + 1) as i64, -1i64)]);
    assert(edge_active(p, 2, yy) && edge_x(p, 2, yy) == x && edge_dir(p, 2) == 1);
    assert(crossings_upto(p, yy, 3) == seq![((x + 1) as i64, -1i64), ((x) as i64, 1i64)]);
    assert(!edge_active(p, 3, yy));
    assert(crossings_upto(p, yy, 4) == seq![((x + 1) as i64, -1i64), ((x) as i64, 1i64)]);
    let e0 = ((x + 1) as i64, -1i64);
    let e1 = ((x) as i64, 1i64);
    let cr = seq![e0, e1];
    assert(crossings(p, yy) == cr);
    assert(cr.drop_last() =~= seq![e0]);
    assert(seq![e0].drop_last() =~= empty);
    assert(sort_by_x(empty) == empty);
    assert(first_greater(empty, e0.0, 0) == 0);
    assert(empty.insert(0, e0) =~= seq![e0]);
    assert(sort_by_x(seq![e0]) == seq![e0]);
    assert(first_greater(seq![e0], e1.0, 0) == 0);
    assert(seq![e0].insert(0, e1) =~= seq![e1, e0]);
    let t = seq![e1, e0];
    assert(sort_by_x(cr) == t);
    assert(winding(empty, x as int) == 0);
    assert(winding(seq![e0], x as int) == 0);
    assert(winding(cr, x as int) == 1);
    assert(nonzero_span(cr, yy, x as int, x as int) == Seq::<IntVec2>::empty());
    assert(nonzero_span(cr, yy, x as int, x + 1) =~= seq![pixel(x as int, yy)]);
    assert(fill_row(cr, yy) == seq![pixel(x as int, yy)]);
    assert(scan_rows(p, true, yy, yy) == Seq::<IntVec2>::empty());
    assert(scan_rows(p, true, yy, yy + 1) =~= seq![pixel(x as int, yy)]);
}

proof fn lemma_unit_square_order_5(x: i32, y: i32)
    requires
        x < i32::MAX,
        y < i32::MAX,
    ensures
        ({
            let a = IntVec2 { x: x, y: y };
            let b = IntVec2 { x: x, y: (y + 1) as i32 };
            let c = IntVec2 { x: (x + 1) as i32, y: (y + 1) as i32 };
            let d = IntVec2 { x: (x + 1) as i32, y: y };
            &&& polygon_pixels(seq![b, a, d, c], true) == seq![pixel(x as int, y as int)]
            &&& (x >= 0 && y >= 0 ==> polygon_rect(seq![b, a, d, c]) == (Rect { top: y as u32, left: x as u32, width: 1, height: 1 }))
        }),
{
    let a = IntVec2 { x: x, y: y };
    let b = IntVec2 { x: x, y: (y + 1) as i32 };
    let c = IntVec2 { x: (x + 1) as i32, y: (y + 1) as i32 };
    let d = IntVec2 { x: (x + 1) as i32, y: y };
    let p = seq![b, a, d, c];
    let yy = y as int;
    let empty = Seq::<(i64, i64)>::empty();
    assert(seq![b, a, d, c].drop_last() =~= seq![b, a, d]);
    assert(seq![b, a, d].drop_last() =~= seq![b, a]);
    assert(seq![b, a].drop_last() =~= seq![b]);
    assert(min_y(seq![b]) == y + 1 && max_y(seq![b]) == y + 1);
    assert(min_x(seq![b]) == x && max_x(seq![b]) == x);
    assert(min_y(seq![b, a]) == y && max_y(seq![b, a]) == y + 1);
    assert(min_x(seq![b, a]) == x && max_x(seq![b, a]) == x);
    assert(min_y(seq![b, a, d]) == y && max_y(seq![b, a, d]) == y + 1);
    assert(min_x(seq![b, a, d]) == x && max_x(seq![b, a, d]) == x + 1);
    assert(min_y(seq![b, a, d, c]) == y && max_y(seq![b, a, d, c]) == y + 1);
    assert(min_x(seq![b, a, d, c]) == x && max_x(seq![b, a, d, c]) == x + 1);
    assert(crossings_upto(p, yy, 0) == empty);
    assert(edge_active(p, 0, yy) && edge_x(p, 0, yy) == x && edge_dir(p, 0) == -1);
    assert(crossings_upto(p, yy, 1) == seq![((x) as i64, -1i64)]);
    assert(!edge_active(p, 1, yy));
    assert(crossings_upto(p, yy, 2) == seq![((x) as i64, -1i64)]);
    assert(edge_active(p, 2, yy) && edge_x(p, 2, yy) == x + 1 && edge_dir(p, 2) == 1);
    assert(crossings_upto(p, yy, 3) == seq![((x) as i64, -1i64), ((x + 1) as i64, 1i64)]);
    assert(!edge_active(p, 3, yy));
    assert(crossings_upto(p, yy, 4) == seq![((x) as i64, -1i64), ((x + 1) as i64, 1i64)]);
    let e0 = ((x) as i64, -1i64);
    let e1 = ((x + 1) as i64, 1i64);
    let cr = seq![e0, e1];
    assert(crossings(p, yy) == cr);
    assert(cr.drop_last() =~= seq![e0]);
    assert(seq![e0].drop_last() =~= empty);
    assert(sort_by_x(empty) == empty);
    assert(first_greater(empty, e0.0, 0) == 0);
    assert(empty.insert(0, e0) =~= seq![e0]);
    assert(sort_by_x(seq![e0]) == seq![e0]);
    assert(first_greater(seq![e0], e1.0, 1) == 1);
    assert(first_greater(seq![e0], e1.0, 0) == 1);
    assert(seq![e0].insert(1, e1) =~= cr);
    let t = cr;
    assert(sort_by_x(cr) == t);
    assert(winding(empty, x as int) == 0);
    assert(winding(seq![e0], x as int) == -1);
    assert(winding(cr, x as int) == -1);
    assert(nonzero_span(cr, yy, x as int, x as int) == Seq::<IntVec2>::empty());
    assert(nonzero_span(cr, yy, x as int, x + 1) =~= seq![pixel(x as int, yy)]);
    assert(fill_row(cr, yy) == seq![pixel(x as int, yy)]);
    assert(scan_rows(p, true, yy, yy) == Seq::<IntVec2>::empty());
    assert(scan_rows(p, true, yy, yy + 1) =~= seq![pixel(x as int, yy)]);
}

proof fn lemma_unit_square_order_6(x: i32, y: i32)
    requires
        x < i32::MAX,
        y < i32::MAX,
    ensures
        ({
            let a = IntVec2 { x: x, y: y };
            let b = IntVec2 { x: x, y: (y + 1) as i32 };
            let c = IntVec2 { x: (x + 1) as i32, y: (y + 1) as i32 };
            let d = IntVec2 { x: (x + 1) as i32, y: y };
            &&& polygon_pixels(seq![d, a, b, c], true) == seq![pixel(x as int, y as int)]
            &&& (x >= 0 && y >= 0 ==> polygon_rect(seq![d, a, b, c]) == (Rect { top: y as u32, left: x as u32, width: 1, height: 1 }))
        }),
{
    let a = IntVec2 { x: x, y: y };
    let b = IntVec2 { x: x, y: (y + 1) as i32 };
    let c = IntVec2 { x: (x + 1) as i32, y: (y + 1) as i32 };
    let d = IntVec2 { x: (x + 1) as i32, y: y };
    let p = seq![d, a, b, c];
    let yy = y as int;
    let empty = Seq::<(i64, i64)>::empty();
    assert(seq![d, a, b, c].drop_last() =~= seq![d, a, b]);
    assert(seq![d, a, b].drop_last() =~= seq![d, a]);
    assert(seq![d, a].drop_last() =~= seq![d]);
    assert(min_y(seq![d]) == y && max_y(seq![d]) == y);
    assert(min_x(seq![d]) == x + 1 && max_x(seq![d]) == x + 1);
    assert(min_y(seq![d, a]) == y && max_y(seq![d, a]) == y);
    assert(min_x(seq![d, a]) == x && max_x(seq![d, a]) == x + 1);
    assert(min_y(seq![d, a, b]) == y && max_y(seq![d, a, b]) == y + 1);
    assert(min_x(seq![d, a, b]) == x && max_x(seq![d, a, b]) == x + 1);
    assert(min_y(seq![d, a, b, c]) == y && max_y(seq![d, a, b, c]) == y + 1);
    assert(min_x(seq![d, a, b, c]) == x && max_x(seq![d, a, b, c]) == x + 1);
    assert(crossings_upto(p, yy, 0) == empty);
    assert(!edge_active(p, 0, yy));
    assert(crossings_upto(p, yy, 1) == empty);
    assert(edge_active(p, 1, yy) && edge_x(p, 1, yy) == x && edge_dir(p, 1) == 1);
    assert(crossings_upto(p, yy, 2) == seq![((x) as i64, 1i64)]);
    assert(!edge_active(p, 2, yy));
    assert(crossings_upto(p, yy, 3) == seq![((x) as i64, 1i64)]);
    assert(edge_active(p, 3, yy) && edge_x(p, 3, yy) == x + 1 && edge_dir(p, 3) == -1);
    assert(crossings_upto(p, yy, 4) == seq![((x) as i64, 1i64), ((x + 1) as i64, -1i64)]);
    let e0 = ((x) as i64, 1i64);
    let e1 = ((x + 1) as i64, -1i64);
    let cr = seq![e0, e1];
    assert(crossings(p, yy) == cr);
    assert(cr.drop_last() =~= seq![e0]);
    assert(seq![e0].drop_last() =~= empty);
    assert(sort_by_x(empty) == empty);
    assert(first_greater(empty, e0.0, 0) == 0);
    assert(empty.insert(0, e0) =~= seq![e0]);
    assert(sort_by_x(seq![e0]) == seq![e0]);
    assert(first_greater(seq![e0], e1.0, 1) == 1);
    assert(first_greater(seq![e0], e1.0, 0) == 1);
    assert(seq![e0].insert(1, e1) =~= cr);
    let t = cr;
    assert(sort_by_x(cr) == t);
    assert(winding(empty, x as int) == 0);
    assert(winding(seq![e0], x as int) == 1);
    assert(winding(cr, x as int) == 1);
    assert(nonzero_span(cr, yy, x as int, x as int) == Seq::<IntVec2>::empty());
    assert(nonzero_span(cr, yy, x as int, x + 1) =~= seq![pixel(x as int, yy)]);
    assert(fill_row(cr, yy) == seq![pixel(x as int, yy)]);
    assert(scan_rows(p, true, yy, yy) == Seq::<IntVec2>::empty());
    assert(scan_rows(p, true, yy, yy + 1) =~= seq![pixel(x as int, yy)]);
}

proof fn lemma_unit_square_order_7(x: i32, y: i32)
    requires
        x < i32::MAX,
        y < i32::MAX,
    ensures
        ({
            let a = IntVec2 { x: x, y: y };
            let b = IntVec2 { x: x, y: (y + 1) as i32 };
            let c = IntVec2 { x: (x + 1) as i32, y: (y + 1) as i32 };
            let d = IntVec2 { x: (x + 1) as i32, y: y };
            &&& polygon_pixels(seq![c, b, a, d], true) == seq![pixel(x as int, y as int)]
            &&& (x >= 0 && y >= 0 ==> polygon_rect(seq![c, b, a, d]) == (Rect { top: y as u32, left: x as u32, width: 1, height: 1 }))
        }),
{
    let a = IntVec2 { x: x, y: y };
    let b = IntVec2 { x: x, y: (y + 1) as i32 };
    let c = IntVec2 { x: (x + 1) as i32, y: (y + 1) as i32 };
    let d = IntVec2 { x: (x + 1) as i32, y: y };
    let p = seq![c, b, a, d];
    let yy = y as int;
    let empty = Seq::<(i64, i64)>::empty();
    assert(seq![c, b, a, d].drop_last() =~= seq![c, b, a]);
    assert(seq![c, b, a].drop_last() =~= seq![c, b]);
    assert(seq![c, b].drop_last() =~= seq![c]);
    assert(min_y(seq![c]) == y + 1 && max_y(seq![c]) == y + 1);
    assert(min_x(seq![c]) == x + 1 && max_x(seq![c]) == x + 1);
    assert(min_y(seq![c, b]) == y + 1 && max_y(seq![c, b]) == y + 1);
    assert(min_x(seq![c, b]) == x && max_x(seq![c, b]) == x + 1);
    assert(min_y(seq![c, b, a]) == y && max_y(seq![c, b, a]) == y + 1);
    assert(min_x(seq![c, b, a]) == x && max_x(seq![c, b, a]) == x + 1);
    assert(min_y(seq![c, b, a, d]) == y && max_y(seq![c, b, a, d]) == y + 1);
    assert(min_x(seq![c, b, a, d]) == x && max_x(seq![c, b, a, d]) == x + 1);
    assert(crossings_upto(p, yy, 0) == empty);
    assert(!edge_active(p, 0, yy));
    assert(crossings_upto(p, yy, 1) == empty);
    assert(edge_active(p, 1, yy) && edge_x(p, 1, yy) == x && edge_dir(p, 1) == -1);
    assert(crossings_upto(p, yy, 2) == seq![((x) as i64, -1i64)]);
    assert(!edge_active(p, 2, yy));
    assert(crossings_upto(p, yy, 3) == seq![((x) as i64, -1i64)]);
    assert(edge_active(p, 3, yy) && edge_x(p, 3, yy) == x + 1 && edge_dir(p, 3) == 1);
    assert(crossings_upto(p, yy, 4) == seq![((x) as i64, -1i64), ((x + 1) as i64, 1i64)]);
    let e0 = ((x) as i64, -1i64);
    let e1 = ((x + 1) as i64, 1i64);
    let cr = seq![e0, e1];
    assert(crossings(p, yy) == cr);
    assert(cr.drop_last() =~= seq![e0]);
    assert(seq![e0].drop_last() =~= empty);
    assert(sort_by_x(empty) == empty);
    assert(first_greater(empty, e0.0, 0) == 0);
    assert(empty.insert(0, e0) =~= seq![e0]);
    assert(sort_by_x(seq![e0]) == seq![e0]);
    assert(first_greater(seq![e0], e1.0, 1) == 1);
    assert(first_greater(seq![e0], e1.0, 0) == 1);
    assert(seq![e0].insert(1, e1) =~= cr);
    let t = cr;
    assert(sort_by_x(cr) == t);
    assert(winding(empty, x as int) == 0);
    assert(winding(seq![e0], x as int) == -1);
    assert(winding(cr, x as int) == -1);
    assert(nonzero_span(cr, yy, x as int, x as int) == Seq::<IntVec2>::empty());
    assert(nonzero_span(cr, yy, x as int, x + 1) =~= seq![pixel(x as int, yy)]);
    assert(fill_row(cr, yy) == seq![pixel(x as int, yy)]);
    assert(scan_rows(p, true, yy, yy) == Seq::<IntVec2>::empty());
    assert(scan_rows(p, true, yy, yy + 1) =~= seq![pixel(x as int, yy)]);
}

/// Filling the unit square at `(x, y)` paints exactly its top-left corner,
/// and reports the square's box when it lies at non-negative coordinates,
/// whichever corner the outline starts from and in either direction.
pub proof fn lemma_unit_square_fill_any_order(x: i32, y: i32)
    requires
        x < i32::MAX,
        y < i32::MAX,
    ensures
        ({
            let a = IntVec2 { x: x, y: y };
            let b = IntVec2 { x: x, y: (y + 1) as i32 };
            let c = IntVec2 { x: (x + 1) as i32, y: (y + 1) as i32 };
            let d = IntVec2 { x: (x + 1) as i32, y: y };
            forall|p: Seq<IntVec2>|
                p == seq![a, b, c, d] || p == seq![d, c, b, a] || p == seq![b, c, d, a] || p == seq![a, d, c, b] || p == seq![c, d, a, b] || p == seq![b, a, d, c] || p == seq![d, a, b, c] || p == seq![c, b, a, d] ==> polygon_pixels(p, true) == seq![pixel(x as int, y as int)] && (x >= 0 && y >= 0
                    ==> polygon_rect(p) == (Rect { top: y as u32, left: x as u32, width: 1, height: 1 }))
        }),
{
    lemma_unit_square_order_0(x, y);
    lemma_unit_square_order_1(x, y);
    lemma_unit_square_order_2(x, y);
    lemma_unit_square_order_3(x, y);
    lemma_unit_square_order_4(x, y);
    lemma_unit_square_order_5(x, y);
    lemma_unit_square_order_6(x, y);
    lemma_unit_square_order_7(x, y);
}

/// Two triangles that tile the 2 by 1 rectangle at `(x, y)` along their shared
/// diagonal fill its two pixels between them, each exactly once: the first
/// triangle paints both, the second none.
pub proof fn lemma_triangle_pair_fill(x: i32, y: i32)
    requires
        x < i32::MAX - 1,
        y < i32::MAX,
    ensures
        polygon_pixels(
            seq![IntVec2 { x, y }, IntVec2 { x, y: (y + 1) as i32 }, IntVec2 { x: (x + 2) as i32, y }],
            true,
        ) + polygon_pixels(
            seq![
                IntVec2 { x, y: (y + 1) as i32 },
                IntVec2 { x: (x + 2) as i32, y },
                IntVec2 { x: (x + 2) as i32, y: (y + 1) as i32 },
            ],
            true,
        ) == seq![pixel(x as int, y as int), pixel(x + 1, y as int)],
{
    let a = IntVec2 { x, y };
    let b = IntVec2 { x, y: (y + 1) as i32 };
    let c = IntVec2 { x: (x + 2) as i32, y };
    let d = IntVec2 { x: (x + 2) as i32, y: (y + 1) as i32 };
    let yy = y as int;
    let empty = Seq::<(i64, i64)>::empty();
    assert(sort_by_x(empty) == empty);
    assert(winding(empty, x as int) == 0);
    assert(winding(empty, x + 1) == 0);

    let p = seq![a, b, c];
    assert(p.drop_last() =~= seq![a, b]);
    assert(seq![a, b].drop_last() =~= seq![a]);
    assert(min_y(seq![a]) == y && max_y(seq![a]) == y);
    assert(min_y(seq![a, b]) == y);
    assert(min_y(p) == y);
    assert(max_y(seq![a, b]) == y + 1);
    assert(max_y(p) == y + 1);
    assert(edge_active(p, 0, yy) && edge_x(p, 0, yy) == x && edge_dir(p, 0) == 1);
    assert(edge_active(p, 1, yy) && edge_x(p, 1, yy) == x + 2 && edge_dir(p, 1) == -1);
    assert(!edge_active(p, 2, yy));
    let e0 = (x as i64, 1i64);
    let e1 = ((x + 2) as i64, -1i64);
    assert(crossings_upto(p, yy, 0) == empty);
    assert(crossings_upto(p, yy, 1) == seq![e0]);
    assert(crossings_upto(p, yy, 2) == seq![e0, e1]);
    let cr = seq![e0, e1];
    assert(crossings(p, yy) == cr);
    assert(cr.drop_last() =~= seq![e0]);
    assert(seq![e0].drop_last() =~= empty);
    assert(first_greater(empty, e0.0, 0) == 0);
    assert(empty.insert(0, e0) =~= seq![e0]);
    assert(sort_by_x(seq![e0]) == seq![e0]);
    assert(first_greater(seq![e0], e1.0, 1) == 1);
    assert(first_greater(seq![e0], e1.0, 0) == 1);
    assert(seq![e0].insert(1, e1) =~= cr);
    assert(sort_by_x(cr) == cr);
    assert(winding(seq![e0], x as int) == 1);
    assert(winding(cr, x as int) == 1);
    assert(winding(seq![e0], x + 1) == 1);
    assert(winding(cr, x + 1) == 1);
    assert(nonzero_span(cr, yy, x as int, x as int) == Seq::<IntVec2>::empty());
    assert(nonzero_span(cr, yy, x as int, x + 1) =~= seq![pixel(x as int, yy)]);
    assert(nonzero_span(cr, yy, x as int, x + 2) =~= seq![pixel(x as int, yy), pixel(x + 1, yy)]);
    assert(scan_rows(p, true, yy, yy) == Seq::<IntVec2>::empty());
    assert(scan_rows(p, true, yy, yy + 1) =~= seq![pixel(x as int, yy), pixel(x + 1, yy)]);

    let q = seq![b, c, d];
    assert(q.drop_last() =~= seq![b, c]);
    assert(seq![b, c].drop_last() =~= seq![b]);
    assert(min_y(seq![b]) == y + 1 && max_y(seq![b]) == y + 1);
    assert(min_y(seq![b, c]) == y);
    assert(min_y(q) == y);
    assert(max_y(seq![b, c]) == y + 1);
    assert(max_y(q) == y + 1);
    assert(edge_active(q, 0, yy) && edge_x(q, 0, yy) == x + 2 && edge_dir(q, 0) == -1);
    assert(edge_active(q, 1, yy) && edge_x(q, 1, yy) == x + 2 && edge_dir(q, 1) == 1);
    assert(!edge_active(q, 2, yy));
    let f0 = ((x + 2) as i64, -1i64);
    let f1 = ((x + 2) as i64, 1i64);
    assert(crossings_upto(q, yy, 0) == empty);
    assert(crossings_upto(q, yy, 1) == seq![f0]);
    assert(crossings_upto(q, yy, 2) == seq![f0, f1]);
    let cq = seq![f0, f1];
    assert(crossings(q, yy) == cq);
    assert(cq.drop_last() =~= seq![f0]);
    assert(seq![f0].drop_last() =~= empty);
    assert(first_greater(empty, f0.0, 0) == 0);
    assert(empty.insert(0, f0) =~= seq![f0]);
    assert(sort_by_x(seq![f0]) == seq![f0]);
    assert(first_greater(seq![f0], f1.0, 1) == 1);
    assert(first_greater(seq![f0], f1.0, 0) == 1);
    assert(seq![f0].insert(1, f1) =~= cq);
    assert(sort_by_x(cq) == cq);
    assert(nonzero_span(cq, yy, x + 2, x + 2) == Seq::<IntVec2>::empty());
    assert(scan_rows(q, true, yy, yy) == Seq::<IntVec2>::empty());
    assert(scan_rows(q, true, yy, yy + 1) =~= Seq::<IntVec2>::empty());
}

} // verus!
