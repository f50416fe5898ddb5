use vstd::prelude::*;

verus! {

/// An integer point or vector in device pixel space.
#[derive(Debug, Clone, Copy, PartialEq, Eq, Structural)]
pub struct IntVec2 {
    pub x: i32,
    pub y: i32,
}

impl View for IntVec2 {
    type V = (int, int);

    open spec fn view(&self) -> (int, int) {
        (self.x as int, self.y as int)
    }
}

pub open spec fn fits_i32(v: int) -> bool {
    i32::MIN <= v <= i32::MAX
}

impl IntVec2 {
    pub fn new(x: i32, y: i32) -> (r: IntVec2)
        ensures
            r.x == x,
            r.y == y,
    {
        IntVec2 { x, y }
    }

    /// Component-wise sum.
    pub fn add(self, other: IntVec2) -> (r: IntVec2)
        requires
            fits_i32(self.x + other.x),
            fits_i32(self.y + other.y),
        ensures
            r@ == (self@.0 + other@.0, self@.1 + other@.1),
    {
        IntVec2 { x: self.x + other.x, y: self.y + other.y }
    }

    /// Component-wise difference.
    pub fn sub(self, other: IntVec2) -> (r: IntVec2)
        requires
            fits_i32(self.x - other.x),
            fits_i32(self.y - other.y),
        ensures
            r@ == (self@.0 - other@.0, self@.1 - other@.1),
    {
        IntVec2 { x: self.x - other.x, y: self.y - other.y }
    }

    /// Scalar multiplication.
    pub fn mul(self, scalar: i32) -> (r: IntVec2)
        requires
            fits_i32(self.x * scalar),
            fits_i32(self.y * scalar),
        ensures
            r@ == (self@.0 * scalar, self@.1 * scalar),
    {
        IntVec2 { x: self.x * scalar, y: self.y * scalar }
    }

    /// Scalar division, rounding each component toward zero as `i32` division does.
    pub fn div(self, scalar: i32) -> (r: IntVec2)
        requires
            scalar != 0,
            !(scalar == -1 && (self.x == i32::MIN || self.y == i32::MIN)),
        ensures
            r.x == trunc_div(self.x as int, scalar as int),
            r.y == trunc_div(self.y as int, scalar as int),
    {
        IntVec2 { x: div_toward_zero(self.x, scalar), y: div_toward_zero(self.y, scalar) }
    }
}

fn div_toward_zero(a: i32, b: i32) -> (q: i32)
    requires
        b != 0,
        !(b == -1 && a == i32::MIN),
    ensures
        q == trunc_div(a as int, b as int),
{
    let na: i64 = if a >= 0 { a as i64 } else { -(a as i64) };
    let nb: i64 = if b > 0 { b as i64 } else { -(b as i64) };
    let m: i64 = na / nb;
    proof {
        assert(0 <= na / nb <= na) by (nonlinear_arith) requires na >= 0, nb >= 1;
        if nb >= 2 {
            assert(na / nb <= na / 2) by (nonlinear_arith) requires na >= 0, nb >= 2;
        }
    }
    let q: i64 = if (a >= 0) == (b > 0) { m } else { -m };
    q as i32
}

/// Division rounding toward zero: the quotient of the magnitudes, signed.
pub open spec fn trunc_div(a: int, b: int) -> int
    recommends
        b != 0,
{
    let m = (if a >= 0 { a } else { -a }) / (if b > 0 { b } else { -b });
    if (a >= 0) == (b > 0) { m } else { -m }
}

/// Addition of vectors is commutative and associative, and scalar
/// multiplication distributes over it (on exact integer values).
pub proof fn lemma_vector_space_laws(a: (int, int), b: (int, int), c: (int, int), k: int)
    ensures
        (a.0 + b.0, a.1 + b.1) == (b.0 + a.0, b.1 + a.1),
        ((a.0 + b.0) + c.0, (a.1 + b.1) + c.1) == (a.0 + (b.0 + c.0), a.1 + (b.1 + c.1)),
        ((a.0 + b.0) * k, (a.1 + b.1) * k) == (a.0 * k + b.0 * k, a.1 * k + b.1 * k),
{
    assert((a.0 + b.0) * k == a.0 * k + b.0 * k) by (nonlinear_arith);
    assert((a.1 + b.1) * k == a.1 * k + b.1 * k) by (nonlinear_arith);
}

} // verus!
