use vstd::prelude::*;

verus! {

/// A rectangle in device pixel space: the box from `(left, top)` spanning
/// `width` columns and `height` rows. The all-zero rectangle is the
/// distinguished invalid/empty value that `merge_rect` treats as identity.
#[derive(Debug, Clone, Copy, PartialEq, Eq, Structural)]
pub struct Rect {
    pub top: u32,
    pub left: u32,
    pub width: u32,
    pub height: u32,
}

impl Rect {
    /// The far edges stay within `u32`.
    pub open spec fn wf(self) -> bool {
        self.left + self.width <= u32::MAX && self.top + self.height <= u32::MAX
    }

    pub open spec fn right(self) -> int {
        self.left + self.width
    }

    pub open spec fn bottom(self) -> int {
        self.top + self.height
    }

    pub open spec fn is_invalid(self) -> bool {
        self.top == 0 && self.left == 0 && self.width == 0 && self.height == 0
    }

    /// Half-open pixel membership: `left <= x < left + width`, same for `y`.
    pub open spec fn has_point(self, x: int, y: int) -> bool {
        self.left <= x < self.right() && self.top <= y < self.bottom()
    }

    /// Box containment; the invalid rectangle is contained in every rectangle.
    pub open spec fn encloses(self, other: Rect) -> bool {
        other.is_invalid() || (self.left <= other.left && other.right() <= self.right()
            && self.top <= other.top && other.bottom() <= self.bottom())
    }

    pub open spec fn spec_merge(self, other: Rect) -> Rect {
        if self.is_invalid() {
            other
        } else if other.is_invalid() {
            self
        } else {
            let l = if self.left <= other.left { self.left } else { other.left };
            let t = if self.top <= other.top { self.top } else { other.top };
            let r = if self.right() >= other.right() { self.right() } else { other.right() };
            let b = if self.bottom() >= other.bottom() { self.bottom() } else { other.bottom() };
            Rect { top: t, left: l, width: (r - l) as u32, height: (b - t) as u32 }
        }
    }

    /// Grown by `margin` on every side, clamped to the `u32` range.
    pub open spec fn spec_expand(self, margin: u32) -> Rect {
        let l = if self.left >= margin { self.left - margin } else { 0 };
        let t = if self.top >= margin { self.top - margin } else { 0 };
        let r = if self.right() + margin <= u32::MAX { self.right() + margin } else { u32::MAX as int };
        let b = if self.bottom() + margin <= u32::MAX { self.bottom() + margin } else { u32::MAX as int };
        Rect { top: t as u32, left: l as u32, width: (r - l) as u32, height: (b - t) as u32 }
    }

    pub open spec fn invalid_spec() -> Rect {
        Rect { top: 0, left: 0, width: 0, height: 0 }
    }

    pub fn invalid() -> (r: Rect)
        ensures
            r.is_invalid(),
            r == Rect::invalid_spec(),
    {
        Rect { top: 0, left: 0, width: 0, height: 0 }
    }

    pub fn is_invalid_rect(&self) -> (r: bool)
        ensures
            r == self.is_invalid(),
    {
        self.top == 0 && self.left == 0 && self.width == 0 && self.height == 0
    }

    pub fn contains_point(&self, x: i32, y: i32) -> (r: bool)
        ensures
            r == self.has_point(x as int, y as int),
    {
        let (x, y) = (x as i64, y as i64);
        self.left as i64 <= x && x < self.left as i64 + self.width as i64 && self.top as i64 <= y
            && y < self.top as i64 + self.height as i64
    }

    pub fn contains_rect(&self, other: &Rect) -> (r: bool)
        ensures
            r == self.encloses(*other),
    {
        other.is_invalid_rect() || (self.left <= other.left && other.left as u64
            + other.width as u64 <= self.left as u64 + self.width as u64 && self.top <= other.top
            && other.top as u64 + other.height as u64 <= self.top as u64 + self.height as u64)
    }

    /// The smallest rectangle enclosing both; the invalid rectangle is the identity.
    pub fn merge_rect(&self, other: &Rect) -> (r: Rect)
        requires
            self.wf(),
            other.wf(),
        ensures
            r == self.spec_merge(*other),
            r.wf(),
    {
        if self.is_invalid_rect() {
            return *other;
        }
        if other.is_invalid_rect() {
            return *self;
        }
        let l = if self.left <= other.left { self.left } else { other.left };
        let t = if self.top <= other.top { self.top } else { other.top };
        let (sr, orr) = (self.left + self.width, other.left + other.width);
        let (sb, ob) = (self.top + self.height, other.top + other.height);
        let r = if sr >= orr { sr } else { orr };
        let b = if sb >= ob { sb } else { ob };
        Rect { top: t, left: l, width: r - l, height: b - t }
    }

    /// The rectangle grown by `margin` on every side, clamped to the `u32` range.
    pub fn expand(&self, margin: u32) -> (r: Rect)
        ensures
            r == self.spec_expand(margin),
            r.left == if self.left >= margin { self.left - margin } else { 0 },
            r.top == if self.top >= margin { self.top - margin } else { 0 },
            r.right() == if self.right() + margin <= u32::MAX { self.right() + margin } else { u32::MAX as int },
            r.bottom() == if self.bottom() + margin <= u32::MAX { self.bottom() + margin } else { u32::MAX as int },
            r.wf(),
    {
        let l = if self.left >= margin { self.left - margin } else { 0 };
        let t = if self.top >= margin { self.top - margin } else { 0 };
        let rr = self.left as u64 + self.width as u64 + margin as u64;
        let bb = self.top as u64 + self.height as u64 + margin as u64;
        let rr: u64 = if rr <= u32::MAX as u64 { rr } else { u32::MAX as u64 };
        let bb: u64 = if bb <= u32::MAX as u64 { bb } else { u32::MAX as u64 };
        Rect { top: t, left: l, width: (rr - l as u64) as u32, height: (bb - t as u64) as u32 }
    }
}

/// `v`, or zero when negative.
pub open spec fn clamp0(v: int) -> int {
    if v < 0 { 0 } else { v }
}

/// The box spanning corners `(x0, y0)` and `(x1, y1)`, with negative
/// coordinates pulled to zero.
pub open spec fn corner_box(x0: int, y0: int, x1: int, y1: int) -> Rect {
    Rect {
        top: clamp0(y0) as u32,
        left: clamp0(x0) as u32,
        width: (clamp0(x1) - clamp0(x0)) as u32,
        height: (clamp0(y1) - clamp0(y0)) as u32,
    }
}

impl Rect {
    /// The box spanning two corners, negative coordinates pulled to zero.
    pub fn from_corners(x0: i32, y0: i32, x1: i32, y1: i32) -> (r: Rect)
        requires
            x0 <= x1,
            y0 <= y1,
        ensures
            r == corner_box(x0 as int, y0 as int, x1 as int, y1 as int),
            r.wf(),
    {
        let l: u32 = if x0 < 0 { 0 } else { x0 as u32 };
        let t: u32 = if y0 < 0 { 0 } else { y0 as u32 };
        let rr: u32 = if x1 < 0 { 0 } else { x1 as u32 };
        let b: u32 = if y1 < 0 { 0 } else { y1 as u32 };
        Rect { top: t, left: l, width: rr - l, height: b - t }
    }
}

/// Enclosing is transitive.
pub proof fn lemma_encloses_trans(a: Rect, b: Rect, c: Rect)
    requires
        a.encloses(b),
        b.encloses(c),
    ensures
        a.encloses(c),
{
}

/// `merge_rect` encloses both of its arguments, and every rectangle that
/// encloses both also encloses the merge: no smaller enclosing rectangle exists.
pub proof fn lemma_merge_is_least_bound(a: Rect, b: Rect, c: Rect)
    requires
        a.wf(),
        b.wf(),
    ensures
        a.spec_merge(b).encloses(a),
        a.spec_merge(b).encloses(b),
        c.encloses(a) && c.encloses(b) ==> c.encloses(a.spec_merge(b)),
{
}

} // verus!
