use vstd::prelude::*;
use crate::color::Color;
use crate::rect::Rect;
use crate::vector::IntVec2;

verus! {

/// One pixel write: where, and in which color.
pub type PixelWrite = (IntVec2, Color);

/// Anything that can receive a colored pixel write at an integer position.
///
/// `painted` is the sequence of writes the canvas has taken in, oldest first;
/// `accepts` says which positions a write can reach at all (a surface ignores
/// positions off its pixels, a mask those its predicate rejects).
pub trait PixelCanvas {
    spec fn painted(&self) -> Seq<PixelWrite>;

    spec fn accepts(&self, pos: IntVec2) -> bool;

    /// What the canvas holds apart from the writes it logs: the contents its
    /// logged writes start from, where in `painted` they start, and its line
    /// length and visible size. Writes leave it as it is.
    spec fn backdrop(&self) -> Backdrop;

    /// The canvas's own invariant; writes keep it.
    spec fn consistent(&self) -> bool;

    fn write_pixel(&mut self, pos: IntVec2, c: Color)
        ensures
            final(self).painted() == (if old(self).accepts(pos) {
                old(self).painted().push((pos, c))
            } else {
                old(self).painted()
            }),
            forall|p: IntVec2| final(self).accepts(p) == old(self).accepts(p),
            final(self).backdrop() == old(self).backdrop(),
            old(self).consistent() ==> final(self).consistent(),
    ;
}

/// A canvas's backdrop: base contents, the index in `painted` from which
/// writes apply to it, line length, visible width and visible height.
pub type Backdrop = (Seq<u8>, int, int, int, int);

/// `after` is `before` with only writes added: the same gates, the same
/// backdrop, and its invariant kept.
pub open spec fn kept<C: PixelCanvas>(before: C, after: C) -> bool {
    &&& forall|p: IntVec2| after.accepts(p) == before.accepts(p)
    &&& after.backdrop() == before.backdrop()
    &&& before.consistent() ==> after.consistent()
}

/// The part of `writes` that reaches a canvas whose positions are gated by `c.accepts`.
pub open spec fn reached<C: PixelCanvas>(c: C, writes: Seq<PixelWrite>) -> Seq<PixelWrite>
    decreases writes.len(),
{
    if writes.len() == 0 {
        Seq::empty()
    } else {
        let before = reached(c, writes.drop_last());
        if c.accepts(writes.last().0) {
            before.push(writes.last())
        } else {
            before
        }
    }
}

/// Every write of `pixels`, all in color `c`.
pub open spec fn colored(pixels: Seq<IntVec2>, c: Color) -> Seq<PixelWrite> {
    Seq::new(pixels.len(), |i: int| (pixels[i], c))
}

/// Writes each of `pixels` in order, in color `c`.
pub fn paint<C: PixelCanvas>(canvas: &mut C, pixels: &Vec<IntVec2>, c: Color)
    ensures
        final(canvas).painted() == old(canvas).painted() + reached(*old(canvas), colored(pixels@, c)),
        kept(*old(canvas), *final(canvas)),
{
    let mut i: usize = 0;
    while i < pixels.len()
        invariant
            i <= pixels.len(),
            canvas.painted() == old(canvas).painted() + reached(*old(canvas), colored(pixels@.take(i as int), c)),
            kept(*old(canvas), *canvas),
        decreases pixels.len() - i,
    {
        let ghost before = *canvas;
        canvas.write_pixel(pixels[i], c);
        proof {
            let s = colored(pixels@.take(i + 1), c);
            assert(s.drop_last() =~= colored(pixels@.take(i as int), c));
            assert(s.last() == (pixels@[i as int], c));
        }
        i += 1;
    }
    assert(pixels@.take(pixels.len() as int) =~= pixels@);
}

/// Performs each of `writes` in order.
pub fn paint_writes<C: PixelCanvas>(canvas: &mut C, writes: &Vec<PixelWrite>)
    ensures
        final(canvas).painted() == old(canvas).painted() + reached(*old(canvas), writes@),
        kept(*old(canvas), *final(canvas)),
{
    let mut i: usize = 0;
    while i < writes.len()
        invariant
            i <= writes.len(),
            canvas.painted() == old(canvas).painted() + reached(*old(canvas), writes@.take(i as int)),
            kept(*old(canvas), *canvas),
        decreases writes.len() - i,
    {
        let (pos, c) = writes[i];
        canvas.write_pixel(pos, c);
        proof {
            assert(writes@.take(i + 1).drop_last() =~= writes@.take(i as int));
        }
        i += 1;
    }
    assert(writes@.take(writes.len() as int) =~= writes@);
}

/// A canvas that records every write it receives; it accepts every position.
pub struct PixelRecorder {
    pub writes: Vec<PixelWrite>,
}

impl PixelRecorder {
    pub fn new() -> (r: PixelRecorder)
        ensures
            r.writes@.len() == 0,
    {
        PixelRecorder { writes: Vec::new() }
    }

    /// The positions written so far, oldest first.
    pub fn positions(&self) -> (r: Vec<IntVec2>)
        ensures
            r@ == self.writes@.map_values(|w: PixelWrite| w.0),
    {
        let mut r: Vec<IntVec2> = Vec::new();
        let mut i: usize = 0;
        while i < self.writes.len()
            invariant
                i <= self.writes.len(),
                r@ == self.writes@.take(i as int).map_values(|w: PixelWrite| w.0),
            decreases self.writes.len() - i,
        {
            r.push(self.writes[i].0);
            i += 1;
            assert(r@ =~= self.writes@.take(i as int).map_values(|w: PixelWrite| w.0));
        }
        assert(self.writes@.take(i as int) =~= self.writes@);
        r
    }

    pub fn clear(&mut self)
        ensures
            final(self).writes@.len() == 0,
    {
        self.writes.clear();
    }
}

impl PixelCanvas for PixelRecorder {
    open spec fn painted(&self) -> Seq<PixelWrite> {
        self.writes@
    }

    open spec fn accepts(&self, pos: IntVec2) -> bool {
        true
    }

    open spec fn backdrop(&self) -> Backdrop {
        (Seq::empty(), 0, 0, 0, 0)
    }

    open spec fn consistent(&self) -> bool {
        true
    }

    fn write_pixel(&mut self, pos: IntVec2, c: Color) {
        self.writes.push((pos, c));
    }
}

/// `a % b` as `i32` computes it: the remainder takes the sign of `a`.
pub open spec fn trunc_rem(a: int, b: int) -> int
    recommends
        b > 0,
{
    if a >= 0 { a % b } else { -((-a) % b) }
}

/// A predicate on positions that gates pixel writes: any type can be one,
/// by saying which positions it admits and testing them.
pub trait PixelPredicate {
    spec fn admits(&self, p: IntVec2) -> bool;

    fn test(&self, p: IntVec2) -> (r: bool)
        ensures
            r == self.admits(p),
    ;
}

/// The predicate that admits what both of two predicates admit.
pub struct Both<P, Q> {
    pub first: P,
    pub second: Q,
}

impl<P: PixelPredicate, Q: PixelPredicate> PixelPredicate for Both<P, Q> {
    open spec fn admits(&self, p: IntVec2) -> bool {
        self.first.admits(p) && self.second.admits(p)
    }

    fn test(&self, p: IntVec2) -> (r: bool) {
        self.first.test(p) && self.second.test(p)
    }
}

/// The common position predicates.
#[derive(Debug, PartialEq, Eq)]
pub enum Mask {
    /// Admits every position.
    All,
    /// Admits no position.
    Nothing,
    /// A checkerboard of `size`-pixel cells: admits `(x, y)` when exactly one
    /// of `x % size * 2 < size` and `y % size * 2 < size` holds. A size below 1
    /// admits every position.
    Checkered(i32),
    /// Admits the positions inside the rectangle.
    Within(Rect),
    /// Admits the positions with both coordinates at least zero.
    NonNegative,
    /// Admits what both masks admit.
    Both(Box<Mask>, Box<Mask>),
}

impl Mask {
    pub open spec fn holds(&self, p: IntVec2) -> bool
        decreases self,
    {
        match self {
            Mask::All => true,
            Mask::Nothing => false,
            Mask::Checkered(s) => *s < 1 || ((trunc_rem(p.x as int, *s as int) * 2 < *s) != (
            trunc_rem(p.y as int, *s as int) * 2 < *s)),
            Mask::Within(r) => r.has_point(p.x as int, p.y as int),
            Mask::NonNegative => p.x >= 0 && p.y >= 0,
            Mask::Both(a, b) => a.holds(p) && b.holds(p),
        }
    }

    /// Evaluates the predicate at `p`.
    pub fn check(&self, p: IntVec2) -> (r: bool)
        ensures
            r == self.holds(p),
        decreases self,
    {
        match self {
            Mask::All => true,
            Mask::Nothing => false,
            Mask::Checkered(s) => {
                if *s < 1 {
                    true
                } else {
                    let rx = rem_toward_zero(p.x, *s);
                    let ry = rem_toward_zero(p.y, *s);
                    (rx as i64 * 2 < *s as i64) != (ry as i64 * 2 < *s as i64)
                }
            },
            Mask::Within(r) => r.contains_point(p.x, p.y),
            Mask::NonNegative => p.x >= 0 && p.y >= 0,
            Mask::Both(a, b) => a.check(p) && b.check(p),
        }
    }
}

impl PixelPredicate for Mask {
    open spec fn admits(&self, p: IntVec2) -> bool {
        self.holds(p)
    }

    fn test(&self, p: IntVec2) -> (r: bool) {
        self.check(p)
    }
}

fn rem_toward_zero(a: i32, b: i32) -> (r: i32)
    requires
        b > 0,
    ensures
        r == trunc_rem(a as int, b as int),
        -b < r < b,
{
    let na: i64 = if a >= 0 { a as i64 } else { -(a as i64) };
    let m: i64 = na % (b as i64);
    if a >= 0 { m as i32 } else { (-m) as i32 }
}

/// A canvas seen through a mask: a write reaches the underlying canvas only
/// where the mask admits its position.
pub struct MaskedCanvas<'a, C: PixelCanvas, M: PixelPredicate> {
    pub source: &'a mut C,
    pub mask: M,
}

impl<'a, C: PixelCanvas, M: PixelPredicate> MaskedCanvas<'a, C, M> {
    /// The canvas beneath the mask.
    pub open spec fn inner(&self) -> C {
        *self.source
    }
}

impl<'a, C: PixelCanvas, M: PixelPredicate> PixelCanvas for MaskedCanvas<'a, C, M> {
    open spec fn painted(&self) -> Seq<PixelWrite> {
        self.source.painted()
    }

    open spec fn accepts(&self, pos: IntVec2) -> bool {
        self.mask.admits(pos) && self.source.accepts(pos)
    }

    open spec fn backdrop(&self) -> Backdrop {
        self.source.backdrop()
    }

    open spec fn consistent(&self) -> bool {
        self.source.consistent()
    }

    fn write_pixel(&mut self, pos: IntVec2, c: Color) {
        if self.mask.test(pos) {
            self.source.write_pixel(pos, c);
        }
    }
}

/// A canvas that covers a known rectangle of the display.
pub trait Region {
    spec fn spec_region(&self) -> Rect;

    fn get_region(&self) -> (r: Rect)
        ensures
            r == self.spec_region(),
    ;
}

/// A masked canvas covers what the canvas beneath covers.
impl<'a, C: PixelCanvas + Region, M: PixelPredicate> Region for MaskedCanvas<'a, C, M> {
    open spec fn spec_region(&self) -> Rect {
        self.inner().spec_region()
    }

    fn get_region(&self) -> (r: Rect) {
        self.source.get_region()
    }
}

/// Any canvas can be masked by any predicate.
pub trait MaskCanvas<'a, C: PixelCanvas, M: PixelPredicate> {
    fn mask(&'a mut self, mask: M) -> MaskedCanvas<'a, C, M>;
}

impl<'a, C: PixelCanvas, M: PixelPredicate> MaskCanvas<'a, C, M> for C {
    fn mask(&'a mut self, mask: M) -> (r: MaskedCanvas<'a, C, M>)
        ensures
            r.mask == mask,
            *r.source == *old(self),
            *final(self) == *final(r.source),
    {
        MaskedCanvas { source: self, mask }
    }
}

/// A write through a mask reaches the canvas beneath exactly when the
/// predicate admits the position (and the canvas itself takes it); otherwise
/// the canvas is unchanged. `after` is `before` once `write_pixel(pos, c)` has run, as its
/// contract states.
pub proof fn lemma_mask_gates<'a, C: PixelCanvas, M: PixelPredicate>(
    before: MaskedCanvas<'a, C, M>,
    after: MaskedCanvas<'a, C, M>,
    pos: IntVec2,
    c: Color,
)
    requires
        after.painted() == (if before.accepts(pos) {
            before.painted().push((pos, c))
        } else {
            before.painted()
        }),
    ensures
        after.inner().painted() == (if before.mask.admits(pos) && before.inner().accepts(pos) {
            before.inner().painted().push((pos, c))
        } else {
            before.inner().painted()
        }),
{
}

/// Two stacked masks gate writes exactly as the single mask that admits what
/// both predicates admit. `after` is `before` once `write_pixel(pos, c)` has
/// run, as its contract states.
pub proof fn lemma_masks_compose<'a, 'b, C: PixelCanvas, P: PixelPredicate, Q: PixelPredicate>(
    before: MaskedCanvas<'b, MaskedCanvas<'a, C, P>, Q>,
    after: MaskedCanvas<'b, MaskedCanvas<'a, C, P>, Q>,
    pos: IntVec2,
    c: Color,
)
    requires
        after.painted() == (if before.accepts(pos) {
            before.painted().push((pos, c))
        } else {
            before.painted()
        }),
    ensures
        before.accepts(pos) == ((Both { first: before.inner().mask, second: before.mask }).admits(pos)
            && before.inner().inner().accepts(pos)),
        after.inner().inner().painted() == (if (Both { first: before.inner().mask, second: before.mask }).admits(
            pos,
        ) && before.inner().inner().accepts(pos) {
            before.inner().inner().painted().push((pos, c))
        } else {
            before.inner().inner().painted()
        }),
{
}

} // verus!
