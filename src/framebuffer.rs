use vstd::prelude::*;
use vstd::arithmetic::div_mod::lemma_fundamental_div_mod_converse;
use crate::canvas::{Backdrop, PixelCanvas, PixelWrite, Region};
use crate::color::Color;
use crate::rect::Rect;
use crate::vector::IntVec2;

verus! {

/// The byte the whole surface holds after a clear: the lightest tone.
pub const LIGHTEST_BYTE: u8 = 0xff;

/// Bytes per device pixel: the panel stores one 5-6-5 value, little-endian.
pub const BYTES_PER_PIXEL: u32 = 2;

/// Why a region could not be dumped or restored.
#[derive(Debug, Clone, Copy, PartialEq, Eq, Structural)]
pub enum RegionError {
    /// The rectangle reaches past the visible resolution.
    OutOfBounds,
    /// The byte buffer does not hold exactly one region's worth of pixels.
    SizeMismatch,
}

/// The pixel store of the panel with its geometry: `yres` rows of
/// `line_length` bytes each, of which the first `xres` pixels are visible.
pub struct Framebuffer {
    frame: Vec<u8>,
    xres: u32,
    yres: u32,
    line_length: u32,
    history: Ghost<Seq<PixelWrite>>,
    base: Ghost<Seq<u8>>,
    start: Ghost<nat>,
}

/// One write applied to a store of `ll`-byte lines with `xres` by `yres`
/// visible pixels: the color's native value, low byte first, where the
/// position is visible and both bytes lie in the store; elsewhere nothing.
pub open spec fn apply_write(f: Seq<u8>, ll: int, xres: int, yres: int, w: PixelWrite) -> Seq<u8> {
    let o = w.0.y * ll + w.0.x * 2;
    if 0 <= w.0.x < xres && 0 <= w.0.y < yres && o + 1 < f.len() {
        f.update(o, (w.1.spec_native() % 256) as u8).update(o + 1, (w.1.spec_native() / 256) as u8)
    } else {
        f
    }
}

/// The writes `ws` applied in order to the store `f`.
pub open spec fn overlay(f: Seq<u8>, ll: int, xres: int, yres: int, ws: Seq<PixelWrite>) -> Seq<u8>
    decreases ws.len(),
{
    if ws.len() == 0 {
        f
    } else {
        apply_write(overlay(f, ll, xres, yres, ws.drop_last()), ll, xres, yres, ws.last())
    }
}

/// Applying two runs of writes is applying the first, then the second.
pub proof fn lemma_overlay_concat(f: Seq<u8>, ll: int, xres: int, yres: int, s: Seq<PixelWrite>, t: Seq<PixelWrite>)
    ensures
        overlay(f, ll, xres, yres, s + t) == overlay(overlay(f, ll, xres, yres, s), ll, xres, yres, t),
    decreases t.len(),
{
    if t.len() == 0 {
        assert(s + t =~= s);
    } else {
        lemma_overlay_concat(f, ll, xres, yres, s, t.drop_last());
        assert((s + t).drop_last() =~= s + t.drop_last());
    }
}

/// Offset of byte `col` of row `row` of a region whose first row is `top` and
/// whose rows start `left_byte` bytes into a line.
pub open spec fn region_offset(ll: int, top: int, left_byte: int, row: int, col: int) -> int {
    (top + row) * ll + left_byte + col
}

proof fn lemma_region_offset(ll: int, top: int, left_byte: int, rb: int, row: int, col: int)
    requires
        ll > 0,
        top >= 0,
        row >= 0,
        left_byte >= 0,
        0 <= col < rb,
        left_byte + rb <= ll,
    ensures
        region_offset(ll, top, left_byte, row, col) / ll == top + row,
        region_offset(ll, top, left_byte, row, col) % ll == left_byte + col,
        region_offset(ll, top, left_byte, row, col) >= 0,
{
    assert((top + row) * ll >= 0) by (nonlinear_arith) requires top + row >= 0, ll > 0;
    lemma_fundamental_div_mod_converse(
        region_offset(ll, top, left_byte, row, col),
        ll,
        top + row,
        left_byte + col,
    );
}

proof fn lemma_row_bound(ll: int, top: int, h: int, yres: int, left_byte: int, rb: int, row: int)
    requires
        ll > 0,
        top >= 0,
        0 <= row < h,
        top + h <= yres,
        left_byte >= 0,
        rb >= 0,
        left_byte + rb <= ll,
    ensures
        (top + row) * ll >= 0,
        (top + row) * ll + left_byte + rb <= ll * yres,
        forall|col: int| 0 <= col < rb ==> #[trigger] region_offset(ll, top, left_byte, row, col) < ll * yres,
{
    assert((top + row + 1) * ll <= yres * ll) by (nonlinear_arith) requires top + row + 1 <= yres, ll > 0;
    assert((top + row + 1) * ll == (top + row) * ll + ll) by (nonlinear_arith);
    assert(ll * yres == yres * ll) by (nonlinear_arith);
    assert((top + row) * ll >= 0) by (nonlinear_arith) requires top + row >= 0, ll > 0;
}

proof fn lemma_flat_index(rb: int, row: int, h: int)
    requires
        0 <= row < h,
        rb >= 0,
    ensures
        0 <= row * rb,
        row * rb + rb <= h * rb,
        (row + 1) * rb == row * rb + rb,
{
    assert(row * rb + rb <= h * rb) by (nonlinear_arith) requires row + 1 <= h, rb >= 0;
    assert(row * rb >= 0) by (nonlinear_arith) requires row >= 0, rb >= 0;
    assert((row + 1) * rb == row * rb + rb) by (nonlinear_arith);
}

impl Framebuffer {
    pub closed spec fn frame_view(&self) -> Seq<u8> {
        self.frame@
    }

    pub closed spec fn spec_xres(&self) -> int {
        self.xres as int
    }

    pub closed spec fn spec_yres(&self) -> int {
        self.yres as int
    }

    pub closed spec fn spec_line_length(&self) -> int {
        self.line_length as int
    }

    /// The geometry fits the store.
    pub closed spec fn geom_ok(&self) -> bool {
        &&& self.line_length > 0
        &&& self.xres * 2 <= self.line_length
        &&& self.frame@.len() == self.line_length * self.yres
    }

    /// The geometry fits the store, and the store is its base contents with
    /// the writes logged since the base was taken applied in order.
    pub closed spec fn wf(&self) -> bool {
        &&& self.geom_ok()
        &&& self.start@ <= self.history@.len()
        &&& self.frame@ == overlay(
            self.base@,
            self.line_length as int,
            self.xres as int,
            self.yres as int,
            self.history@.skip(self.start@ as int),
        )
    }

    /// Where a visible pixel's first byte lies.
    pub open spec fn pixel_offset(&self, x: int, y: int) -> int {
        y * self.spec_line_length() + x * 2
    }

    /// Whether byte `i` of the store lies in `rect`.
    pub open spec fn in_region(&self, rect: Rect, i: int) -> bool {
        let ll = self.spec_line_length();
        rect.top <= i / ll < rect.bottom() && rect.left * 2 <= i % ll < rect.right() * 2
    }

    /// Whether `rect` lies within the visible resolution.
    pub open spec fn fits(&self, rect: Rect) -> bool {
        rect.right() <= self.spec_xres() && rect.bottom() <= self.spec_yres()
    }

    /// `data` holds the bytes of `rect`, row by row, each row `2 * width` bytes long.
    pub open spec fn is_dump_of(&self, rect: Rect, data: Seq<u8>) -> bool {
        let rb = rect.width * 2;
        &&& data.len() == rect.height * rb
        &&& forall|row: int, col: int|
            #![trigger region_offset(self.spec_line_length(), rect.top as int, rect.left * 2, row, col)]
            0 <= row < rect.height && 0 <= col < rb ==> data[row * rb + col] == self.frame_view()[region_offset(
                self.spec_line_length(),
                rect.top as int,
                rect.left * 2,
                row,
                col,
            )]
    }

    /// `self` is `before` with the bytes of `rect` replaced by `data`.
    pub open spec fn is_restore_of(&self, before: Framebuffer, rect: Rect, data: Seq<u8>) -> bool {
        let rb = rect.width * 2;
        let ll = self.spec_line_length();
        &&& self.frame_view().len() == before.frame_view().len()
        &&& self.spec_line_length() == before.spec_line_length()
        &&& forall|row: int, col: int|
            #![trigger region_offset(ll, rect.top as int, rect.left * 2, row, col)]
            0 <= row < rect.height && 0 <= col < rb ==> self.frame_view()[region_offset(
                ll,
                rect.top as int,
                rect.left * 2,
                row,
                col,
            )] == data[row * rb + col]
        &&& forall|i: int|
            0 <= i < self.frame_view().len() && !before.in_region(rect, i) ==> #[trigger] self.frame_view()[i]
                == before.frame_view()[i]
    }

    /// A blank surface of the given geometry, every byte the lightest tone;
    /// `None` when a row of `xres` pixels does not fit in `line_length` bytes
    /// or the store would not fit in memory.
    pub fn new(xres: u32, yres: u32, line_length: u32) -> (r: Option<Framebuffer>)
        ensures
            r.is_some() <==> (line_length > 0 && xres * 2 <= line_length && line_length * yres
                <= usize::MAX),
            r matches Some(fb) ==> fb.wf() && fb.spec_xres() == xres && fb.spec_yres() == yres
                && fb.spec_line_length() == line_length && fb.painted().len() == 0
                && fb.frame_view() == Seq::new(fb.frame_view().len(), |i: int| LIGHTEST_BYTE),
    {
        if line_length == 0 || xres as u64 * 2 > line_length as u64 {
            return None;
        }
        proof {
            assert(line_length as int * yres as int <= u32::MAX as int * u32::MAX as int) by (nonlinear_arith)
                requires line_length <= u32::MAX, yres <= u32::MAX;
        }
        let size = line_length as u64 * yres as u64;
        if size as u128 > usize::MAX as u128 {
            return None;
        }
        let size = size as usize;
        let mut frame: Vec<u8> = Vec::with_capacity(size);
        while frame.len() < size
            invariant
                frame.len() <= size,
                forall|i: int| 0 <= i < frame@.len() ==> frame@[i] == LIGHTEST_BYTE,
            decreases size - frame.len(),
        {
            frame.push(LIGHTEST_BYTE);
        }
        let ghost base = frame@;
        let fb = Framebuffer {
            frame,
            xres,
            yres,
            line_length,
            history: Ghost(Seq::empty()),
            base: Ghost(base),
            start: Ghost(0),
        };
        assert(fb.history@.skip(0) =~= Seq::<PixelWrite>::empty());
        assert(fb.frame_view() =~= Seq::new(fb.frame_view().len(), |i: int| LIGHTEST_BYTE));
        Some(fb)
    }

    pub fn xres(&self) -> (r: u32)
        ensures
            r == self.spec_xres(),
    {
        self.xres
    }

    pub fn yres(&self) -> (r: u32)
        ensures
            r == self.spec_yres(),
    {
        self.yres
    }

    pub fn line_length(&self) -> (r: u32)
        ensures
            r == self.spec_line_length(),
    {
        self.line_length
    }

    /// The raw pixel bytes.
    pub fn frame(&self) -> (r: &Vec<u8>)
        ensures
            r@ == self.frame_view(),
    {
        &self.frame
    }

    /// The whole visible surface as a rectangle.
    pub fn full_region(&self) -> (r: Rect)
        ensures
            r == (Rect { top: 0, left: 0, width: self.spec_xres() as u32, height: self.spec_yres() as u32 }),
    {
        Rect { top: 0, left: 0, width: self.xres, height: self.yres }
    }

    /// Fills the whole store with the lightest tone.
    pub fn clear(&mut self)
        requires
            old(self).wf(),
        ensures
            final(self).wf(),
            final(self).frame_view() == Seq::new(old(self).frame_view().len(), |i: int| LIGHTEST_BYTE),
            final(self).spec_xres() == old(self).spec_xres(),
            final(self).spec_yres() == old(self).spec_yres(),
            final(self).spec_line_length() == old(self).spec_line_length(),
            final(self).painted() == old(self).painted(),
    {
        let n = self.frame.len();
        let mut i: usize = 0;
        while i < n
            invariant
                i <= n,
                self.frame@.len() == n,
                n == old(self).frame@.len(),
                self.xres == old(self).xres,
                self.yres == old(self).yres,
                self.line_length == old(self).line_length,
                self.history == old(self).history,
                forall|j: int| 0 <= j < i ==> self.frame@[j] == LIGHTEST_BYTE,
            decreases n - i,
        {
            self.frame.set(i, LIGHTEST_BYTE);
            i += 1;
        }
        assert(self.frame@ =~= Seq::new(n as nat, |i: int| LIGHTEST_BYTE));
        self.base = Ghost(self.frame@);
        self.start = Ghost(self.history@.len());
        assert(self.history@.skip(self.start@ as int) =~= Seq::<PixelWrite>::empty());
    }

    /// Copies the bytes of `rect`, row by row, out of the store.
    pub fn dump_region(&self, rect: Rect) -> (r: Result<Vec<u8>, RegionError>)
        requires
            self.wf(),
        ensures
            r is Err <==> !self.fits(rect),
            r matches Err(e) ==> e == RegionError::OutOfBounds,
            r matches Ok(d) ==> self.is_dump_of(rect, d@),
    {
        if rect.left as u64 + rect.width as u64 > self.xres as u64 || rect.top as u64
            + rect.height as u64 > self.yres as u64 {
            return Err(RegionError::OutOfBounds);
        }
        let ll = self.line_length as usize;
        let rb = rect.width as usize * 2;
        let left_byte = rect.left as usize * 2;
        let h = rect.height as usize;
        let top = rect.top as usize;
        let n = self.frame.len();
        let ghost sll = ll as int;
        let mut out: Vec<u8> = Vec::new();
        let mut row: usize = 0;
        while row < h
            invariant
                self.wf(),
                ll == self.line_length,
                sll == ll,
                n == self.frame@.len(),
                rb == rect.width * 2,
                left_byte == rect.left * 2,
                h == rect.height,
                top == rect.top,
                self.fits(rect),
                row <= h,
                out@.len() == row * rb,
                forall|r: int, c: int|
                    #![trigger region_offset(sll, top as int, left_byte as int, r, c)]
                    0 <= r < row && 0 <= c < rb ==> out@[r * rb + c] == self.frame@[region_offset(
                        sll,
                        top as int,
                        left_byte as int,
                        r,
                        c,
                    )],
            decreases h - row,
        {
            proof {
                lemma_row_bound(sll, top as int, h as int, self.yres as int, left_byte as int, rb as int, row as int);
                lemma_flat_index(rb as int, row as int, h as int);
                assert((top + row) * ll + left_byte + rb <= self.frame@.len());
            }
            let start = (top + row) * ll + left_byte;
            let mut col: usize = 0;
            while col < rb
                invariant
                    self.wf(),
                    ll == self.line_length,
                    sll == ll,
                    n == self.frame@.len(),
                n == self.frame@.len(),
                sll == ll,
                n == self.frame@.len(),
                    rb == rect.width * 2,
                    left_byte == rect.left * 2,
                    h == rect.height,
                    top == rect.top,
                    row < h,
                    col <= rb,
                    start == (top + row) * ll + left_byte,
                    start + rb <= self.frame@.len(),
                    out@.len() == row * rb + col,
                    forall|r: int, c: int|
                        #![trigger region_offset(sll, top as int, left_byte as int, r, c)]
                        0 <= r < row && 0 <= c < rb ==> out@[r * rb + c] == self.frame@[region_offset(
                            sll,
                            top as int,
                            left_byte as int,
                            r,
                            c,
                        )],
                    forall|c: int| 0 <= c < col ==> out@[row * rb + c] == #[trigger] self.frame@[start + c],
                decreases rb - col,
            {
                proof {
                    assert forall|r: int, c: int|
                        #![trigger region_offset(sll, top as int, left_byte as int, r, c)]
                        0 <= r < row && 0 <= c < rb implies r * rb + c < row * rb by {
                        lemma_flat_index(rb as int, r, row as int);
                    }
                }
                out.push(self.frame[start + col]);
                col += 1;
            }
            proof {
                assert forall|r: int, c: int|
                    #![trigger region_offset(sll, top as int, left_byte as int, r, c)]
                    0 <= r < row + 1 && 0 <= c < rb implies out@[r * rb + c] == self.frame@[region_offset(
                        sll,
                        top as int,
                        left_byte as int,
                        r,
                        c,
                    )] by {
                    if r == row {
                        assert(region_offset(sll, top as int, left_byte as int, r, c) == start + c);
                    }
                }
            }
            row += 1;
        }
        Ok(out)
    }

    /// Writes `data`, laid out as `dump_region` lays it out, back into `rect`.
    pub fn restore_region(&mut self, rect: Rect, data: &Vec<u8>) -> (r: Result<(), RegionError>)
        requires
            old(self).wf(),
        ensures
            r matches Err(RegionError::OutOfBounds) <==> !old(self).fits(rect),
            r matches Err(RegionError::SizeMismatch) <==> old(self).fits(rect) && data@.len()
                != rect.height * rect.width * 2,
            r is Err ==> *final(self) == *old(self),
            r is Ok ==> final(self).is_restore_of(*old(self), rect, data@),
            final(self).wf(),
            final(self).spec_xres() == old(self).spec_xres(),
            final(self).spec_yres() == old(self).spec_yres(),
            final(self).painted() == old(self).painted(),
    {
        if rect.left as u64 + rect.width as u64 > self.xres as u64 || rect.top as u64
            + rect.height as u64 > self.yres as u64 {
            return Err(RegionError::OutOfBounds);
        }
        let ll = self.line_length as usize;
        let rb = rect.width as usize * 2;
        let left_byte = rect.left as usize * 2;
        let h = rect.height as usize;
        let top = rect.top as usize;
        proof {
            assert(h * rb == rect.height * rect.width * 2) by (nonlinear_arith) requires rb == rect.width * 2, h == rect.height;
            assert(h as int * rb as int <= u32::MAX as int * (2 * u32::MAX as int)) by (nonlinear_arith)
                requires h <= u32::MAX, rb <= 2 * u32::MAX, h >= 0, rb >= 0;
        }
        if data.len() as u128 != h as u128 * rb as u128 {
            return Err(RegionError::SizeMismatch);
        }
        let n = self.frame.len();
        let dn = data.len();
        let ghost sll = ll as int;
        let ghost before = *self;
        let mut row: usize = 0;
        while row < h
            invariant
                self.geom_ok(),
                self.frame@.len() == before.frame@.len(),
                self.xres == before.xres,
                self.yres == before.yres,
                self.line_length == before.line_length,
                self.history == before.history,
                before.wf(),
                ll == self.line_length,
                sll == ll,
                n == self.frame@.len(),
                rb == rect.width * 2,
                left_byte == rect.left * 2,
                h == rect.height,
                top == rect.top,
                before.fits(rect),
                data@.len() == h * rb,
                dn == data@.len(),
                row <= h,
                forall|r: int, c: int|
                    #![trigger region_offset(sll, top as int, left_byte as int, r, c)]
                    0 <= r < row && 0 <= c < rb ==> self.frame@[region_offset(
                        sll,
                        top as int,
                        left_byte as int,
                        r,
                        c,
                    )] == data@[r * rb + c],
                forall|i: int|
                    0 <= i < self.frame@.len() && !before.in_region(rect, i) ==> #[trigger] self.frame@[i]
                        == before.frame@[i],
            decreases h - row,
        {
            proof {
                lemma_row_bound(sll, top as int, h as int, self.yres as int, left_byte as int, rb as int, row as int);
                lemma_flat_index(rb as int, row as int, h as int);
                assert((top + row) * ll + left_byte + rb <= self.frame@.len());
            }
            let start = (top + row) * ll + left_byte;
            let base = row * rb;
            let mut col: usize = 0;
            while col < rb
                invariant
                    self.geom_ok(),
                    self.frame@.len() == before.frame@.len(),
                    self.xres == before.xres,
                    self.yres == before.yres,
                    self.line_length == before.line_length,
                    self.history == before.history,
                    before.wf(),
                    ll == self.line_length,
                    sll == ll,
                    n == self.frame@.len(),
                n == self.frame@.len(),
                sll == ll,
                n == self.frame@.len(),
                    rb == rect.width * 2,
                    left_byte == rect.left * 2,
                    h == rect.height,
                    top == rect.top,
                    before.fits(rect),
                    data@.len() == h * rb,
                    dn == data@.len(),
                dn == data@.len(),
                    row < h,
                    col <= rb,
                    start == (top + row) * ll + left_byte,
                    start + rb <= self.frame@.len(),
                    base == row * rb,
                    base + rb <= data@.len(),
                    forall|r: int, c: int|
                        #![trigger region_offset(sll, top as int, left_byte as int, r, c)]
                        0 <= r < row && 0 <= c < rb ==> self.frame@[region_offset(
                            sll,
                            top as int,
                            left_byte as int,
                            r,
                            c,
                        )] == data@[r * rb + c],
                    forall|c: int| 0 <= c < col ==> #[trigger] self.frame@[start + c] == data@[base + c],
                    forall|i: int|
                        0 <= i < self.frame@.len() && !before.in_region(rect, i) ==> #[trigger] self.frame@[i]
                            == before.frame@[i],
                decreases rb - col,
            {
                proof {
                    lemma_region_offset(sll, top as int, left_byte as int, rb as int, row as int, col as int);
                    assert(region_offset(sll, top as int, left_byte as int, row as int, col as int) == start + col);
                }
                let ghost prev = self.frame@;
                self.frame.set(start + col, data[base + col]);
                proof {
                    assert forall|r: int, c: int|
                        #![trigger region_offset(sll, top as int, left_byte as int, r, c)]
                        0 <= r < row && 0 <= c < rb implies self.frame@[region_offset(
                            sll,
                            top as int,
                            left_byte as int,
                            r,
                            c,
                        )] == data@[r * rb + c] by {
                        lemma_region_offset(sll, top as int, left_byte as int, rb as int, r, c);
                        lemma_region_offset(sll, top as int, left_byte as int, rb as int, row as int, col as int);
                        lemma_row_bound(sll, top as int, h as int, self.yres as int, left_byte as int, rb as int, r);
                        assert(region_offset(sll, top as int, left_byte as int, r, c) != start + col);
                        assert(self.frame@[region_offset(sll, top as int, left_byte as int, r, c)]
                            == prev[region_offset(sll, top as int, left_byte as int, r, c)]);
                    }
                }
                col += 1;
            }
            proof {
                assert forall|r: int, c: int|
                    #![trigger region_offset(sll, top as int, left_byte as int, r, c)]
                    0 <= r < row + 1 && 0 <= c < rb implies self.frame@[region_offset(
                        sll,
                        top as int,
                        left_byte as int,
                        r,
                        c,
                    )] == data@[r * rb + c] by {
                    if r == row {
                        assert(region_offset(sll, top as int, left_byte as int, r, c) == start + c);
                        assert(self.frame@[start + c] == data@[base + c]);
                    } else {
                        lemma_flat_index(rb as int, r, row as int);
                        assert(r * rb + c < row * rb + rb);
                    }
                }
            }
            row += 1;
        }
        self.base = Ghost(self.frame@);
        self.start = Ghost(self.history@.len());
        assert(self.history@.skip(self.start@ as int) =~= Seq::<PixelWrite>::empty());
        Ok(())
    }
}

impl Framebuffer {
    /// Whether a write at `pos` lands: the position is visible and its two
    /// bytes lie in the store (always so for a well-formed surface).
    pub open spec fn spec_accepts(&self, pos: IntVec2) -> bool {
        &&& 0 <= pos.x < self.spec_xres()
        &&& 0 <= pos.y < self.spec_yres()
        &&& self.pixel_offset(pos.x as int, pos.y as int) + 1 < self.frame_view().len()
    }

    /// Stores `c` at `pos` as its native value, low byte first; a position off
    /// the visible surface leaves the store as it was.
    pub fn put_pixel(&mut self, pos: IntVec2, c: Color)
        ensures
            final(self).frame_view() == (if old(self).spec_accepts(pos) {
                old(self).frame_view().update(
                    old(self).pixel_offset(pos.x as int, pos.y as int),
                    (c.spec_native() % 256) as u8,
                ).update(old(self).pixel_offset(pos.x as int, pos.y as int) + 1, (c.spec_native() / 256) as u8)
            } else {
                old(self).frame_view()
            }),
            final(self).painted() == (if old(self).spec_accepts(pos) {
                old(self).painted().push((pos, c))
            } else {
                old(self).painted()
            }),
            final(self).spec_xres() == old(self).spec_xres(),
            final(self).spec_yres() == old(self).spec_yres(),
            final(self).spec_line_length() == old(self).spec_line_length(),
            final(self).spec_backdrop() == old(self).spec_backdrop(),
            old(self).wf() ==> final(self).wf(),
            old(self).wf() ==> (old(self).spec_accepts(pos) <==> (0 <= pos.x < old(self).spec_xres() && 0
                <= pos.y < old(self).spec_yres())),
    {
        proof {
            if self.geom_ok() && 0 <= pos.x < self.xres && 0 <= pos.y < self.yres {
                let (x, y, ll, yr) = (pos.x as int, pos.y as int, self.line_length as int, self.yres as int);
                assert(y * ll + x * 2 + 1 < ll * yr) by (nonlinear_arith)
                    requires 0 <= y < yr, 0 <= x, x * 2 + 2 <= ll;
            }
        }
        if pos.x < 0 || pos.y < 0 || pos.x as u64 >= self.xres as u64 || pos.y as u64 >= self.yres as u64 {
            return;
        }
        proof {
            assert(pos.y as int * self.line_length as int <= u32::MAX as int * u32::MAX as int) by (nonlinear_arith)
                requires 0 <= pos.y <= u32::MAX, self.line_length <= u32::MAX;
        }
        let o = pos.y as u128 * self.line_length as u128 + pos.x as u128 * 2;
        if o + 1 >= self.frame.len() as u128 {
            return;
        }
        let o = o as usize;
        let v = c.to_native();
        let ghost before = *self;
        self.frame.set(o, (v % 256) as u8);
        self.frame.set(o + 1, (v / 256) as u8);
        self.history = Ghost(self.history@.push((pos, c)));
        proof {
            if before.wf() {
                let s0 = before.history@.skip(before.start@ as int);
                assert(self.history@.skip(self.start@ as int) =~= s0.push((pos, c)));
                assert(s0.push((pos, c)).drop_last() =~= s0);
                assert(self.frame@ == apply_write(
                    before.frame@,
                    before.line_length as int,
                    before.xres as int,
                    before.yres as int,
                    (pos, c),
                ));
            }
        }
    }

    /// The backdrop of the surface as a canvas.
    pub closed spec fn spec_backdrop(&self) -> Backdrop {
        (self.base@, self.start@ as int, self.line_length as int, self.xres as int, self.yres as int)
    }
}

impl PixelCanvas for Framebuffer {
    closed spec fn painted(&self) -> Seq<PixelWrite> {
        self.history@
    }

    open spec fn accepts(&self, pos: IntVec2) -> bool {
        self.spec_accepts(pos)
    }

    open spec fn backdrop(&self) -> Backdrop {
        self.spec_backdrop()
    }

    open spec fn consistent(&self) -> bool {
        self.wf()
    }

    /// Stores `c` at `pos` as its native value, low byte first, when the
    /// position is visible; elsewhere the store is unchanged.
    fn write_pixel(&mut self, pos: IntVec2, c: Color)
        ensures
            final(self).frame_view() == (if old(self).spec_accepts(pos) {
                old(self).frame_view().update(
                    old(self).pixel_offset(pos.x as int, pos.y as int),
                    (c.spec_native() % 256) as u8,
                ).update(old(self).pixel_offset(pos.x as int, pos.y as int) + 1, (c.spec_native() / 256) as u8)
            } else {
                old(self).frame_view()
            }),
            final(self).spec_xres() == old(self).spec_xres(),
            final(self).spec_yres() == old(self).spec_yres(),
            final(self).spec_line_length() == old(self).spec_line_length(),
    {
        self.put_pixel(pos, c);
    }
}

impl Region for Framebuffer {
    open spec fn spec_region(&self) -> Rect {
        Rect { top: 0, left: 0, width: self.spec_xres() as u32, height: self.spec_yres() as u32 }
    }

    fn get_region(&self) -> (r: Rect) {
        self.full_region()
    }
}

/// On a consistent surface, what a run of canvas writes leaves in the store
/// is the store before them with those writes applied in order: a drawing
/// that adds `ws` to the log while keeping the backdrop (every drawing does)
/// paints exactly `ws` into the pixel bytes.
pub proof fn lemma_frame_after_writes(before: Framebuffer, after: Framebuffer, ws: Seq<PixelWrite>)
    requires
        before.wf(),
        after.wf(),
        after.spec_backdrop() == before.spec_backdrop(),
        after.painted() == before.painted() + ws,
    ensures
        after.frame_view() == overlay(
            before.frame_view(),
            before.spec_line_length(),
            before.spec_xres(),
            before.spec_yres(),
            ws,
        ),
{
    let st = before.start@ as int;
    assert(after.history@.skip(st) =~= before.history@.skip(st) + ws);
    lemma_overlay_concat(
        before.base@,
        before.line_length as int,
        before.xres as int,
        before.yres as int,
        before.history@.skip(st),
        ws,
    );
}

/// Dumping a region and restoring the dumped bytes into the same region
/// leaves the store exactly as it was.
pub proof fn lemma_dump_restore_round_trip(before: Framebuffer, after: Framebuffer, rect: Rect, data: Seq<u8>)
    requires
        before.wf(),
        before.fits(rect),
        before.is_dump_of(rect, data),
        after.is_restore_of(before, rect, data),
    ensures
        after.frame_view() == before.frame_view(),
{
    let ll = before.spec_line_length();
    let rb = rect.width * 2;
    assert forall|i: int| 0 <= i < after.frame_view().len() implies after.frame_view()[i]
        == before.frame_view()[i] by {
        if before.in_region(rect, i) {
            let row = i / ll - rect.top;
            let col = i % ll - rect.left * 2;
            vstd::arithmetic::div_mod::lemma_fundamental_div_mod(i, ll);
            assert(i == region_offset(ll, rect.top as int, rect.left * 2, row, col)) by (nonlinear_arith)
                requires i == ll * (i / ll) + i % ll, row == i / ll - rect.top, col == i % ll - rect.left * 2;
        }
    }
    assert(after.frame_view() =~= before.frame_view());
}

/// After a clear, every byte dumped from any region is the lightest tone.
pub proof fn lemma_cleared_dump_is_lightest(fb: Framebuffer, rect: Rect, data: Seq<u8>)
    requires
        fb.wf(),
        fb.fits(rect),
        fb.frame_view() == Seq::new(fb.frame_view().len(), |i: int| LIGHTEST_BYTE),
        fb.is_dump_of(rect, data),
    ensures
        forall|k: int| 0 <= k < data.len() ==> data[k] == LIGHTEST_BYTE,
{
    let ll = fb.spec_line_length();
    let rb = rect.width * 2;
    assert forall|k: int| 0 <= k < data.len() implies data[k] == LIGHTEST_BYTE by {
        let row = k / rb;
        let col = k % rb;
        vstd::arithmetic::div_mod::lemma_fundamental_div_mod(k, rb);
        assert(0 <= row < rect.height) by (nonlinear_arith)
            requires k == rb * row + col, 0 <= col < rb, 0 <= k < rect.height * rb, rb > 0;
        lemma_row_bound(ll, rect.top as int, rect.height as int, fb.spec_yres(), rect.left * 2, rb, row);
        lemma_region_offset(ll, rect.top as int, rect.left * 2, rb, row, col);
        assert(k == row * rb + col) by (nonlinear_arith) requires k == rb * row + col;
    }
}

} // verus!
