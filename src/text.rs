use vstd::prelude::*;
use crate::canvas::{paint_writes, kept, reached, PixelCanvas, PixelWrite};
use crate::color::Color;
use crate::polygon::pixel;
use crate::rect::Rect;
use crate::vector::IntVec2;

verus! {

/// One laid-out glyph: its pixel box and a coverage value per pixel of the
/// box, row-major, `0` for none and `255` for full coverage.
pub struct GlyphRaster {
    pub left: i32,
    pub top: i32,
    pub width: u32,
    pub height: u32,
    pub coverage: Vec<u8>,
}

impl GlyphRaster {
    pub open spec fn fits(&self) -> bool {
        &&& self.coverage@.len() == self.width * self.height
        &&& self.left + self.width <= i32::MAX
        &&& self.top + self.height <= i32::MAX
    }
}

/// One channel blended from white toward `fg` by coverage `cov` out of 255.
pub open spec fn blend_channel(fg: int, cov: int) -> int {
    (255 * (255 - cov) + fg * cov) / 255
}

/// The color of a glyph pixel: white at no coverage, `fg` at full coverage,
/// linearly between.
pub open spec fn blend(fg: Color, cov: u8) -> Color {
    let (r, g, b) = fg.spec_rgb8();
    Color::Rgb(
        blend_channel(r as int, cov as int) as u8,
        blend_channel(g as int, cov as int) as u8,
        blend_channel(b as int, cov as int) as u8,
    )
}

fn blend_one(fg: u8, cov: u8) -> (r: u8)
    ensures
        r == blend_channel(fg as int, cov as int),
{
    proof {
        assert(255 * (255 - cov) + fg * cov <= 255 * 255) by (nonlinear_arith)
            requires fg <= 255, cov <= 255;
        assert(0 <= 255 * (255 - cov) + fg * cov) by (nonlinear_arith)
            requires fg >= 0, cov <= 255, cov >= 0;
    }
    ((255 * (255 - cov as u32) + fg as u32 * cov as u32) / 255) as u8
}

/// Blends `fg` over white by coverage `cov`.
pub fn blend_coverage(fg: Color, cov: u8) -> (c: Color)
    ensures
        c == blend(fg, cov),
{
    let (r, g, b) = fg.to_rgb8();
    Color::Rgb(blend_one(r, cov), blend_one(g, cov), blend_one(b, cov))
}

/// The writes that composite one glyph.
pub open spec fn glyph_writes(g: GlyphRaster, fg: Color) -> Seq<PixelWrite> {
    Seq::new(
        (g.width * g.height) as nat,
        |k: int| (pixel(g.left + k % (g.width as int), g.top + k / (g.width as int)), blend(fg, g.coverage@[k])),
    )
}

/// The writes of glyphs `0..k`, in order.
pub open spec fn glyphs_writes(gs: Seq<GlyphRaster>, fg: Color, k: int) -> Seq<PixelWrite>
    decreases k,
{
    if k <= 0 {
        Seq::empty()
    } else {
        glyphs_writes(gs, fg, k - 1) + glyph_writes(gs[k - 1], fg)
    }
}

/// A coordinate as the text box keeps it: negative values count as zero.
pub open spec fn nonneg(v: int) -> int {
    if v < 0 { 0 } else { v }
}

/// The text box after glyphs `0..k`: the starting box `(x0, y0)`..`(x1, y1)`
/// widened to take in each glyph's box.
pub open spec fn text_box(x0: int, y0: int, x1: int, y1: int, gs: Seq<GlyphRaster>, k: int) -> (int, int, int, int)
    decreases k,
{
    if k <= 0 {
        (x0, y0, x1, y1)
    } else {
        let (a, b, c, d) = text_box(x0, y0, x1, y1, gs, k - 1);
        let g = gs[k - 1];
        let gx0 = nonneg(g.left as int);
        let gy0 = nonneg(g.top as int);
        let gx1 = nonneg(g.left + g.width);
        let gy1 = nonneg(g.top + g.height);
        (
            if gx0 < a { gx0 } else { a },
            if gy0 < b { gy0 } else { b },
            if gx1 > c { gx1 } else { c },
            if gy1 > d { gy1 } else { d },
        )
    }
}

/// The rectangle of a text box.
pub open spec fn box_rect(b: (int, int, int, int)) -> Rect {
    Rect { top: b.1 as u32, left: b.0 as u32, width: (b.2 - b.0) as u32, height: (b.3 - b.1) as u32 }
}

fn glyph_pixels(g: &GlyphRaster, fg: Color, out: &mut Vec<PixelWrite>)
    requires
        g.fits(),
    ensures
        final(out)@ == old(out)@ + glyph_writes(*g, fg),
{
    let ghost start = out@;
    let ghost (w, h) = (g.width as int, g.height as int);
    let n = g.coverage.len();
    let mut j: u32 = 0;
    while j < g.height
        invariant
            j <= g.height,
            g.fits(),
            w == g.width,
            h == g.height,
            n == g.coverage@.len(),
            out@ == start + glyph_writes(*g, fg).take(j * w),
        decreases g.height - j,
    {
        let mut i: u32 = 0;
        while i < g.width
            invariant
                i <= g.width,
                j < g.height,
                g.fits(),
                w == g.width,
                h == g.height,
                n == g.coverage@.len(),
                out@ == start + glyph_writes(*g, fg).take(j * w + i),
            decreases g.width - i,
        {
            proof {
                assert(j * w + i < w * h) by (nonlinear_arith) requires i < w, j < h;
                vstd::arithmetic::div_mod::lemma_fundamental_div_mod_converse(j * w + i, w, j as int, i as int);
            }
            let k = j as usize * g.width as usize + i as usize;
            let c = blend_coverage(fg, g.coverage[k]);
            out.push((IntVec2 { x: (g.left as i64 + i as i64) as i32, y: (g.top as i64 + j as i64) as i32 }, c));
            proof {
                assert(glyph_writes(*g, fg).take(j * w + i + 1) =~= glyph_writes(*g, fg).take(j * w + i).push(
                    glyph_writes(*g, fg)[j * w + i],
                ));
            }
            i += 1;
        }
        proof {
            assert((j + 1) * w == j * w + w) by (nonlinear_arith);
        }
        j += 1;
    }
    proof {
        assert(glyph_writes(*g, fg).take(h * w) =~= glyph_writes(*g, fg));
    }
}

/// Composites laid-out glyphs onto the canvas, each pixel blended from white
/// toward `fg` by its coverage, and returns the box of the text: the starting
/// box `(x0, y0)`..`(x1, y1)` widened by every glyph's box. With `dry_run` the
/// same box comes back and nothing is written.
pub fn draw_glyphs<C: PixelCanvas>(
    canvas: &mut C,
    x0: u32,
    y0: u32,
    x1: u32,
    y1: u32,
    glyphs: &Vec<GlyphRaster>,
    fg: Color,
    dry_run: bool,
) -> (r: Rect)
    requires
        x0 <= x1,
        y0 <= y1,
        forall|i: int| 0 <= i < glyphs@.len() ==> (#[trigger] glyphs@[i]).fits(),
    ensures
        r == box_rect(text_box(x0 as int, y0 as int, x1 as int, y1 as int, glyphs@, glyphs@.len() as int)),
        dry_run ==> final(canvas).painted() == old(canvas).painted(),
        !dry_run ==> final(canvas).painted() == old(canvas).painted() + reached(
            *old(canvas),
            glyphs_writes(glyphs@, fg, glyphs@.len() as int),
        ),
        kept(*old(canvas), *final(canvas)),
{
    let (mut a, mut b, mut c, mut d) = (x0 as i64, y0 as i64, x1 as i64, y1 as i64);
    let mut writes: Vec<PixelWrite> = Vec::new();
    let mut k: usize = 0;
    while k < glyphs.len()
        invariant
            k <= glyphs@.len(),
            forall|i: int| 0 <= i < glyphs@.len() ==> (#[trigger] glyphs@[i]).fits(),
            (a as int, b as int, c as int, d as int) == text_box(x0 as int, y0 as int, x1 as int, y1 as int, glyphs@, k as int),
            0 <= a <= c <= u32::MAX,
            0 <= b <= d <= u32::MAX,
            writes@ == glyphs_writes(glyphs@, fg, k as int),
        decreases glyphs@.len() - k,
    {
        let g = &glyphs[k];
        let gx0: i64 = if g.left < 0 { 0 } else { g.left as i64 };
        let gy0: i64 = if g.top < 0 { 0 } else { g.top as i64 };
        let ex: i64 = g.left as i64 + g.width as i64;
        let ey: i64 = g.top as i64 + g.height as i64;
        let gx1: i64 = if ex < 0 { 0 } else { ex };
        let gy1: i64 = if ey < 0 { 0 } else { ey };
        if gx0 < a {
            a = gx0;
        }
        if gy0 < b {
            b = gy0;
        }
        if gx1 > c {
            c = gx1;
        }
        if gy1 > d {
            d = gy1;
        }
        glyph_pixels(g, fg, &mut writes);
        k += 1;
    }
    if !dry_run {
        paint_writes(canvas, &writes);
    }
    Rect { top: b as u32, left: a as u32, width: (c - a) as u32, height: (d - b) as u32 }
}

} // verus!
