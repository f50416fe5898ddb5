use libremarkable::canvas::{Mask, MaskCanvas, PixelRecorder, Region};
use libremarkable::color::Color;
use libremarkable::framebuffer::Framebuffer;
use libremarkable::graphics::draw_polygon_edges;
use libremarkable::rect::Rect;
use libremarkable::text::{blend_coverage, draw_glyphs, GlyphRaster};
use libremarkable::vector::IntVec2;

fn p(x: i32, y: i32) -> IntVec2 {
    IntVec2 { x, y }
}

fn glyph() -> GlyphRaster {
    GlyphRaster { left: 5, top: 5, width: 3, height: 1, coverage: vec![0, 255, 128] }
}

#[test]
fn coverage_blends_from_white_to_the_foreground() {
    assert_eq!(blend_coverage(Color::Black, 0), Color::Rgb(255, 255, 255));
    assert_eq!(blend_coverage(Color::Black, 255), Color::Rgb(0, 0, 0));
    assert_eq!(blend_coverage(Color::Black, 128), Color::Rgb(127, 127, 127));
    assert_eq!(blend_coverage(Color::Rgb(255, 0, 0), 255), Color::Rgb(255, 0, 0));
    assert_eq!(blend_coverage(Color::Rgb(255, 0, 0), 51), Color::Rgb(255, 204, 204));
}

#[test]
fn glyphs_are_composited_and_boxed() {
    let mut rec = PixelRecorder::new();
    let r = draw_glyphs(&mut rec, 5, 4, 6, 5, &vec![glyph()], Color::Black, false);
    assert_eq!(r, Rect { top: 4, left: 5, width: 3, height: 2 });
    assert_eq!(
        rec.writes,
        vec![
            (p(5, 5), Color::Rgb(255, 255, 255)),
            (p(6, 5), Color::Rgb(0, 0, 0)),
            (p(7, 5), Color::Rgb(127, 127, 127)),
        ]
    );
}

#[test]
fn dry_run_measures_without_writing() {
    let mut rec = PixelRecorder::new();
    let glyphs = vec![glyph(), GlyphRaster { left: -3, top: 9, width: 1, height: 2, coverage: vec![1, 2] }];
    let measured = draw_glyphs(&mut rec, 5, 4, 6, 5, &glyphs, Color::Black, true);
    assert!(rec.writes.is_empty());
    let drawn = draw_glyphs(&mut rec, 5, 4, 6, 5, &glyphs, Color::Black, false);
    assert_eq!(measured, drawn);
    assert_eq!(drawn, Rect { top: 4, left: 0, width: 8, height: 7 });
    assert_eq!(rec.writes.len(), 5);
}

#[test]
fn polygon_edges_are_lines_between_vertices() {
    let mut rec = PixelRecorder::new();
    let r = draw_polygon_edges(&mut rec, &vec![p(1, 1), p(3, 1), p(1, 2)], Color::Black);
    assert_eq!(
        rec.positions(),
        vec![p(1, 1), p(2, 1), p(3, 1), p(3, 1), p(2, 1), p(1, 2), p(1, 2), p(1, 1)]
    );
    assert_eq!(r, Rect { top: 0, left: 0, width: 4, height: 3 });
}

#[test]
fn masked_surface_reports_the_surface_region() {
    let mut fb = Framebuffer::new(6, 4, 12).unwrap();
    assert_eq!(fb.get_region(), Rect { top: 0, left: 0, width: 6, height: 4 });
    let m = fb.mask(Mask::NonNegative);
    assert_eq!(m.get_region(), Rect { top: 0, left: 0, width: 6, height: 4 });
}
