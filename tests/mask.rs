use libremarkable::canvas::{Both, Mask, MaskCanvas, PixelCanvas, PixelPredicate, PixelRecorder};
use libremarkable::color::Color;
use libremarkable::graphics::fill_rect;
use libremarkable::rect::Rect;
use libremarkable::vector::IntVec2;

fn p(x: i32, y: i32) -> IntVec2 {
    IntVec2 { x, y }
}

#[test]
fn test_draw_bool_mask() {
    let mut mock = PixelRecorder::new();
    mock.mask(Mask::All).write_pixel(p(100, 100), Color::Black);
    assert_eq!(mock.positions(), vec![p(100, 100)]);

    mock.clear();
    mock.mask(Mask::Nothing).write_pixel(p(100, 100), Color::Black);
    assert_eq!(mock.positions(), vec![]);
}

#[test]
fn test_draw_checker_mask() {
    let mut mock = PixelRecorder::new();
    fill_rect(&mut mock.mask(Mask::Checkered(2)), p(100, 100), 2, 2, Color::Black);
    assert_eq!(mock.positions(), vec![p(101, 100), p(100, 101)]);
}

#[test]
fn chained_masks_gate_like_their_conjunction() {
    let region = Rect { top: 0, left: 0, width: 4, height: 4 };
    let mut chained = PixelRecorder::new();
    {
        let mut inner = chained.mask(Mask::Checkered(2));
        let mut outer = inner.mask(Mask::Within(region));
        for y in -1..6 {
            for x in -1..6 {
                outer.write_pixel(p(x, y), Color::Black);
            }
        }
    }
    let mut single = PixelRecorder::new();
    {
        let both = Both { first: Mask::Checkered(2), second: Mask::Within(region) };
        let mut m = single.mask(both);
        for y in -1..6 {
            for x in -1..6 {
                m.write_pixel(p(x, y), Color::Black);
            }
        }
    }
    assert_eq!(chained.positions(), single.positions());
    assert_eq!(
        chained.positions(),
        vec![p(1, 0), p(3, 0), p(0, 1), p(2, 1), p(1, 2), p(3, 2), p(0, 3), p(2, 3)]
    );
}

#[test]
fn mask_passes_write_only_where_predicate_holds() {
    let mut rec = PixelRecorder::new();
    {
        let mut m = rec.mask(Mask::NonNegative);
        m.write_pixel(p(-1, 5), Color::White);
        m.write_pixel(p(3, 4), Color::White);
        m.write_pixel(p(2, -7), Color::White);
    }
    assert_eq!(rec.writes, vec![(p(3, 4), Color::White)]);
}

#[test]
fn checkered_mask_on_negative_coordinates_uses_truncating_remainder() {
    // -1 % 2 is -1, so -1 lands in the first half of its cell, like 0.
    assert!(!Mask::Checkered(2).test(p(-1, 0)));
    assert!(Mask::Checkered(2).test(p(-1, 1)));
    assert!(!Mask::Checkered(2).test(p(-1, -1)));
    assert!(Mask::Checkered(0).test(p(5, 5)));
}

/// A predicate of the caller's own: the diagonal `x == y`.
struct Diagonal;

impl PixelPredicate for Diagonal {
    fn admits(&self, pos: IntVec2) -> bool {
        pos.x == pos.y
    }

    fn test(&self, pos: IntVec2) -> bool {
        pos.x == pos.y
    }
}

#[test]
fn any_predicate_type_can_mask_and_chain() {
    let mut rec = PixelRecorder::new();
    {
        let mut inner = rec.mask(Diagonal);
        let mut outer = inner.mask(Mask::NonNegative);
        for k in -2..3 {
            outer.write_pixel(p(k, k), Color::Black);
            outer.write_pixel(p(k, k + 1), Color::Black);
        }
    }
    assert_eq!(rec.positions(), vec![p(0, 0), p(1, 1), p(2, 2)]);
}
