use libremarkable::canvas::PixelRecorder;
use libremarkable::color::Color;
use libremarkable::graphics::{
    draw_circle, draw_image, draw_line, draw_polygon, draw_rect, fill_circle, fill_rect, line_points,
    stamp_along_line,
};
use libremarkable::rect::Rect;
use libremarkable::vector::IntVec2;

fn p(x: i32, y: i32) -> IntVec2 {
    IntVec2 { x, y }
}

#[test]
fn test_draw_1px_square_polygon() {
    let mut mock = PixelRecorder::new();
    let points = vec![p(100, 100), p(100, 101), p(101, 101), p(101, 100)];
    draw_polygon(&mut mock, &points, true, Color::Black);
    assert_eq!(mock.positions(), vec![p(100, 100)]);
}

#[test]
fn test_draw_2x1px_triangle_pair() {
    let mut mock = PixelRecorder::new();
    let points = vec![p(100, 100), p(100, 101), p(102, 100)];
    draw_polygon(&mut mock, &points, true, Color::Black);
    let points = vec![p(100, 101), p(102, 100), p(102, 101)];
    draw_polygon(&mut mock, &points, true, Color::Black);
    assert_eq!(mock.positions(), vec![p(100, 100), p(101, 100)]);
}

#[test]
fn polygon_fill_follows_nonzero_winding() {
    // A 4x3 rectangle: rows 10..13, columns 20..24.
    let mut rec = PixelRecorder::new();
    let pts = vec![p(20, 10), p(20, 13), p(24, 13), p(24, 10)];
    let r = draw_polygon(&mut rec, &pts, true, Color::Black);
    let mut expected = Vec::new();
    for y in 10..13 {
        for x in 20..24 {
            expected.push(p(x, y));
        }
    }
    assert_eq!(rec.positions(), expected);
    assert_eq!(r, Rect { top: 10, left: 20, width: 4, height: 3 });
}

#[test]
fn polygon_outline_paints_pair_boundaries() {
    let mut rec = PixelRecorder::new();
    let pts = vec![p(20, 10), p(20, 12), p(24, 12), p(24, 10)];
    draw_polygon(&mut rec, &pts, false, Color::Black);
    assert_eq!(rec.positions(), vec![p(20, 10), p(23, 10), p(20, 11), p(23, 11)]);
}

#[test]
fn degenerate_polygons_paint_nothing_and_report_invalid() {
    let mut rec = PixelRecorder::new();
    assert_eq!(draw_polygon(&mut rec, &vec![], true, Color::Black), Rect::invalid());
    let flat = vec![p(1, 5), p(9, 5), p(4, 5)];
    assert_eq!(draw_polygon(&mut rec, &flat, true, Color::Black), Rect::invalid());
    assert!(rec.positions().is_empty());
}

#[test]
fn horizontal_line_width_one_paints_each_pixel_once() {
    let mut rec = PixelRecorder::new();
    let r = stamp_along_line(&mut rec, 0, 0, 0, 10, 1, Color::Black);
    let expected: Vec<IntVec2> = (0..=10).map(|x| p(x, 0)).collect();
    assert_eq!(rec.positions(), expected);
    assert_eq!(r, Rect { top: 0, left: 0, width: 10, height: 0 });
}

#[test]
fn draw_line_expands_the_box_by_half_the_width() {
    let mut rec = PixelRecorder::new();
    let r = draw_line(&mut rec, p(5, 5), p(10, 5), 1, Color::Black);
    assert_eq!(r, Rect { top: 4, left: 4, width: 7, height: 2 });
    let mut rec = PixelRecorder::new();
    let r = draw_line(&mut rec, p(5, 5), p(5, 5), 3, Color::Black);
    assert_eq!(r, Rect { top: 3, left: 3, width: 4, height: 4 });
    let mut expected = Vec::new();
    for y in 4..7 {
        for x in 4..7 {
            expected.push(p(x, y));
        }
    }
    assert_eq!(rec.positions(), expected);
}

#[test]
fn bresenham_diagonal_and_steep_lines() {
    assert_eq!(line_points(0, 0, 2, 2), vec![p(0, 0), p(0, 1), p(1, 1), p(1, 2), p(2, 2)]);
    assert_eq!(line_points(3, 0, 3, -2), vec![p(3, 0), p(3, -1), p(3, -2)]);
    assert_eq!(line_points(4, 4, 4, 4), vec![p(4, 4)]);
    let pts = line_points(-3, 7, 9, 2);
    assert_eq!(pts[0], p(-3, 7));
    assert_eq!(*pts.last().unwrap(), p(9, 2));
}

#[test]
fn fill_rect_writes_row_major() {
    let mut rec = PixelRecorder::new();
    fill_rect(&mut rec, p(1, 2), 2, 2, Color::White);
    assert_eq!(rec.positions(), vec![p(1, 2), p(2, 2), p(1, 3), p(2, 3)]);
    assert!(rec.writes.iter().all(|w| w.1 == Color::White));
}

#[test]
fn rect_outline_draws_four_sides() {
    let mut rec = PixelRecorder::new();
    draw_rect(&mut rec, p(0, 0), 2, 1, 1, Color::Black);
    assert_eq!(
        rec.positions(),
        vec![p(0, 0), p(1, 0), p(2, 0), p(0, 0), p(0, 1), p(2, 0), p(2, 1), p(0, 1), p(1, 1), p(2, 1)]
    );
}

#[test]
fn filled_disk_of_radius_one() {
    let mut rec = PixelRecorder::new();
    let r = fill_circle(&mut rec, p(10, 10), 1, Color::Black);
    assert_eq!(rec.positions(), vec![p(10, 9), p(9, 10), p(10, 10), p(11, 10), p(10, 11)]);
    assert_eq!(r, Rect { top: 9, left: 9, width: 2, height: 2 });
}

#[test]
fn zero_radius_circles_are_degenerate() {
    let mut rec = PixelRecorder::new();
    assert_eq!(fill_circle(&mut rec, p(5, 5), 0, Color::Black), Rect::invalid());
    assert_eq!(draw_circle(&mut rec, p(5, 5), 0, Color::Black), Rect::invalid());
    assert!(rec.positions().is_empty());
}

#[test]
fn circle_outline_of_radius_one() {
    let mut rec = PixelRecorder::new();
    let r = draw_circle(&mut rec, p(10, 10), 1, Color::Black);
    assert_eq!(rec.positions(), vec![p(11, 10), p(10, 11), p(9, 10), p(10, 9)]);
    assert_eq!(r, Rect { top: 9, left: 9, width: 2, height: 2 });
}

#[test]
fn image_is_written_row_major_with_its_colors() {
    let mut rec = PixelRecorder::new();
    let rgb = vec![1, 2, 3, 4, 5, 6, 7, 8, 9, 10, 11, 12];
    let r = draw_image(&mut rec, p(5, 6), 2, 2, &rgb);
    assert_eq!(
        rec.writes,
        vec![
            (p(5, 6), Color::Rgb(1, 2, 3)),
            (p(6, 6), Color::Rgb(4, 5, 6)),
            (p(5, 7), Color::Rgb(7, 8, 9)),
            (p(6, 7), Color::Rgb(10, 11, 12)),
        ]
    );
    assert_eq!(r, Rect { top: 6, left: 5, width: 2, height: 2 });
}

#[test]
fn unit_square_and_triangle_pair_elsewhere() {
    let mut rec = PixelRecorder::new();
    let r = draw_polygon(&mut rec, &vec![p(0, 0), p(0, 1), p(1, 1), p(1, 0)], true, Color::Black);
    assert_eq!(rec.positions(), vec![p(0, 0)]);
    assert_eq!(r, Rect { top: 0, left: 0, width: 1, height: 1 });
    let mut rec = PixelRecorder::new();
    draw_polygon(&mut rec, &vec![p(3, 7), p(3, 8), p(5, 7)], true, Color::Black);
    draw_polygon(&mut rec, &vec![p(3, 8), p(5, 7), p(5, 8)], true, Color::Black);
    assert_eq!(rec.positions(), vec![p(3, 7), p(4, 7)]);
}
