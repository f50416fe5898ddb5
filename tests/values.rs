use libremarkable::color::Color;
use libremarkable::rect::Rect;
use libremarkable::refresh::{
    DisplayTemp, RefreshController, Settle, UIConstraintRefresh, UpdateRequest, Waveform, DEEP_CLEAR_SETTLE_MILLIS,
};
use libremarkable::vector::IntVec2;

#[test]
fn merge_is_bounding_box_with_invalid_identity() {
    let a = Rect { top: 0, left: 0, width: 10, height: 10 };
    let b = Rect { top: 5, left: 20, width: 10, height: 1 };
    let m = a.merge_rect(&b);
    assert_eq!(m, Rect { top: 0, left: 0, width: 30, height: 10 });
    assert!(m.contains_rect(&a) && m.contains_rect(&b));
    assert_eq!(Rect::invalid().merge_rect(&b), b);
    assert_eq!(b.merge_rect(&Rect::invalid()), b);
    let smaller = Rect { top: 0, left: 0, width: 29, height: 10 };
    assert!(!smaller.contains_rect(&b));
}

#[test]
fn rect_point_containment_and_expand() {
    let r = Rect { top: 2, left: 3, width: 4, height: 5 };
    assert!(r.contains_point(3, 2));
    assert!(!r.contains_point(7, 2));
    assert!(!r.contains_point(-1, 3));
    assert_eq!(r.expand(2), Rect { top: 0, left: 1, width: 8, height: 9 });
    assert_eq!(
        Rect { top: 0, left: u32::MAX - 1, width: 1, height: 1 }.expand(5),
        Rect { top: 0, left: u32::MAX - 6, width: 6, height: 6 }
    );
}

#[test]
fn vector_arithmetic() {
    let a = IntVec2 { x: 3, y: -4 };
    let b = IntVec2 { x: -1, y: 10 };
    assert_eq!(a.add(b), IntVec2 { x: 2, y: 6 });
    assert_eq!(a.sub(b), IntVec2 { x: 4, y: -14 });
    assert_eq!(a.mul(3), IntVec2 { x: 9, y: -12 });
    assert_eq!(IntVec2 { x: -7, y: 7 }.div(2), IntVec2 { x: -3, y: 3 });
    assert_eq!(IntVec2 { x: -7, y: 7 }.div(-2), IntVec2 { x: 3, y: -3 });
    assert_eq!(a.add(b).add(a), a.add(b.add(a)));
}

#[test]
fn color_conversions() {
    assert_eq!(Color::Black.to_rgb8(), (0, 0, 0));
    assert_eq!(Color::White.to_rgb8(), (255, 255, 255));
    assert_eq!(Color::White.to_native(), 0xFFFF);
    assert_eq!(Color::Black.to_native(), 0);
    assert_eq!(Color::Rgb(255, 0, 0).to_native(), 0xF800);
    assert_eq!(Color::Rgb(0, 255, 0).to_native(), 0x07E0);
    assert_eq!(Color::Rgb(8, 4, 8).to_native(), 2048 + 32 + 1);
}

#[test]
fn refresh_requests_clip_and_take_fresh_markers() {
    let mut rc = RefreshController::new(100, 50);
    let q = rc
        .partial_refresh(Rect { top: 40, left: 90, width: 20, height: 20 }, Waveform::Du, DisplayTemp::RemarkableDraw, 0, 1, false)
        .unwrap();
    assert_eq!(
        q,
        UpdateRequest {
            rect: Rect { top: 40, left: 90, width: 10, height: 10 },
            update_mode: 0,
            waveform_mode: 1,
            temp: 0x0018,
            dither_mode: 0,
            quant_bit: 1,
            marker: 0,
        }
    );
    let q2 = rc.partial_refresh(Rect { top: 0, left: 0, width: 5, height: 5 }, Waveform::Gc16Fast, DisplayTemp::Max, 0, 0, true).unwrap();
    assert_eq!(q2.marker, 1);
    assert_eq!(q2.update_mode, 1);
    assert_eq!(q2.waveform_mode, 3);
    assert!(rc.partial_refresh(Rect { top: 0, left: 100, width: 5, height: 5 }, Waveform::Du, DisplayTemp::Max, 0, 0, false).is_none());
    assert!(rc.partial_refresh(Rect::invalid(), Waveform::Du, DisplayTemp::Max, 0, 0, false).is_none());
    assert_eq!(rc.next_marker, 2);
}

#[test]
fn refresh_inside_last_refreshed_rect_is_skipped() {
    let mut rc = RefreshController::new(100, 100);
    let big = Rect { top: 10, left: 10, width: 50, height: 50 };
    assert!(rc.refresh_if_uncovered(big, Waveform::Du, DisplayTemp::RemarkableDraw, 0, 0).is_some());
    let inner = Rect { top: 20, left: 20, width: 5, height: 5 };
    assert!(rc.refresh_if_uncovered(inner, Waveform::Du, DisplayTemp::RemarkableDraw, 0, 0).is_none());
    let outside = Rect { top: 70, left: 20, width: 5, height: 5 };
    assert_eq!(rc.refresh_if_uncovered(outside, Waveform::Du, DisplayTemp::RemarkableDraw, 0, 0).unwrap().marker, 1);
}

#[test]
fn clear_refresh_plans_deep_and_shallow() {
    let mut rc = RefreshController::new(1404, 1872);
    let (q, s) = rc.clear_refresh(true).unwrap();
    assert_eq!(q.rect, Rect { top: 0, left: 0, width: 1404, height: 1872 });
    assert_eq!((q.update_mode, q.waveform_mode, q.temp), (1, 0, 0x1000));
    assert_eq!(s, Settle::SleepMillis(DEEP_CLEAR_SETTLE_MILLIS));
    let (q, s) = rc.clear_refresh(false).unwrap();
    assert_eq!((q.update_mode, q.waveform_mode), (1, 0));
    assert_eq!(s, Settle::WaitForMarker(1));
    assert!(RefreshController::new(0, 10).clear_refresh(true).is_none());
}

#[test]
fn ui_refresh_constraints() {
    assert!(!UIConstraintRefresh::NoRefresh.wants_refresh());
    assert!(UIConstraintRefresh::Refresh.wants_refresh());
    assert!(!UIConstraintRefresh::Refresh.wants_wait());
    assert!(UIConstraintRefresh::RefreshAndWait.wants_wait());
}
