use libremarkable::bezier::{draw_dynamic_bezier, stroke_polygon, StrokePoint, SUBPIXEL};
use libremarkable::canvas::PixelRecorder;
use libremarkable::color::Color;
use libremarkable::input::{
    decode_button, DigitizerGeometry, GPIOEvent, MultitouchEvent, MultitouchState, PhysicalButton, RawEvent,
    WacomEvent, WacomPen, WacomState, ABS_MT_POSITION_X, ABS_MT_POSITION_Y, ABS_MT_SLOT, ABS_MT_TRACKING_ID,
    ABS_PRESSURE, ABS_X, ABS_Y, BTN_TOOL_PEN, BTN_TOUCH, EV_ABS, EV_KEY, EV_SYN, KEY_HOME, KEY_POWER, SYN_REPORT,
};
use libremarkable::rect::Rect;
use libremarkable::stroke::{StrokeSegment, StrokeTracker};
use libremarkable::vector::IntVec2;

fn p(x: i32, y: i32) -> IntVec2 {
    IntVec2 { x, y }
}

fn raw(kind: u16, code: u16, value: i32) -> RawEvent {
    RawEvent { kind, code, value }
}

fn draw_at(x: i32, y: i32, pressure: u16) -> WacomEvent {
    WacomEvent::Draw { position: p(x, y), pressure, tilt: p(0, 0) }
}

#[test]
fn digitizer_reports_hover_then_draw() {
    let geometry = DigitizerGeometry { raw_w: 2000, raw_h: 1000, screen_w: 1000, screen_h: 500 };
    let mut w = WacomState::new(geometry);
    assert_eq!(
        w.decode(raw(EV_KEY, BTN_TOOL_PEN, 1)),
        Some(WacomEvent::InstrumentChange { pen: WacomPen::ToolPen, state: true })
    );
    assert_eq!(w.decode(raw(EV_ABS, ABS_X, 400)), None);
    assert_eq!(w.decode(raw(EV_ABS, ABS_Y, 300)), None);
    assert_eq!(
        w.decode(raw(EV_SYN, SYN_REPORT, 0)),
        Some(WacomEvent::Hover { position: p(200, 150), distance: 0, tilt: p(0, 0) })
    );
    assert_eq!(
        w.decode(raw(EV_KEY, BTN_TOUCH, 1)),
        Some(WacomEvent::InstrumentChange { pen: WacomPen::Touch, state: true })
    );
    assert_eq!(w.decode(raw(EV_ABS, ABS_PRESSURE, 70000)), None);
    assert_eq!(
        w.decode(raw(EV_SYN, SYN_REPORT, 0)),
        Some(WacomEvent::Draw { position: p(200, 150), pressure: u16::MAX, tilt: p(0, 0) })
    );
    w.decode(raw(EV_KEY, BTN_TOUCH, 0));
    w.decode(raw(EV_KEY, BTN_TOOL_PEN, 0));
    assert_eq!(w.decode(raw(EV_SYN, SYN_REPORT, 0)), None);
}

#[test]
fn touch_contacts_carry_gesture_and_finger() {
    let mut t = MultitouchState::new();
    assert_eq!(t.decode(raw(EV_ABS, ABS_MT_SLOT, 1)), None);
    assert_eq!(t.decode(raw(EV_ABS, ABS_MT_TRACKING_ID, 17)), None);
    t.decode(raw(EV_ABS, ABS_MT_POSITION_X, 30));
    t.decode(raw(EV_ABS, ABS_MT_POSITION_Y, 40));
    assert_eq!(
        t.decode(raw(EV_SYN, SYN_REPORT, 0)),
        Some(MultitouchEvent::Touch { gesture_seq: 1, finger_id: 1, position: p(30, 40) })
    );
    assert_eq!(t.decode(raw(EV_SYN, SYN_REPORT, 0)), None);
    assert_eq!(t.decode(raw(EV_ABS, ABS_MT_TRACKING_ID, -1)), Some(MultitouchEvent::Unpress { finger_id: 1 }));
    t.decode(raw(EV_ABS, ABS_MT_TRACKING_ID, 18));
    t.decode(raw(EV_ABS, ABS_MT_POSITION_X, 31));
    assert_eq!(
        t.decode(raw(EV_SYN, SYN_REPORT, 0)),
        Some(MultitouchEvent::Touch { gesture_seq: 2, finger_id: 1, position: p(31, 40) })
    );
}

#[test]
fn buttons_emit_press_and_release() {
    assert_eq!(decode_button(raw(EV_KEY, KEY_HOME, 1)), Some(GPIOEvent::Press { button: PhysicalButton::Middle }));
    assert_eq!(decode_button(raw(EV_KEY, KEY_POWER, 0)), Some(GPIOEvent::Unpress { button: PhysicalButton::Power }));
    assert_eq!(decode_button(raw(EV_KEY, 999, 1)), None);
    assert_eq!(decode_button(raw(EV_SYN, KEY_HOME, 1)), None);
}

#[test]
fn lifting_the_tip_starts_a_new_stroke() {
    let region = Rect { top: 0, left: 0, width: 500, height: 500 };
    let mut t = StrokeTracker::new(region, 2).unwrap();
    assert_eq!(t.handle(draw_at(10, 10, 2048)), None);
    assert_eq!(t.handle(draw_at(20, 10, 2048)), None);
    assert_eq!(
        t.handle(WacomEvent::InstrumentChange { pen: WacomPen::Touch, state: false }),
        None
    );
    assert_eq!(t.handle(WacomEvent::InstrumentChange { pen: WacomPen::Touch, state: true }), None);
    assert_eq!(t.handle(draw_at(100, 100, 2048)), None);
    assert_eq!(t.handle(draw_at(110, 100, 2048)), None);
    let seg: StrokeSegment = t.handle(draw_at(120, 100, 2048)).unwrap();
    let s = SUBPIXEL as i32;
    assert_eq!(seg.start.pos, p(115 * s, 100 * s));
    assert_eq!(seg.ctrl.pos, p(110 * s, 100 * s));
    assert_eq!(seg.end.pos, p(105 * s, 100 * s));
    assert_eq!((seg.start.width, seg.ctrl.width, seg.end.width), (512, 512, 512));
    let next = t.handle(draw_at(130, 100, 2048)).unwrap();
    assert_eq!(next.end.pos, p(115 * s, 100 * s));
}

#[test]
fn samples_outside_the_region_and_far_hover_reset_the_stroke() {
    let region = Rect { top: 0, left: 0, width: 50, height: 50 };
    let mut t = StrokeTracker::new(region, 1).unwrap();
    t.handle(draw_at(1, 1, 100));
    t.handle(draw_at(2, 1, 100));
    assert_eq!(t.handle(draw_at(60, 1, 100)), None);
    t.handle(draw_at(3, 1, 100));
    t.handle(draw_at(4, 1, 100));
    t.handle(WacomEvent::Hover { position: p(4, 1), distance: 5, tilt: p(0, 0) });
    assert_eq!(t.handle(draw_at(5, 1, 100)), None);
    assert!(StrokeTracker::new(Rect { top: 0, left: 0, width: 70000, height: 1 }, 1).is_none());
}

#[test]
fn straight_stroke_stays_within_its_width_band() {
    let region = Rect { top: 0, left: 0, width: 1000, height: 1000 };
    let mut t = StrokeTracker::new(region, 2).unwrap();
    t.handle(draw_at(100, 100, 2048));
    t.handle(draw_at(110, 100, 2048));
    let seg = t.handle(draw_at(120, 100, 2048)).unwrap();
    let mut rec = PixelRecorder::new();
    let r = draw_dynamic_bezier(&mut rec, seg.start, seg.ctrl, seg.end, 10, Color::Black);
    let px = rec.positions();
    assert!(!px.is_empty());
    // Half the stroke width is one pixel either side of y = 100.
    for q in &px {
        assert!(q.y >= 98 && q.y <= 102, "{:?}", q);
        assert!(q.x >= 104 && q.x <= 116, "{:?}", q);
    }
    assert!(r.contains_rect(&Rect { top: 100, left: 106, width: 8, height: 0 }));
}

#[test]
fn fewer_than_two_samples_is_degenerate() {
    let s = SUBPIXEL as i32;
    let a = StrokePoint { pos: p(20 * s, 10 * s), width: 4 * s as u32 };
    let e = StrokePoint { pos: p(10 * s, 10 * s), width: 4 * s as u32 };
    for n in [0, 1] {
        let mut rec = PixelRecorder::new();
        assert!(stroke_polygon(a, a, e, n).is_empty());
        assert_eq!(draw_dynamic_bezier(&mut rec, a, a, e, n, Color::Black), Rect::invalid());
        assert!(rec.positions().is_empty());
    }
}

#[test]
fn degenerate_stroke_paints_nothing() {
    let pt = StrokePoint { pos: p(2560, 2560), width: 0 };
    assert!(stroke_polygon(pt, pt, pt, 10).len() <= 2);
    let mut rec = PixelRecorder::new();
    assert_eq!(draw_dynamic_bezier(&mut rec, pt, pt, pt, 10, Color::Black), Rect::invalid());
    assert!(rec.positions().is_empty());
}

#[test]
fn stroke_outline_offsets_each_side_by_half_the_width() {
    let s = SUBPIXEL as i32;
    let a = StrokePoint { pos: p(20 * s, 10 * s), width: 4 * s as u32 };
    let m = StrokePoint { pos: p(15 * s, 10 * s), width: 4 * s as u32 };
    let e = StrokePoint { pos: p(10 * s, 10 * s), width: 4 * s as u32 };
    let outline = stroke_polygon(a, m, e, 3);
    assert_eq!(outline, vec![p(20, 8), p(15, 8), p(10, 8), p(10, 12), p(15, 12), p(20, 12)]);
}
