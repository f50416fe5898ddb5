use vstd::prelude::*;
use crate::bezier::StrokePoint;
use crate::rect::Rect;
use crate::vector::IntVec2;

verus! {

/// A raw event as an input device delivers it: type, code and value.
#[derive(Debug, Clone, Copy, PartialEq, Eq, Structural)]
pub struct RawEvent {
    pub kind: u16,
    pub code: u16,
    pub value: i32,
}

pub const EV_SYN: u16 = 0;
pub const EV_KEY: u16 = 1;
pub const EV_ABS: u16 = 3;
pub const SYN_REPORT: u16 = 0;

pub const ABS_X: u16 = 0;
pub const ABS_Y: u16 = 1;
pub const ABS_PRESSURE: u16 = 24;
pub const ABS_DISTANCE: u16 = 25;
pub const ABS_TILT_X: u16 = 26;
pub const ABS_TILT_Y: u16 = 27;
pub const ABS_MT_SLOT: u16 = 47;
pub const ABS_MT_POSITION_X: u16 = 53;
pub const ABS_MT_POSITION_Y: u16 = 54;
pub const ABS_MT_TRACKING_ID: u16 = 57;

pub const BTN_TOOL_PEN: u16 = 320;
pub const BTN_TOOL_RUBBER: u16 = 321;
pub const BTN_TOUCH: u16 = 330;
pub const BTN_STYLUS: u16 = 331;
pub const BTN_STYLUS2: u16 = 332;

pub const KEY_HOME: u16 = 102;
pub const KEY_LEFT: u16 = 105;
pub const KEY_RIGHT: u16 = 106;
pub const KEY_POWER: u16 = 116;
pub const KEY_WAKEUP: u16 = 143;

/// The digitizer's tools and contact states.
#[derive(Debug, Clone, Copy, PartialEq, Eq, Structural)]
pub enum WacomPen {
    /// The pen tip is in range of the screen.
    ToolPen,
    /// The eraser end is in range.
    ToolRubber,
    /// The tip touches the screen.
    Touch,
    Stylus,
    Stylus2,
}

/// Normalized digitizer events.
#[derive(Debug, Clone, Copy, PartialEq, Eq, Structural)]
pub enum WacomEvent {
    InstrumentChange { pen: WacomPen, state: bool },
    Hover { position: IntVec2, distance: u16, tilt: IntVec2 },
    Draw { position: IntVec2, pressure: u16, tilt: IntVec2 },
}

/// Maps raw digitizer coordinates onto screen pixels: `x * screen_w / raw_w`,
/// `y * screen_h / raw_h`, each clamped to the raw range first.
#[derive(Debug, Clone, Copy, PartialEq, Eq, Structural)]
pub struct DigitizerGeometry {
    pub raw_w: u16,
    pub raw_h: u16,
    pub screen_w: u16,
    pub screen_h: u16,
}

pub open spec fn clamp_raw(v: int, hi: int) -> int {
    if v < 0 { 0 } else if v > hi { hi } else { v }
}

pub open spec fn scale(v: int, raw: int, screen: int) -> int {
    if raw == 0 { 0 } else { clamp_raw(v, raw) * screen / raw }
}

fn scale_coord(v: i32, raw: u16, screen: u16) -> (r: i32)
    ensures
        r == scale(v as int, raw as int, screen as int),
        0 <= r <= screen,
{
    if raw == 0 {
        return 0;
    }
    let c: i64 = if v < 0 { 0 } else if v > raw as i32 { raw as i64 } else { v as i64 };
    proof {
        assert(c * screen <= raw * screen) by (nonlinear_arith) requires 0 <= c <= raw, screen >= 0;
        assert(c * screen / (raw as int) <= screen) by (nonlinear_arith)
            requires c * screen <= raw * screen, raw > 0, screen >= 0, c >= 0;
        assert(0 <= c * screen) by (nonlinear_arith) requires c >= 0, screen >= 0;
        assert(c * screen <= 0x10000 * 0x10000) by (nonlinear_arith) requires 0 <= c <= 0x10000, 0 <= screen <= 0x10000;
    }
    (c * screen as i64 / raw as i64) as i32
}

/// The digitizer's state between raw events: the last reported axes and
/// whether the pen is in range and touching.
pub struct WacomState {
    pub geometry: DigitizerGeometry,
    pub x: i32,
    pub y: i32,
    pub pressure: u16,
    pub distance: u16,
    pub tilt_x: i32,
    pub tilt_y: i32,
    pub in_range: bool,
    pub touching: bool,
}

pub open spec fn to_u16(v: i32) -> u16 {
    if v < 0 { 0 } else if v > u16::MAX { u16::MAX } else { v as u16 }
}

fn clamp_u16(v: i32) -> (r: u16)
    ensures
        r == to_u16(v),
{
    if v < 0 { 0 } else if v > u16::MAX as i32 { u16::MAX } else { v as u16 }
}

/// The digitizer state with its changing fields given.
pub open spec fn with_wacom(
    s: WacomState,
    x: i32,
    y: i32,
    pressure: u16,
    distance: u16,
    tilt_x: i32,
    tilt_y: i32,
    in_range: bool,
    touching: bool,
) -> WacomState {
    WacomState { geometry: s.geometry, x, y, pressure, distance, tilt_x, tilt_y, in_range, touching }
}

/// What one raw event does to the digitizer state, and the event it yields.
/// A report yields a draw sample while touching, else a hover sample while in
/// range, and changes nothing. The tip key sets `touching`, the pen and eraser
/// keys set `in_range`, and each of those and the two stylus buttons yields an
/// instrument change. An axis event updates its own axis (pressure and
/// distance clamped to `u16`) and yields nothing. Anything else, unknown keys
/// and axes included, changes nothing and yields nothing.
pub open spec fn wacom_step(s: WacomState, ev: RawEvent) -> (WacomState, Option<WacomEvent>) {
    let tilt = IntVec2 { x: s.tilt_x, y: s.tilt_y };
    let on = ev.value != 0;
    if ev.kind == EV_SYN {
        if ev.code != SYN_REPORT {
            (s, None)
        } else if s.touching {
            (s, Some(WacomEvent::Draw { position: s.spec_position(), pressure: s.pressure, tilt }))
        } else if s.in_range {
            (s, Some(WacomEvent::Hover { position: s.spec_position(), distance: s.distance, tilt }))
        } else {
            (s, None)
        }
    } else if ev.kind == EV_KEY {
        if ev.code == BTN_TOUCH {
            (
                with_wacom(s, s.x, s.y, s.pressure, s.distance, s.tilt_x, s.tilt_y, s.in_range, on),
                Some(WacomEvent::InstrumentChange { pen: WacomPen::Touch, state: on }),
            )
        } else if ev.code == BTN_TOOL_PEN {
            (
                with_wacom(s, s.x, s.y, s.pressure, s.distance, s.tilt_x, s.tilt_y, on, s.touching),
                Some(WacomEvent::InstrumentChange { pen: WacomPen::ToolPen, state: on }),
            )
        } else if ev.code == BTN_TOOL_RUBBER {
            (
                with_wacom(s, s.x, s.y, s.pressure, s.distance, s.tilt_x, s.tilt_y, on, s.touching),
                Some(WacomEvent::InstrumentChange { pen: WacomPen::ToolRubber, state: on }),
            )
        } else if ev.code == BTN_STYLUS {
            (s, Some(WacomEvent::InstrumentChange { pen: WacomPen::Stylus, state: on }))
        } else if ev.code == BTN_STYLUS2 {
            (s, Some(WacomEvent::InstrumentChange { pen: WacomPen::Stylus2, state: on }))
        } else {
            (s, None)
        }
    } else if ev.kind == EV_ABS {
        let v = ev.value;
        let next = if ev.code == ABS_X {
            with_wacom(s, v, s.y, s.pressure, s.distance, s.tilt_x, s.tilt_y, s.in_range, s.touching)
        } else if ev.code == ABS_Y {
            with_wacom(s, s.x, v, s.pressure, s.distance, s.tilt_x, s.tilt_y, s.in_range, s.touching)
        } else if ev.code == ABS_PRESSURE {
            with_wacom(s, s.x, s.y, to_u16(v), s.distance, s.tilt_x, s.tilt_y, s.in_range, s.touching)
        } else if ev.code == ABS_DISTANCE {
            with_wacom(s, s.x, s.y, s.pressure, to_u16(v), s.tilt_x, s.tilt_y, s.in_range, s.touching)
        } else if ev.code == ABS_TILT_X {
            with_wacom(s, s.x, s.y, s.pressure, s.distance, v, s.tilt_y, s.in_range, s.touching)
        } else if ev.code == ABS_TILT_Y {
            with_wacom(s, s.x, s.y, s.pressure, s.distance, s.tilt_x, v, s.in_range, s.touching)
        } else {
            s
        };
        (next, None)
    } else {
        (s, None)
    }
}

impl WacomState {
    pub fn new(geometry: DigitizerGeometry) -> (r: WacomState)
        ensures
            r.geometry == geometry,
            !r.in_range,
            !r.touching,
    {
        WacomState {
            geometry,
            x: 0,
            y: 0,
            pressure: 0,
            distance: 0,
            tilt_x: 0,
            tilt_y: 0,
            in_range: false,
            touching: false,
        }
    }

    pub open spec fn spec_position(&self) -> IntVec2 {
        IntVec2 {
            x: scale(self.x as int, self.geometry.raw_w as int, self.geometry.screen_w as int) as i32,
            y: scale(self.y as int, self.geometry.raw_h as int, self.geometry.screen_h as int) as i32,
        }
    }

    /// The last reported position in screen pixels.
    pub fn position(&self) -> (r: IntVec2)
        ensures
            r == self.spec_position(),
    {
        IntVec2 {
            x: scale_coord(self.x, self.geometry.raw_w, self.geometry.screen_w),
            y: scale_coord(self.y, self.geometry.raw_h, self.geometry.screen_h),
        }
    }

    /// Feeds one raw event. Axis updates only change the state; a tool or
    /// contact key yields an instrument change; a report yields a draw sample
    /// while touching, or a hover sample while in range but not touching.
    pub fn decode(&mut self, ev: RawEvent) -> (r: Option<WacomEvent>)
        ensures
            (*final(self), r) == wacom_step(*old(self), ev),
    {
        if ev.kind == EV_SYN {
            if ev.code != SYN_REPORT {
                return None;
            }
            let tilt = IntVec2 { x: self.tilt_x, y: self.tilt_y };
            if self.touching {
                Some(WacomEvent::Draw { position: self.position(), pressure: self.pressure, tilt })
            } else if self.in_range {
                Some(WacomEvent::Hover { position: self.position(), distance: self.distance, tilt })
            } else {
                None
            }
        } else if ev.kind == EV_KEY {
            let state = ev.value != 0;
            if ev.code == BTN_TOUCH {
                self.touching = state;
                Some(WacomEvent::InstrumentChange { pen: WacomPen::Touch, state })
            } else if ev.code == BTN_TOOL_PEN {
                self.in_range = state;
                Some(WacomEvent::InstrumentChange { pen: WacomPen::ToolPen, state })
            } else if ev.code == BTN_TOOL_RUBBER {
                self.in_range = state;
                Some(WacomEvent::InstrumentChange { pen: WacomPen::ToolRubber, state })
            } else if ev.code == BTN_STYLUS {
                Some(WacomEvent::InstrumentChange { pen: WacomPen::Stylus, state })
            } else if ev.code == BTN_STYLUS2 {
                Some(WacomEvent::InstrumentChange { pen: WacomPen::Stylus2, state })
            } else {
                None
            }
        } else if ev.kind == EV_ABS {
            if ev.code == ABS_X {
                self.x = ev.value;
            } else if ev.code == ABS_Y {
                self.y = ev.value;
            } else if ev.code == ABS_PRESSURE {
                self.pressure = clamp_u16(ev.value);
            } else if ev.code == ABS_DISTANCE {
                self.distance = clamp_u16(ev.value);
            } else if ev.code == ABS_TILT_X {
                self.tilt_x = ev.value;
            } else if ev.code == ABS_TILT_Y {
                self.tilt_y = ev.value;
            }
            None
        } else {
            None
        }
    }
}

/// Normalized touchscreen events.
#[derive(Debug, Clone, Copy, PartialEq, Eq, Structural)]
pub enum MultitouchEvent {
    /// A contact point moved or appeared: the gesture it belongs to, its finger
    /// slot and its position.
    Touch { gesture_seq: u16, finger_id: i32, position: IntVec2 },
    /// A finger left the screen.
    Unpress { finger_id: i32 },
}

/// The touchscreen's state between raw events.
pub struct MultitouchState {
    pub slot: i32,
    pub x: i32,
    pub y: i32,
    pub moved: bool,
    pub gesture_seq: u16,
    pub fingers_down: u32,
}

/// The touchscreen state with one field replaced.
pub open spec fn with_touch(
    s: MultitouchState,
    slot: i32,
    x: i32,
    y: i32,
    moved: bool,
    gesture_seq: u16,
    fingers_down: u32,
) -> MultitouchState {
    MultitouchState { slot, x, y, moved, gesture_seq, fingers_down }
}

/// What one raw event does to the touchscreen state, and the event it yields.
/// A report after movement yields a contact update and clears the movement
/// mark; slot and position axes update the state; a released tracking id
/// lifts one finger (never below none) and yields a lift; a new tracking id
/// adds a finger (saturating), starting a new gesture (wrapping) when none was
/// down. Anything else changes nothing.
pub open spec fn touch_step(s: MultitouchState, ev: RawEvent) -> (MultitouchState, Option<MultitouchEvent>) {
    if ev.kind == EV_SYN && ev.code == SYN_REPORT {
        if s.moved {
            (
                with_touch(s, s.slot, s.x, s.y, false, s.gesture_seq, s.fingers_down),
                Some(MultitouchEvent::Touch { gesture_seq: s.gesture_seq, finger_id: s.slot, position: IntVec2 { x: s.x, y: s.y } }),
            )
        } else {
            (s, None)
        }
    } else if ev.kind != EV_ABS {
        (s, None)
    } else if ev.code == ABS_MT_SLOT {
        (with_touch(s, ev.value, s.x, s.y, s.moved, s.gesture_seq, s.fingers_down), None)
    } else if ev.code == ABS_MT_POSITION_X {
        (with_touch(s, s.slot, ev.value, s.y, true, s.gesture_seq, s.fingers_down), None)
    } else if ev.code == ABS_MT_POSITION_Y {
        (with_touch(s, s.slot, s.x, ev.value, true, s.gesture_seq, s.fingers_down), None)
    } else if ev.code == ABS_MT_TRACKING_ID {
        if ev.value == -1 {
            (
                with_touch(
                    s,
                    s.slot,
                    s.x,
                    s.y,
                    s.moved,
                    s.gesture_seq,
                    if s.fingers_down > 0 { (s.fingers_down - 1) as u32 } else { 0 },
                ),
                Some(MultitouchEvent::Unpress { finger_id: s.slot }),
            )
        } else {
            let seq = if s.fingers_down == 0 {
                if s.gesture_seq == u16::MAX { 0 } else { (s.gesture_seq + 1) as u16 }
            } else {
                s.gesture_seq
            };
            let down = if s.fingers_down < u32::MAX { (s.fingers_down + 1) as u32 } else { s.fingers_down };
            (with_touch(s, s.slot, s.x, s.y, s.moved, seq, down), None)
        }
    } else {
        (s, None)
    }
}

impl MultitouchState {
    pub fn new() -> (r: MultitouchState)
        ensures
            r.fingers_down == 0,
            r.gesture_seq == 0,
            !r.moved,
    {
        MultitouchState { slot: 0, x: 0, y: 0, moved: false, gesture_seq: 0, fingers_down: 0 }
    }

    /// Feeds one raw event. A report after movement yields a contact update for
    /// the current slot; a released tracking id yields a lift. A new contact
    /// while no finger is down starts a new gesture.
    pub fn decode(&mut self, ev: RawEvent) -> (r: Option<MultitouchEvent>)
        ensures
            (*final(self), r) == touch_step(*old(self), ev),
    {
        if ev.kind == EV_SYN && ev.code == SYN_REPORT {
            if self.moved {
                self.moved = false;
                return Some(
                    MultitouchEvent::Touch {
                        gesture_seq: self.gesture_seq,
                        finger_id: self.slot,
                        position: IntVec2 { x: self.x, y: self.y },
                    },
                );
            }
            return None;
        }
        if ev.kind != EV_ABS {
            return None;
        }
        if ev.code == ABS_MT_SLOT {
            self.slot = ev.value;
            None
        } else if ev.code == ABS_MT_POSITION_X {
            self.x = ev.value;
            self.moved = true;
            None
        } else if ev.code == ABS_MT_POSITION_Y {
            self.y = ev.value;
            self.moved = true;
            None
        } else if ev.code == ABS_MT_TRACKING_ID {
            if ev.value == -1 {
                if self.fingers_down > 0 {
                    self.fingers_down = self.fingers_down - 1;
                }
                Some(MultitouchEvent::Unpress { finger_id: self.slot })
            } else {
                if self.fingers_down == 0 {
                    self.gesture_seq = if self.gesture_seq == u16::MAX { 0 } else { self.gesture_seq + 1 };
                }
                if self.fingers_down < u32::MAX {
                    self.fingers_down = self.fingers_down + 1;
                }
                None
            }
        } else {
            None
        }
    }
}

/// The physical buttons.
#[derive(Debug, Clone, Copy, PartialEq, Eq, Structural)]
pub enum PhysicalButton {
    Left,
    Middle,
    Right,
    Power,
    Wakeup,
}

/// Normalized button events.
#[derive(Debug, Clone, Copy, PartialEq, Eq, Structural)]
pub enum GPIOEvent {
    Press { button: PhysicalButton },
    Unpress { button: PhysicalButton },
}

pub open spec fn button_of(code: u16) -> Option<PhysicalButton> {
    if code == KEY_LEFT {
        Some(PhysicalButton::Left)
    } else if code == KEY_HOME {
        Some(PhysicalButton::Middle)
    } else if code == KEY_RIGHT {
        Some(PhysicalButton::Right)
    } else if code == KEY_POWER {
        Some(PhysicalButton::Power)
    } else if code == KEY_WAKEUP {
        Some(PhysicalButton::Wakeup)
    } else {
        None
    }
}

/// Maps a raw key event of the button device to a press or release; other
/// events, and keys of no known button, map to nothing. Releases are emitted
/// like presses: what to ignore is the consumer's choice.
pub fn decode_button(ev: RawEvent) -> (r: Option<GPIOEvent>)
    ensures
        ev.kind != EV_KEY ==> r is None,
        ev.kind == EV_KEY ==> r == (match button_of(ev.code) {
            None => None,
            Some(b) => Some(if ev.value != 0 { GPIOEvent::Press { button: b } } else { GPIOEvent::Unpress { button: b } }),
        }),
{
    if ev.kind != EV_KEY {
        return None;
    }
    let button = if ev.code == KEY_LEFT {
        PhysicalButton::Left
    } else if ev.code == KEY_HOME {
        PhysicalButton::Middle
    } else if ev.code == KEY_RIGHT {
        PhysicalButton::Right
    } else if ev.code == KEY_POWER {
        PhysicalButton::Power
    } else if ev.code == KEY_WAKEUP {
        PhysicalButton::Wakeup
    } else {
        return None;
    };
    if ev.value != 0 {
        Some(GPIOEvent::Press { button })
    } else {
        Some(GPIOEvent::Unpress { button })
    }
}

/// Any normalized event, tagged by the device class it came from.
#[derive(Debug, Clone, Copy, PartialEq, Eq, Structural)]
pub enum InputEvent {
    WacomEvent { event: WacomEvent },
    MultitouchEvent { event: MultitouchEvent },
    GPIO { event: GPIOEvent },
    Unknown,
}

} // verus!
