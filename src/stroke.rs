use vstd::prelude::*;
use crate::bezier::{StrokePoint, SUBPIXEL};
use crate::input::{WacomEvent, WacomPen};
use crate::rect::Rect;
use crate::vector::IntVec2;

verus! {

/// One pen sample: screen position and pressure.
#[derive(Debug, Clone, Copy, PartialEq, Eq, Structural)]
pub struct Sample {
    pub position: IntVec2,
    pub pressure: u16,
}

/// A piece of ink to draw: a variable-width quadratic curve.
#[derive(Debug, Clone, Copy, PartialEq, Eq, Structural)]
pub struct StrokeSegment {
    pub start: StrokePoint,
    pub ctrl: StrokePoint,
    pub end: StrokePoint,
}

/// Largest brush size a tracker accepts.
pub const BRUSH_LIMIT: u32 = 1024;

/// Largest screen coordinate (exclusive) of a drawing region.
pub const REGION_LIMIT: u32 = 0x10000;

/// Stroke radius of a sample in sub-pixel units: `brush * pressure / 2048`
/// pixels, halved.
pub open spec fn radius(brush: int, pressure: int) -> int {
    brush * pressure * SUBPIXEL / 4096
}

/// The midpoint of two screen positions, in sub-pixel units.
pub open spec fn midpoint(a: IntVec2, b: IntVec2) -> IntVec2 {
    IntVec2 { x: ((a.x + b.x) * (SUBPIXEL / 2)) as i32, y: ((a.y + b.y) * (SUBPIXEL / 2)) as i32 }
}

/// The curve through three consecutive samples, oldest first: from the
/// midpoint of the newer two, through the middle one, to the midpoint of the
/// older two, with widths from the neighbouring radii.
pub open spec fn segment_of(brush: int, p0: Sample, p1: Sample, p2: Sample) -> StrokeSegment {
    let r0 = radius(brush, p0.pressure as int);
    let r1 = radius(brush, p1.pressure as int);
    let r2 = radius(brush, p2.pressure as int);
    StrokeSegment {
        start: StrokePoint { pos: midpoint(p2.position, p1.position), width: (r2 + r1) as u32 },
        ctrl: StrokePoint {
            pos: IntVec2 { x: (p1.position.x * SUBPIXEL) as i32, y: (p1.position.y * SUBPIXEL) as i32 },
            width: (2 * r1) as u32,
        },
        end: StrokePoint { pos: midpoint(p1.position, p0.position), width: (r1 + r0) as u32 },
    }
}

/// What one digitizer event does to the stroke history `h`, and the segment it
/// yields. A draw sample outside `region`, a lift of the tip, or a hover more
/// than one unit away starts afresh; a draw sample inside is appended, and once
/// three are held the oldest leaves and the three make a segment.
pub open spec fn stroke_step(region: Rect, brush: int, h: Seq<Sample>, ev: WacomEvent) -> (Seq<Sample>, Option<StrokeSegment>) {
    match ev {
        WacomEvent::Draw { position, pressure, tilt } => {
            if !region.has_point(position.x as int, position.y as int) {
                (Seq::empty(), None)
            } else {
                let h1 = h.push(Sample { position, pressure });
                if h1.len() >= 3 {
                    (h1.drop_first(), Some(segment_of(brush, h1[0], h1[1], h1[2])))
                } else {
                    (h1, None)
                }
            }
        },
        WacomEvent::InstrumentChange { pen, state } => {
            if pen == WacomPen::Touch && !state {
                (Seq::empty(), None)
            } else {
                (h, None)
            }
        },
        WacomEvent::Hover { position, distance, tilt } => {
            if distance > 1 {
                (Seq::empty(), None)
            } else {
                (h, None)
            }
        },
    }
}

/// The segments that a run of events yields from history `h`, in order.
pub open spec fn stroke_run(region: Rect, brush: int, h: Seq<Sample>, evs: Seq<WacomEvent>) -> Seq<Option<StrokeSegment>>
    decreases evs.len(),
{
    if evs.len() == 0 {
        Seq::empty()
    } else {
        let (h1, out) = stroke_step(region, brush, h, evs[0]);
        seq![out] + stroke_run(region, brush, h1, evs.drop_first())
    }
}

/// Lifting the tip separates strokes: whatever history came before the lift,
/// the segments yielded from the lift on are the same, so nothing drawn after
/// re-contact connects to a sample from before the lift.
pub proof fn lemma_lift_separates_strokes(
    region: Rect,
    brush: int,
    h1: Seq<Sample>,
    h2: Seq<Sample>,
    evs: Seq<WacomEvent>,
)
    ensures
        stroke_step(region, brush, h1, WacomEvent::InstrumentChange { pen: WacomPen::Touch, state: false }).0.len() == 0,
        stroke_run(
            region,
            brush,
            h1,
            seq![WacomEvent::InstrumentChange { pen: WacomPen::Touch, state: false }] + evs,
        ) == stroke_run(
            region,
            brush,
            h2,
            seq![WacomEvent::InstrumentChange { pen: WacomPen::Touch, state: false }] + evs,
        ),
{
    let lift = WacomEvent::InstrumentChange { pen: WacomPen::Touch, state: false };
    assert((seq![lift] + evs).drop_first() =~= evs);
}

/// Turns digitizer samples into stroke segments, keeping the last two samples
/// of the current stroke.
pub struct StrokeTracker {
    history: Vec<Sample>,
    region: Rect,
    brush: u32,
}

impl StrokeTracker {
    pub closed spec fn history_view(&self) -> Seq<Sample> {
        self.history@
    }

    pub closed spec fn spec_region(&self) -> Rect {
        self.region
    }

    pub closed spec fn spec_brush(&self) -> u32 {
        self.brush
    }

    pub fn region(&self) -> (r: Rect)
        ensures
            r == self.spec_region(),
    {
        self.region
    }

    pub fn brush(&self) -> (r: u32)
        ensures
            r == self.spec_brush(),
    {
        self.brush
    }

    pub closed spec fn wf(&self) -> bool {
        &&& self.history@.len() <= 2
        &&& forall|i: int| 0 <= i < self.history@.len() ==> self.region.has_point(
            #[trigger] self.history@[i].position.x as int,
            self.history@[i].position.y as int,
        )
        &&& self.region.right() <= REGION_LIMIT
        &&& self.region.bottom() <= REGION_LIMIT
        &&& self.brush <= BRUSH_LIMIT
    }

    /// A tracker for strokes inside `region`, with the given brush size.
    pub fn new(region: Rect, brush: u32) -> (r: Option<StrokeTracker>)
        ensures
            r is Some <==> (region.right() <= REGION_LIMIT && region.bottom() <= REGION_LIMIT && brush
                <= BRUSH_LIMIT),
            r matches Some(t) ==> t.wf() && t.history_view().len() == 0 && t.spec_region() == region && t.spec_brush() == brush,
    {
        if region.left as u64 + region.width as u64 > REGION_LIMIT as u64 || region.top as u64
            + region.height as u64 > REGION_LIMIT as u64 || brush > BRUSH_LIMIT {
            return None;
        }
        Some(StrokeTracker { history: Vec::new(), region, brush })
    }

    /// Forgets the current stroke.
    pub fn clear(&mut self)
        requires
            old(self).wf(),
        ensures
            final(self).wf(),
            final(self).history_view().len() == 0,
            final(self).spec_region() == old(self).spec_region(),
            final(self).spec_brush() == old(self).spec_brush(),
    {
        self.history.clear();
    }

    /// Feeds one digitizer event; returns the segment to draw, if any.
    pub fn handle(&mut self, ev: WacomEvent) -> (r: Option<StrokeSegment>)
        requires
            old(self).wf(),
        ensures
            final(self).wf(),
            final(self).spec_region() == old(self).spec_region(),
            final(self).spec_brush() == old(self).spec_brush(),
            (final(self).history_view(), r) == stroke_step(
                old(self).spec_region(),
                old(self).spec_brush() as int,
                old(self).history_view(),
                ev,
            ),
    {
        match ev {
            WacomEvent::Draw { position, pressure, tilt } => {
                if !self.region.contains_point(position.x, position.y) {
                    self.history.clear();
                    return None;
                }
                self.history.push(Sample { position, pressure });
                if self.history.len() >= 3 {
                    let p0 = self.history[0];
                    let p1 = self.history[1];
                    let p2 = self.history[2];
                    let ghost h1 = self.history@;
                    assert(self.region.has_point(h1[0].position.x as int, h1[0].position.y as int));
                    assert(self.region.has_point(h1[1].position.x as int, h1[1].position.y as int));
                    self.history.remove(0);
                    proof {
                        assert(self.history@ =~= h1.drop_first());
                    }
                    Some(self.segment(p0, p1, p2))
                } else {
                    None
                }
            },
            WacomEvent::InstrumentChange { pen, state } => {
                if pen == WacomPen::Touch && !state {
                    self.history.clear();
                }
                None
            },
            WacomEvent::Hover { position, distance, tilt } => {
                if distance > 1 {
                    self.history.clear();
                }
                None
            },
        }
    }

    fn segment(&self, p0: Sample, p1: Sample, p2: Sample) -> (s: StrokeSegment)
        requires
            self.wf(),
            self.region.has_point(p0.position.x as int, p0.position.y as int),
            self.region.has_point(p1.position.x as int, p1.position.y as int),
            self.region.has_point(p2.position.x as int, p2.position.y as int),
        ensures
            s == segment_of(self.brush as int, p0, p1, p2),
    {
        let b = self.brush as i64;
        proof {
            assert(b * p0.pressure <= BRUSH_LIMIT * 0xffff) by (nonlinear_arith) requires 0 <= b <= BRUSH_LIMIT, p0.pressure <= 0xffff;
            assert(b * p1.pressure <= BRUSH_LIMIT * 0xffff) by (nonlinear_arith) requires 0 <= b <= BRUSH_LIMIT, p1.pressure <= 0xffff;
            assert(b * p2.pressure <= BRUSH_LIMIT * 0xffff) by (nonlinear_arith) requires 0 <= b <= BRUSH_LIMIT, p2.pressure <= 0xffff;
            assert(b * p0.pressure >= 0 && b * p1.pressure >= 0 && b * p2.pressure >= 0) by (nonlinear_arith)
                requires b >= 0;
        }
        let r0 = b * p0.pressure as i64 * SUBPIXEL / 4096;
        let r1 = b * p1.pressure as i64 * SUBPIXEL / 4096;
        let r2 = b * p2.pressure as i64 * SUBPIXEL / 4096;
        let half = SUBPIXEL / 2;
        let (x0, y0) = (p0.position.x as i64, p0.position.y as i64);
        let (x1, y1) = (p1.position.x as i64, p1.position.y as i64);
        let (x2, y2) = (p2.position.x as i64, p2.position.y as i64);
        StrokeSegment {
            start: StrokePoint {
                pos: IntVec2 { x: ((x2 + x1) * half) as i32, y: ((y2 + y1) * half) as i32 },
                width: (r2 + r1) as u32,
            },
            ctrl: StrokePoint { pos: IntVec2 { x: (x1 * SUBPIXEL) as i32, y: (y1 * SUBPIXEL) as i32 }, width: (2 * r1) as u32 },
            end: StrokePoint {
                pos: IntVec2 { x: ((x1 + x0) * half) as i32, y: ((y1 + y0) * half) as i32 },
                width: (r1 + r0) as u32,
            },
        }
    }
}

/// Every segment a well-formed tracker yields can be stroked: its points and
/// widths lie within the stroke limits.
pub proof fn lemma_segment_fits(region: Rect, brush: int, p0: Sample, p1: Sample, p2: Sample)
    requires
        region.right() <= REGION_LIMIT,
        region.bottom() <= REGION_LIMIT,
        0 <= brush <= BRUSH_LIMIT,
        region.has_point(p0.position.x as int, p0.position.y as int),
        region.has_point(p1.position.x as int, p1.position.y as int),
        region.has_point(p2.position.x as int, p2.position.y as int),
    ensures
        crate::bezier::stroke_fits(segment_of(brush, p0, p1, p2).start),
        crate::bezier::stroke_fits(segment_of(brush, p0, p1, p2).ctrl),
        crate::bezier::stroke_fits(segment_of(brush, p0, p1, p2).end),
{
    assert(brush * p0.pressure <= BRUSH_LIMIT * 0xffff) by (nonlinear_arith) requires 0 <= brush <= BRUSH_LIMIT, p0.pressure <= 0xffff;
    assert(brush * p1.pressure <= BRUSH_LIMIT * 0xffff) by (nonlinear_arith) requires 0 <= brush <= BRUSH_LIMIT, p1.pressure <= 0xffff;
    assert(brush * p2.pressure <= BRUSH_LIMIT * 0xffff) by (nonlinear_arith) requires 0 <= brush <= BRUSH_LIMIT, p2.pressure <= 0xffff;
    assert(brush * p0.pressure >= 0 && brush * p1.pressure >= 0 && brush * p2.pressure >= 0) by (nonlinear_arith)
        requires brush >= 0;
}

} // verus!
