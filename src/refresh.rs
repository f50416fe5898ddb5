use vstd::prelude::*;
use crate::rect::Rect;

verus! {

/// Update scope of a refresh request.
#[derive(Debug, Clone, Copy, PartialEq, Eq, Structural)]
pub enum UpdateMode {
    Partial,
    Full,
}

/// Waveform profiles of the panel controller.
#[derive(Debug, Clone, Copy, PartialEq, Eq, Structural)]
pub enum Waveform {
    Init,
    Du,
    Gc16,
    Gc16Fast,
    A2,
    Gl16,
    Gl16Fast,
    Du4,
    Reagl,
    Reagld,
    Gl4,
    Gl16Inv,
    Auto,
}

/// Temperature compensation modes.
#[derive(Debug, Clone, Copy, PartialEq, Eq, Structural)]
pub enum DisplayTemp {
    Ambient,
    Papyrus,
    RemarkableDraw,
    Max,
}

/// How the caller wants a refresh issued.
#[derive(Debug, Clone, Copy, PartialEq, Eq, Structural)]
pub enum PartialRefreshMode {
    /// Issue the request and carry on.
    Async,
    /// Issue the request and block until the panel reports its marker complete.
    Wait,
    /// Plan the request without issuing it.
    DryRun,
}

impl UpdateMode {
    pub open spec fn spec_code(self) -> u32 {
        match self {
            UpdateMode::Partial => 0,
            UpdateMode::Full => 1,
        }
    }

    pub fn code(&self) -> (r: u32)
        ensures
            r == self.spec_code(),
    {
        match self {
            UpdateMode::Partial => 0,
            UpdateMode::Full => 1,
        }
    }
}

impl Waveform {
    pub open spec fn spec_code(self) -> u32 {
        match self {
            Waveform::Init => 0,
            Waveform::Du => 1,
            Waveform::Gc16 => 2,
            Waveform::Gc16Fast => 3,
            Waveform::A2 => 4,
            Waveform::Gl16 => 5,
            Waveform::Gl16Fast => 6,
            Waveform::Du4 => 7,
            Waveform::Reagl => 8,
            Waveform::Reagld => 9,
            Waveform::Gl4 => 10,
            Waveform::Gl16Inv => 11,
            Waveform::Auto => 257,
        }
    }

    /// The controller's code for this waveform.
    pub fn code(&self) -> (r: u32)
        ensures
            r == self.spec_code(),
    {
        match self {
            Waveform::Init => 0,
            Waveform::Du => 1,
            Waveform::Gc16 => 2,
            Waveform::Gc16Fast => 3,
            Waveform::A2 => 4,
            Waveform::Gl16 => 5,
            Waveform::Gl16Fast => 6,
            Waveform::Du4 => 7,
            Waveform::Reagl => 8,
            Waveform::Reagld => 9,
            Waveform::Gl4 => 10,
            Waveform::Gl16Inv => 11,
            Waveform::Auto => 257,
        }
    }
}

impl DisplayTemp {
    pub open spec fn spec_code(self) -> i32 {
        match self {
            DisplayTemp::Ambient => 0x1000,
            DisplayTemp::Papyrus => 0x1001,
            DisplayTemp::RemarkableDraw => 0x0018,
            DisplayTemp::Max => 0xFFFF,
        }
    }

    /// The controller's code for this temperature mode.
    pub fn code(&self) -> (r: i32)
        ensures
            r == self.spec_code(),
    {
        match self {
            DisplayTemp::Ambient => 0x1000,
            DisplayTemp::Papyrus => 0x1001,
            DisplayTemp::RemarkableDraw => 0x0018,
            DisplayTemp::Max => 0xFFFF,
        }
    }
}

/// Dither flags that pass pixels through unchanged.
pub const DITHER_PASSTHROUGH: u32 = 0;

/// One hardware update request, ready to hand to the panel controller.
#[derive(Debug, Clone, Copy, PartialEq, Eq, Structural)]
pub struct UpdateRequest {
    pub rect: Rect,
    pub update_mode: u32,
    pub waveform_mode: u32,
    pub temp: i32,
    pub dither_mode: u32,
    pub quant_bit: i32,
    pub marker: u32,
}

/// What to do after a full-surface clear has been issued.
#[derive(Debug, Clone, Copy, PartialEq, Eq, Structural)]
pub enum Settle {
    /// Block until the request's marker completes.
    WaitForMarker(u32),
    /// Sleep this many milliseconds: deep waveforms do not report their marker.
    SleepMillis(u64),
}

/// How long a deep clear is given to settle.
pub const DEEP_CLEAR_SETTLE_MILLIS: u64 = 150;

/// Plans refresh requests: clips them to the screen, hands out markers, and
/// remembers the last refreshed rectangle so that requests it already covers
/// can be skipped.
pub struct RefreshController {
    pub xres: u32,
    pub yres: u32,
    pub next_marker: u32,
    pub last_refreshed: Rect,
}

/// `rect` clipped to an `xres` by `yres` screen, or `None` when it is the
/// invalid rectangle or starts off the screen.
pub open spec fn clip_to_screen(rect: Rect, xres: u32, yres: u32) -> Option<Rect> {
    if rect.is_invalid() || rect.left >= xres || rect.top >= yres {
        None
    } else {
        Some(
            Rect {
                top: rect.top,
                left: rect.left,
                width: if rect.right() > xres { (xres - rect.left) as u32 } else { rect.width },
                height: if rect.bottom() > yres { (yres - rect.top) as u32 } else { rect.height },
            },
        )
    }
}

/// The marker after `m`, wrapping.
pub open spec fn next_marker(m: u32) -> u32 {
    if m == u32::MAX { 0 } else { (m + 1) as u32 }
}

impl RefreshController {
    pub fn new(xres: u32, yres: u32) -> (r: RefreshController)
        ensures
            r.xres == xres,
            r.yres == yres,
            r.next_marker == 0,
            r.last_refreshed.is_invalid(),
    {
        RefreshController { xres, yres, next_marker: 0, last_refreshed: Rect::invalid() }
    }

    /// Clips `rect` to the screen.
    pub fn clip(&self, rect: Rect) -> (r: Option<Rect>)
        ensures
            r == clip_to_screen(rect, self.xres, self.yres),
    {
        if rect.is_invalid_rect() || rect.left >= self.xres || rect.top >= self.yres {
            return None;
        }
        let width = if rect.left as u64 + rect.width as u64 > self.xres as u64 {
            self.xres - rect.left
        } else {
            rect.width
        };
        let height = if rect.top as u64 + rect.height as u64 > self.yres as u64 {
            self.yres - rect.top
        } else {
            rect.height
        };
        Some(Rect { top: rect.top, left: rect.left, width, height })
    }

    /// Plans a partial refresh of `rect`: `None` when nothing of it is on the
    /// screen; else the request, carrying a fresh marker.
    pub fn partial_refresh(
        &mut self,
        rect: Rect,
        waveform: Waveform,
        temp: DisplayTemp,
        dither_mode: u32,
        quant_bit: i32,
        force_full: bool,
    ) -> (r: Option<UpdateRequest>)
        ensures
            r is None <==> clip_to_screen(rect, old(self).xres, old(self).yres) is None,
            r is None ==> *final(self) == *old(self),
            r matches Some(q) ==> {
                &&& Some(q.rect) == clip_to_screen(rect, old(self).xres, old(self).yres)
                &&& q.update_mode == (if force_full { UpdateMode::Full } else { UpdateMode::Partial }).spec_code()
                &&& q.waveform_mode == waveform.spec_code()
                &&& q.temp == temp.spec_code()
                &&& q.dither_mode == dither_mode
                &&& q.quant_bit == quant_bit
                &&& q.marker == old(self).next_marker
                &&& final(self).next_marker == next_marker(old(self).next_marker)
                &&& final(self).last_refreshed == q.rect
                &&& final(self).xres == old(self).xres
                &&& final(self).yres == old(self).yres
            },
    {
        match self.clip(rect) {
            None => None,
            Some(clipped) => {
                let marker = self.next_marker;
                self.next_marker = if marker == u32::MAX { 0 } else { marker + 1 };
                self.last_refreshed = clipped;
                let mode = if force_full { UpdateMode::Full } else { UpdateMode::Partial };
                Some(
                    UpdateRequest {
                        rect: clipped,
                        update_mode: mode.code(),
                        waveform_mode: waveform.code(),
                        temp: temp.code(),
                        dither_mode,
                        quant_bit,
                        marker,
                    },
                )
            },
        }
    }

    /// Like `partial_refresh`, but plans nothing when `rect` lies wholly within
    /// the last refreshed rectangle.
    pub fn refresh_if_uncovered(
        &mut self,
        rect: Rect,
        waveform: Waveform,
        temp: DisplayTemp,
        dither_mode: u32,
        quant_bit: i32,
    ) -> (r: Option<UpdateRequest>)
        ensures
            old(self).last_refreshed.encloses(rect) ==> r is None && *final(self) == *old(self),
            !old(self).last_refreshed.encloses(rect) ==> (r is None <==> clip_to_screen(rect, old(self).xres, old(self).yres) is None),
            r is None ==> *final(self) == *old(self),
            r matches Some(q) ==> q.marker == old(self).next_marker && final(self).last_refreshed == q.rect
                && final(self).next_marker == next_marker(old(self).next_marker)
                && final(self).xres == old(self).xres && final(self).yres == old(self).yres
                && Some(q.rect) == clip_to_screen(rect, old(self).xres, old(self).yres)
                && q.waveform_mode == waveform.spec_code() && q.temp == temp.spec_code()
                && q.dither_mode == dither_mode && q.quant_bit == quant_bit
                && q.update_mode == UpdateMode::Partial.spec_code(),
    {
        if self.last_refreshed.contains_rect(&rect) {
            return None;
        }
        self.partial_refresh(rect, waveform, temp, dither_mode, quant_bit, false)
    }

    /// Plans the refresh after a full-surface clear: always the full update
    /// with the initialising waveform. A deep clear is left to settle for a
    /// fixed time; a shallow one waits for its marker.
    pub fn clear_refresh(&mut self, deep: bool) -> (r: Option<(UpdateRequest, Settle)>)
        ensures
            r is None <==> (old(self).xres == 0 || old(self).yres == 0),
            r is None ==> *final(self) == *old(self),
            r matches Some((q, settle)) ==> {
                &&& final(self).next_marker == next_marker(old(self).next_marker)
                &&& final(self).last_refreshed == q.rect
                &&& final(self).xres == old(self).xres
                &&& final(self).yres == old(self).yres
                &&& q.rect == (Rect { top: 0, left: 0, width: old(self).xres, height: old(self).yres })
                &&& q.update_mode == UpdateMode::Full.spec_code()
                &&& q.waveform_mode == Waveform::Init.spec_code()
                &&& q.temp == DisplayTemp::Ambient.spec_code()
                &&& q.dither_mode == DITHER_PASSTHROUGH
                &&& q.quant_bit == 0
                &&& q.marker == old(self).next_marker
                &&& settle == (if deep { Settle::SleepMillis(DEEP_CLEAR_SETTLE_MILLIS) } else { Settle::WaitForMarker(q.marker) })
            },
    {
        let full = Rect { top: 0, left: 0, width: self.xres, height: self.yres };
        match self.partial_refresh(full, Waveform::Init, DisplayTemp::Ambient, DITHER_PASSTHROUGH, 0, true) {
            None => None,
            Some(q) => {
                let settle = if deep { Settle::SleepMillis(DEEP_CLEAR_SETTLE_MILLIS) } else { Settle::WaitForMarker(q.marker) };
                Some((q, settle))
            },
        }
    }
}

/// Whether a drawing element asks for a refresh after it is drawn, and whether
/// to wait for that refresh to complete.
#[derive(Debug, Clone, Copy, PartialEq, Eq, Structural)]
pub enum UIConstraintRefresh {
    NoRefresh,
    Refresh,
    RefreshAndWait,
}

impl UIConstraintRefresh {
    pub fn wants_refresh(&self) -> (r: bool)
        ensures
            r == !(*self == UIConstraintRefresh::NoRefresh),
    {
        match self {
            UIConstraintRefresh::NoRefresh => false,
            _ => true,
        }
    }

    pub fn wants_wait(&self) -> (r: bool)
        ensures
            r == (*self == UIConstraintRefresh::RefreshAndWait),
    {
        match self {
            UIConstraintRefresh::RefreshAndWait => true,
            _ => false,
        }
    }
}

} // verus!
