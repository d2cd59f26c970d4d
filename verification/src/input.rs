//! Input mapping: turns the client's input events (normalized coordinates
//! over the displayed video) into injection commands for the desktop.
//!
//! Coordinate mapping, event resolution and edge deduplication live here;
//! the relay that keeps stroke and held-input state is in `relay`, and the
//! native injection backend stays with the application.

use vstd::prelude::*;
use crate::hid::{hid_to_scancode, hid_scancode};

verus! {

/// One input event as the client sends it.
#[derive(Clone, Copy, Debug, PartialEq, Eq, Structural)]
pub struct InputEvent {
    pub input_ver: u8,
    pub kind: u8,
    pub phase: u8,
    pub buttons: u8,
    pub event_id: u32,
    pub x_norm: u16,
    pub y_norm: u16,
    pub pressure_x1000: u16,
    pub scroll_dx: i16,
    pub scroll_dy: i16,
    pub keycode: u16,
    pub modifiers: u8,
    pub client_time_us: u64,
    pub tilt_x: i16,
    pub tilt_y: i16,
}

/// Desktop-space rectangle of the captured output: the target space for
/// absolute pointer mapping.
#[derive(Clone, Copy, Debug, PartialEq, Eq, Structural)]
pub struct CaptureGeometry {
    pub left: i32,
    pub top: i32,
    pub width: u32,
    pub height: u32,
}

/// The whole virtual screen (all monitors' bounding box); absolute pointer
/// coordinates are normalized 0..65535 over this rectangle.
#[derive(Clone, Copy, Debug, PartialEq, Eq, Structural)]
pub struct VirtualScreen {
    pub left: i32,
    pub top: i32,
    pub width: u32,
    pub height: u32,
}

/// Input kinds on the wire (`InputEvent.kind`).
pub const KIND_TOUCH: u8 = 0;
pub const KIND_PENCIL: u8 = 1;
pub const KIND_MOUSE_ABS: u8 = 2;
pub const KIND_SCROLL: u8 = 3;
pub const KIND_KEY: u8 = 4;
pub const KIND_TEXT: u8 = 5;
pub const KIND_HOVER: u8 = 6;

/// Phases (`InputEvent.phase`).
pub const PHASE_BEGAN: u8 = 0;
pub const PHASE_MOVED: u8 = 1;
pub const PHASE_ENDED: u8 = 2;
pub const PHASE_CANCELLED: u8 = 3;

/// A fully resolved injection command, ready for the native backend.
#[derive(Clone, Copy, Debug, PartialEq, Eq, Structural)]
pub enum Injection {
    /// Native pen coordinates are desktop pixels, not the 0..65535 space.
    Pen(PenSample),
    KeyDown { scan: u16, extended: bool },
    KeyUp { scan: u16, extended: bool },
    Unicode(u16),
    /// Absolute pointer move in virtual-screen normalized space (0..65535).
    MoveAbs { x: u16, y: u16 },
    LeftDown { x: u16, y: u16 },
    LeftUp { x: u16, y: u16 },
    RightDown { x: u16, y: u16 },
    RightUp { x: u16, y: u16 },
    MiddleDown { x: u16, y: u16 },
    MiddleUp { x: u16, y: u16 },
    /// Vertical wheel in wheel-delta units (positive = away from the user).
    Wheel { delta: i32 },
    /// Horizontal wheel.
    HWheel { delta: i32 },
}

#[derive(Clone, Copy, Debug, PartialEq, Eq, Structural)]
pub enum PenPhase {
    Down,
    Move,
    Up,
    Cancel,
    Hover,
    Leave,
}

#[derive(Clone, Copy, Debug, PartialEq, Eq, Structural)]
pub struct PenSample {
    pub phase: PenPhase,
    pub x: i32,
    pub y: i32,
    pub pressure: u32,
    pub tilt_x: i32,
    pub tilt_y: i32,
}

/// `span - 1`, saturating at zero.
pub open spec fn span_last(span: u32) -> int {
    if span == 0 { 0 } else { span - 1 }
}

/// The pixel that normalized coordinate `n` lands on along one axis.
pub open spec fn axis_pixel(n: u16, origin: i32, span: u32) -> int {
    origin + (n * span_last(span)) / 65_535
}

/// The axis's last pixel, and so every pixel of it, is a 32-bit signed
/// coordinate.
pub open spec fn axis_fits(origin: i32, span: u32) -> bool {
    origin + span_last(span) <= i32::MAX
}

/// Every pixel of the captured output is a 32-bit signed coordinate.
pub open spec fn geometry_fits(output: CaptureGeometry) -> bool {
    axis_fits(output.left, output.width) && axis_fits(output.top, output.height)
}

/// Where a desktop pixel lands in the 0..65535 space of one screen axis.
pub open spec fn abs_axis(value: i32, origin: i32, span: u32) -> int {
    let s: int = if span == 0 { 1 } else { span as int };
    let rel: int = if value - origin < 0 {
        0
    } else if value - origin > s - 1 {
        s - 1
    } else {
        value - origin
    };
    let d: int = if s - 1 < 1 { 1 } else { s - 1 };
    (rel * 65_535) / d
}

fn axis_to_pixel(n: u16, origin: i32, span: u32) -> (p: i32)
    requires
        axis_fits(origin, span),
    ensures
        p == axis_pixel(n, origin, span),
{
    let last: u64 = if span == 0 { 0 } else { (span - 1) as u64 };
    assert(n * last <= 65_535 * 0xffff_ffff) by (nonlinear_arith)
        requires n <= 65_535, 0 <= last <= 0xffff_ffff;
    let scaled: u64 = (n as u64) * last;
    assert(scaled <= 65_535 * last) by (nonlinear_arith)
        requires scaled == n * last, n <= 65_535, last >= 0;
    let q: u64 = scaled / 65_535;
    assert(q <= last) by (nonlinear_arith)
        requires q == scaled / 65_535, scaled <= 65_535 * last, last >= 0;
    let p: i64 = origin as i64 + q as i64;
    p as i32
}

/// Map a wire-normalized point (0..65535 over the displayed video, which the
/// client letterbox-corrects before sending) to a desktop pixel on the
/// captured output.
pub fn norm_to_output_pixel(x_norm: u16, y_norm: u16, output: CaptureGeometry) -> (p: (i32, i32))
    requires
        geometry_fits(output),
    ensures
        p.0 == axis_pixel(x_norm, output.left, output.width),
        p.1 == axis_pixel(y_norm, output.top, output.height),
{
    (axis_to_pixel(x_norm, output.left, output.width), axis_to_pixel(y_norm, output.top, output.height))
}

fn clamp_span(value: i32, origin: i32, span: u32) -> (a: u16)
    ensures
        a == abs_axis(value, origin, span),
{
    let s: i64 = if span == 0 { 1 } else { span as i64 };
    let diff: i64 = value as i64 - origin as i64;
    let rel: i64 = if diff < 0 {
        0
    } else if diff > s - 1 {
        s - 1
    } else {
        diff
    };
    let d: i64 = if s - 1 < 1 { 1 } else { s - 1 };
    assert(0 <= rel * 65_535 <= d * 65_535) by (nonlinear_arith)
        requires 0 <= rel <= d, d <= 0xffff_ffff;
    let q: i64 = (rel * 65_535) / d;
    assert(0 <= q <= 65_535) by (nonlinear_arith)
        requires q == (rel * 65_535) / (d as int), 0 <= rel <= d, d >= 1;
    q as u16
}

/// Map a desktop pixel to the absolute virtual-screen space (0..65535 across
/// the whole virtual desktop).
pub fn desktop_pixel_to_abs(x: i32, y: i32, screen: VirtualScreen) -> (a: (u16, u16))
    ensures
        a.0 == abs_axis(x, screen.left, screen.width),
        a.1 == abs_axis(y, screen.top, screen.height),
{
    (clamp_span(x, screen.left, screen.width), clamp_span(y, screen.top, screen.height))
}

/// One pixel of client scroll to wheel delta: 120 per tick over 40 pixels.
pub fn scroll_to_wheel(delta_px: i16) -> (d: i32)
    ensures
        d == delta_px * 3,
{
    delta_px as i32 * 3
}

/// Number of recent edge ids remembered. The client sends each press and
/// release twice for loss tolerance and the network reorders freely, so the
/// two copies of one edge routinely arrive with other edges between them.
pub const RECENT_EDGE_IDS: usize = 8;

/// Began, ended and cancelled events are edges; moves are not.
pub open spec fn is_edge(phase: u8) -> bool {
    phase == PHASE_BEGAN || phase == PHASE_ENDED || phase == PHASE_CANCELLED
}

/// Drops duplicate began/ended events while letting distinct events through.
#[derive(Debug)]
pub struct EventDeduper {
    recent: Vec<Option<u32>>,
    next: usize,
}

impl EventDeduper {
    /// The remembered edge ids, slot by slot.
    pub closed spec fn recent_ids(&self) -> Seq<Option<u32>> {
        self.recent@
    }

    /// The slot the next accepted edge overwrites.
    pub closed spec fn cursor(&self) -> usize {
        self.next
    }

    pub open spec fn wf(&self) -> bool {
        self.recent_ids().len() == RECENT_EDGE_IDS && self.cursor() < RECENT_EDGE_IDS
    }

    pub fn new() -> (d: Self)
        ensures
            d.wf(),
            d.cursor() == 0,
            d.recent_ids() == Seq::new(RECENT_EDGE_IDS as nat, |i: int| None::<u32>),
    {
        let d = EventDeduper { recent: vec![None, None, None, None, None, None, None, None], next: 0 };
        assert(d.recent@ =~= Seq::new(RECENT_EDGE_IDS as nat, |i: int| None::<u32>));
        d
    }

    /// True if the event should be processed. An edge whose id is among the
    /// remembered ones is a duplicate; an accepted edge takes the oldest slot.
    pub fn accept(&mut self, event: &InputEvent) -> (ok: bool)
        requires
            old(self).wf(),
        ensures
            final(self).wf(),
            !is_edge(event.phase) ==> ok && *final(self) == *old(self),
            is_edge(event.phase) ==> (ok <==> !old(self).recent_ids().contains(Some(event.event_id))),
            is_edge(event.phase) && !ok ==> *final(self) == *old(self),
            is_edge(event.phase) && ok ==> {
                &&& final(self).recent_ids() == old(self).recent_ids().update(
                    old(self).cursor() as int,
                    Some(event.event_id),
                )
                &&& final(self).cursor() == (old(self).cursor() + 1) % (RECENT_EDGE_IDS as int)
            },
    {
        if event.phase == PHASE_BEGAN || event.phase == PHASE_ENDED || event.phase == PHASE_CANCELLED {
            let mut i: usize = 0;
            while i < self.recent.len()
                invariant
                    self.wf(),
                    is_edge(event.phase),
                    *self == *old(self),
                    0 <= i <= self.recent@.len(),
                    forall|j: int| 0 <= j < i ==> self.recent@[j] != Some(event.event_id),
                decreases self.recent@.len() - i,
            {
                if self.recent[i] == Some(event.event_id) {
                    assert(self.recent@[i as int] == Some(event.event_id));
                    return false;
                }
                i = i + 1;
            }
            self.recent.set(self.next, Some(event.event_id));
            self.next = (self.next + 1) % RECENT_EDGE_IDS;
            true
        } else {
            true
        }
    }
}

impl Default for EventDeduper {
    fn default() -> (d: Self)
        ensures
            d.wf(),
            d.cursor() == 0,
            d.recent_ids() == Seq::new(RECENT_EDGE_IDS as nat, |i: int| None::<u32>),
    {
        EventDeduper::new()
    }
}

/// An edge that was just accepted is refused when its copy arrives next.
pub proof fn lemma_edge_copy_refused(recent: Seq<Option<u32>>, cursor: usize, id: u32)
    requires
        recent.len() == RECENT_EDGE_IDS,
        cursor < RECENT_EDGE_IDS,
        !recent.contains(Some(id)),
    ensures
        recent.update(cursor as int, Some(id)).contains(Some(id)),
{
    assert(recent.update(cursor as int, Some(id))[cursor as int] == Some(id));
}

/// The pen pressure reported for a contact: the client's 0..1000 scale,
/// clamped, onto the 0..1024 native scale with rounding.
pub open spec fn pen_pressure(p: u16) -> u32 {
    let c: int = if p > 1000 { 1000 } else { p as int };
    ((c * 1024 + 500) / 1000) as u32
}

pub open spec fn clamp_tilt(t: i16) -> i32 {
    if t < -90 { -90i32 } else if t > 90 { 90i32 } else { t as i32 }
}

/// The pen phase for a wire phase and contact state, if there is one.
pub open spec fn pen_phase_for(phase: u8, contact: bool) -> Option<PenPhase> {
    if contact {
        if phase == PHASE_BEGAN { Some(PenPhase::Down) }
        else if phase == PHASE_MOVED { Some(PenPhase::Move) }
        else if phase == PHASE_ENDED { Some(PenPhase::Up) }
        else if phase == PHASE_CANCELLED { Some(PenPhase::Cancel) }
        else { None }
    } else {
        if phase == PHASE_MOVED { Some(PenPhase::Hover) }
        else if phase == PHASE_ENDED || phase == PHASE_CANCELLED { Some(PenPhase::Leave) }
        else { None }
    }
}

/// The injections for one wire event, in order.
pub open spec fn resolve_spec(event: InputEvent, output: CaptureGeometry, screen: VirtualScreen) -> Seq<Injection> {
    let px = axis_pixel(event.x_norm, output.left, output.width);
    let py = axis_pixel(event.y_norm, output.top, output.height);
    let ax = abs_axis(px as i32, screen.left, screen.width) as u16;
    let ay = abs_axis(py as i32, screen.top, screen.height) as u16;
    if event.input_ver != 1 && !(event.input_ver == 2 && event.kind == KIND_PENCIL) {
        seq![]
    } else if event.kind == KIND_PENCIL {
        let contact = event.input_ver == 1 || event.buttons & 1 != 0;
        match pen_phase_for(event.phase, contact) {
            Some(phase) => seq![Injection::Pen(PenSample {
                phase,
                x: px as i32,
                y: py as i32,
                pressure: if phase == PenPhase::Down || phase == PenPhase::Move {
                    pen_pressure(event.pressure_x1000)
                } else {
                    0
                },
                tilt_x: clamp_tilt(event.tilt_x),
                tilt_y: clamp_tilt(event.tilt_y),
            })],
            None => seq![],
        }
    } else if event.kind == KIND_TOUCH || event.kind == KIND_MOUSE_ABS {
        let right = event.buttons & 2 != 0;
        let middle = event.buttons & 4 != 0;
        if event.phase == PHASE_BEGAN {
            seq![Injection::MoveAbs { x: ax, y: ay }, if middle {
                Injection::MiddleDown { x: ax, y: ay }
            } else if right {
                Injection::RightDown { x: ax, y: ay }
            } else {
                Injection::LeftDown { x: ax, y: ay }
            }]
        } else if event.phase == PHASE_MOVED {
            seq![Injection::MoveAbs { x: ax, y: ay }]
        } else if event.phase == PHASE_ENDED || event.phase == PHASE_CANCELLED {
            seq![Injection::MoveAbs { x: ax, y: ay }, if middle {
                Injection::MiddleUp { x: ax, y: ay }
            } else if right {
                Injection::RightUp { x: ax, y: ay }
            } else {
                Injection::LeftUp { x: ax, y: ay }
            }]
        } else {
            seq![]
        }
    } else if event.kind == KIND_HOVER {
        if event.phase == PHASE_MOVED { seq![Injection::MoveAbs { x: ax, y: ay }] } else { seq![] }
    } else if event.kind == KIND_KEY {
        match hid_scancode(event.keycode) {
            Some((scan, extended)) => {
                if event.phase == PHASE_BEGAN {
                    seq![Injection::KeyDown { scan, extended }]
                } else if event.phase == PHASE_ENDED || event.phase == PHASE_CANCELLED {
                    seq![Injection::KeyUp { scan, extended }]
                } else {
                    seq![]
                }
            },
            None => seq![],
        }
    } else if event.kind == KIND_TEXT {
        if event.phase == PHASE_BEGAN { seq![Injection::Unicode(event.keycode)] } else { seq![] }
    } else if event.kind == KIND_SCROLL {
        seq![Injection::MoveAbs { x: ax, y: ay }]
            + (if event.scroll_dy != 0 { seq![Injection::Wheel { delta: (event.scroll_dy * 3) as i32 }] } else { seq![] })
            + (if event.scroll_dx != 0 { seq![Injection::HWheel { delta: (event.scroll_dx * 3) as i32 }] } else { seq![] })
    } else {
        seq![]
    }
}

fn clamp_tilt_exec(t: i16) -> (r: i32)
    ensures
        r == clamp_tilt(t),
{
    if t < -90 { -90 } else if t > 90 { 90 } else { t as i32 }
}

fn pen_pressure_exec(p: u16) -> (r: u32)
    ensures
        r == pen_pressure(p),
{
    let c: u32 = if p > 1000 { 1000 } else { p as u32 };
    (c * 1024 + 500) / 1000
}

/// Resolve one wire event into zero or more injections.
pub fn resolve(event: &InputEvent, output: CaptureGeometry, screen: VirtualScreen) -> (r: Vec<Injection>)
    requires
        geometry_fits(output),
    ensures
        r@ == resolve_spec(*event, output, screen),
{
    if event.input_ver != 1 && !(event.input_ver == 2 && event.kind == KIND_PENCIL) {
        return Vec::new();
    }
    let (px, py) = norm_to_output_pixel(event.x_norm, event.y_norm, output);
    let (ax, ay) = desktop_pixel_to_abs(px, py, screen);
    if event.kind == KIND_PENCIL {
        let contact = event.input_ver == 1 || event.buttons & 1 != 0;
        let phase = if contact {
            if event.phase == PHASE_BEGAN {
                PenPhase::Down
            } else if event.phase == PHASE_MOVED {
                PenPhase::Move
            } else if event.phase == PHASE_ENDED {
                PenPhase::Up
            } else if event.phase == PHASE_CANCELLED {
                PenPhase::Cancel
            } else {
                return Vec::new();
            }
        } else {
            if event.phase == PHASE_MOVED {
                PenPhase::Hover
            } else if event.phase == PHASE_ENDED || event.phase == PHASE_CANCELLED {
                PenPhase::Leave
            } else {
                return Vec::new();
            }
        };
        let pressure: u32 = match phase {
            PenPhase::Down | PenPhase::Move => pen_pressure_exec(event.pressure_x1000),
            _ => 0,
        };
        let r = vec![Injection::Pen(PenSample {
            phase,
            x: px,
            y: py,
            pressure,
            tilt_x: clamp_tilt_exec(event.tilt_x),
            tilt_y: clamp_tilt_exec(event.tilt_y),
        })];
        assert(r@ =~= resolve_spec(*event, output, screen));
        r
    } else if event.kind == KIND_TOUCH || event.kind == KIND_MOUSE_ABS {
        let right_button = event.buttons & 2 != 0;
        let middle_button = event.buttons & 4 != 0;
        let r = if event.phase == PHASE_BEGAN {
            if middle_button {
                vec![Injection::MoveAbs { x: ax, y: ay }, Injection::MiddleDown { x: ax, y: ay }]
            } else if right_button {
                vec![Injection::MoveAbs { x: ax, y: ay }, Injection::RightDown { x: ax, y: ay }]
            } else {
                vec![Injection::MoveAbs { x: ax, y: ay }, Injection::LeftDown { x: ax, y: ay }]
            }
        } else if event.phase == PHASE_MOVED {
            vec![Injection::MoveAbs { x: ax, y: ay }]
        } else if event.phase == PHASE_ENDED || event.phase == PHASE_CANCELLED {
            if middle_button {
                vec![Injection::MoveAbs { x: ax, y: ay }, Injection::MiddleUp { x: ax, y: ay }]
            } else if right_button {
                vec![Injection::MoveAbs { x: ax, y: ay }, Injection::RightUp { x: ax, y: ay }]
            } else {
                vec![Injection::MoveAbs { x: ax, y: ay }, Injection::LeftUp { x: ax, y: ay }]
            }
        } else {
            Vec::new()
        };
        assert(r@ =~= resolve_spec(*event, output, screen));
        r
    } else if event.kind == KIND_HOVER {
        if event.phase == PHASE_MOVED {
            let r = vec![Injection::MoveAbs { x: ax, y: ay }];
            assert(r@ =~= resolve_spec(*event, output, screen));
            r
        } else {
            Vec::new()
        }
    } else if event.kind == KIND_KEY {
        match hid_to_scancode(event.keycode) {
            Some((scan, extended)) => {
                let r = if event.phase == PHASE_BEGAN {
                    vec![Injection::KeyDown { scan, extended }]
                } else if event.phase == PHASE_ENDED || event.phase == PHASE_CANCELLED {
                    vec![Injection::KeyUp { scan, extended }]
                } else {
                    Vec::new()
                };
                assert(r@ =~= resolve_spec(*event, output, screen));
                r
            },
            None => Vec::new(),
        }
    } else if event.kind == KIND_TEXT {
        if event.phase == PHASE_BEGAN {
            let r = vec![Injection::Unicode(event.keycode)];
            assert(r@ =~= resolve_spec(*event, output, screen));
            r
        } else {
            Vec::new()
        }
    } else if event.kind == KIND_SCROLL {
        let mut injections = vec![Injection::MoveAbs { x: ax, y: ay }];
        if event.scroll_dy != 0 {
            injections.push(Injection::Wheel { delta: scroll_to_wheel(event.scroll_dy) });
        }
        if event.scroll_dx != 0 {
            injections.push(Injection::HWheel { delta: scroll_to_wheel(event.scroll_dx) });
        }
        assert(injections@ =~= resolve_spec(*event, output, screen));
        injections
    } else {
        Vec::new()
    }
}

/// The button a press injection presses, at its point.
pub open spec fn pressed(i: Injection) -> Option<(u8, u16, u16)> {
    match i {
        Injection::LeftDown { x, y } => Some((0, x, y)),
        Injection::RightDown { x, y } => Some((1, x, y)),
        Injection::MiddleDown { x, y } => Some((2, x, y)),
        _ => None,
    }
}

/// The button a release injection releases, at its point.
pub open spec fn released(i: Injection) -> Option<(u8, u16, u16)> {
    match i {
        Injection::LeftUp { x, y } => Some((0, x, y)),
        Injection::RightUp { x, y } => Some((1, x, y)),
        Injection::MiddleUp { x, y } => Some((2, x, y)),
        _ => None,
    }
}

/// A touch or absolute-mouse contact is released with the button it was
/// pressed with: for the same button bits and point, the ENDED or CANCELLED
/// event moves to the point the BEGAN event moved to and then releases
/// exactly the button the BEGAN event pressed, there. The button follows the
/// bits: middle (`0b100`) over right (`0b10`) over left, so a right-click
/// hold is released as `[MoveAbs, RightUp]` at the moved-to point.
pub proof fn lemma_release_matches_press(began: InputEvent, ended: InputEvent, output: CaptureGeometry, screen: VirtualScreen)
    requires
        began.input_ver == 1,
        began.kind == KIND_TOUCH || began.kind == KIND_MOUSE_ABS,
        began.phase == PHASE_BEGAN,
        ended == (InputEvent { phase: ended.phase, ..began }),
        ended.phase == PHASE_ENDED || ended.phase == PHASE_CANCELLED,
    ensures
        ({
            let down = resolve_spec(began, output, screen);
            let up = resolve_spec(ended, output, screen);
            &&& down.len() == 2
            &&& up.len() == 2
            &&& up[0] == down[0]
            &&& down[0] matches Injection::MoveAbs { x, y } && ({
                let button: u8 = if began.buttons & 4 != 0 { 2 } else if began.buttons & 2 != 0 { 1 } else { 0 };
                &&& pressed(down[1]) == Some((button, x, y))
                &&& released(up[1]) == Some((button, x, y))
            })
        }),
{
}

} // verus!
