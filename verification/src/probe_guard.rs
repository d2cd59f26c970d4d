//! Extra containment for the opt-in input hardware test: a batch may only be
//! injected while the test window has focus, every pointer position it
//! reaches stays inside that window, and the only keys typed are the probe's
//! own text and Enter.

use vstd::prelude::*;
use crate::input::{axis_fits, CaptureGeometry, Injection, VirtualScreen};

verus! {

/// The desktop pixel that absolute coordinate `a` (0..65535) addresses along
/// one screen axis.
pub open spec fn abs_to_pixel(a: u16, origin: i32, span: u32) -> int {
    origin + (a * span) / 65_536
}

pub open spec fn inside(bounds: CaptureGeometry, p: (int, int)) -> bool {
    p.0 >= bounds.left && p.1 >= bounds.top && p.0 < bounds.left + bounds.width
        && p.1 < bounds.top + bounds.height
}

/// Probe text is "Hi!" and the Enter key (scan 28, not extended).
pub open spec fn probe_key(inj: Injection) -> bool {
    match inj {
        Injection::Unicode(c) => c == 72 || c == 105 || c == 33,
        Injection::KeyDown { scan, extended } => scan == 28 && !extended,
        Injection::KeyUp { scan, extended } => scan == 28 && !extended,
        _ => false,
    }
}

/// The pointer position an injection moves to, if it is a positioned one.
pub open spec fn pointer_target(inj: Injection) -> Option<(u16, u16)> {
    match inj {
        Injection::MoveAbs { x, y } => Some((x, y)),
        Injection::LeftDown { x, y } => Some((x, y)),
        Injection::LeftUp { x, y } => Some((x, y)),
        Injection::RightDown { x, y } => Some((x, y)),
        Injection::RightUp { x, y } => Some((x, y)),
        Injection::MiddleDown { x, y } => Some((x, y)),
        Injection::MiddleUp { x, y } => Some((x, y)),
        _ => None,
    }
}

/// Whether every injection of the batch, in order from `cursor`, stays
/// contained.
pub open spec fn contained(
    bounds: CaptureGeometry,
    screen: VirtualScreen,
    cursor: (int, int),
    injs: Seq<Injection>,
) -> bool
    decreases injs.len(),
{
    if injs.len() == 0 {
        true
    } else {
        let inj = injs[0];
        match pointer_target(inj) {
            Some((x, y)) => {
                let c = (abs_to_pixel(x, screen.left, screen.width), abs_to_pixel(y, screen.top, screen.height));
                inside(bounds, c) && contained(bounds, screen, c, injs.drop_first())
            },
            None => {
                match inj {
                    Injection::Wheel { .. } => inside(bounds, cursor) && contained(bounds, screen, cursor, injs.drop_first()),
                    Injection::HWheel { .. } => inside(bounds, cursor) && contained(bounds, screen, cursor, injs.drop_first()),
                    _ => probe_key(inj) && contained(bounds, screen, cursor, injs.drop_first()),
                }
            },
        }
    }
}

fn axis_from_abs(a: u16, origin: i32, span: u32) -> (p: i32)
    requires
        axis_fits(origin, span),
    ensures
        p == abs_to_pixel(a, origin, span),
{
    assert(a * span <= 65_535 * span <= 65_535 * 0xffff_ffff) by (nonlinear_arith)
        requires a <= 65_535, 0 <= span <= 0xffff_ffff;
    let prod: u64 = a as u64 * span as u64;
    let q: u64 = prod / 65_536;
    assert(q <= (if span == 0 { 0 } else { span - 1 })) by (nonlinear_arith)
        requires q == prod / 65_536, prod == a * span, a <= 65_535, span >= 0;
    let p: i64 = origin as i64 + q as i64;
    p as i32
}

fn is_inside(bounds: CaptureGeometry, x: i32, y: i32) -> (r: bool)
    ensures
        r == inside(bounds, (x as int, y as int)),
{
    x >= bounds.left && y >= bounds.top && (x as i64) < bounds.left as i64 + bounds.width as i64
        && (y as i64) < bounds.top as i64 + bounds.height as i64
}

/// Whether a batch may be injected: the expected process (never the idle
/// process 0) has focus, and the batch stays contained from `cursor`.
pub fn permits(
    expected_pid: u32,
    foreground_pid: u32,
    bounds: CaptureGeometry,
    screen: VirtualScreen,
    cursor: (i32, i32),
    injections: &[Injection],
) -> (ok: bool)
    requires
        axis_fits(screen.left, screen.width),
        axis_fits(screen.top, screen.height),
    ensures
        ok == (expected_pid != 0 && expected_pid == foreground_pid
            && contained(bounds, screen, (cursor.0 as int, cursor.1 as int), injections@)),
{
    if expected_pid == 0 || expected_pid != foreground_pid {
        return false;
    }
    let mut cx = cursor.0;
    let mut cy = cursor.1;
    let mut i: usize = 0;
    assert(injections@.skip(0) =~= injections@);
    while i < injections.len()
        invariant
            axis_fits(screen.left, screen.width),
            axis_fits(screen.top, screen.height),
            0 <= i <= injections@.len(),
            contained(bounds, screen, (cursor.0 as int, cursor.1 as int), injections@)
                == contained(bounds, screen, (cx as int, cy as int), injections@.skip(i as int)),
        decreases injections@.len() - i,
    {
        let ghost rest = injections@.skip(i as int);
        assert(rest.drop_first() =~= injections@.skip(i + 1));
        assert(rest[0] == injections@[i as int]);
        let inj = injections[i];
        let target: Option<(u16, u16)> = match inj {
            Injection::MoveAbs { x, y } => Some((x, y)),
            Injection::LeftDown { x, y } => Some((x, y)),
            Injection::LeftUp { x, y } => Some((x, y)),
            Injection::RightDown { x, y } => Some((x, y)),
            Injection::RightUp { x, y } => Some((x, y)),
            Injection::MiddleDown { x, y } => Some((x, y)),
            Injection::MiddleUp { x, y } => Some((x, y)),
            _ => None,
        };
        match target {
            Some((x, y)) => {
                // Absolute coordinates span the complete virtual desktop.
                cx = axis_from_abs(x, screen.left, screen.width);
                cy = axis_from_abs(y, screen.top, screen.height);
                if !is_inside(bounds, cx, cy) {
                    return false;
                }
            },
            None => {
                match inj {
                    Injection::Wheel { .. } | Injection::HWheel { .. } => {
                        if !is_inside(bounds, cx, cy) {
                            return false;
                        }
                    },
                    Injection::Unicode(c) => {
                        if !(c == 72 || c == 105 || c == 33) {
                            return false;
                        }
                    },
                    Injection::KeyDown { scan, extended } | Injection::KeyUp { scan, extended } => {
                        if !(scan == 28 && !extended) {
                            return false;
                        }
                    },
                    _ => {
                        return false;
                    },
                }
            },
        }
        i = i + 1;
    }
    true
}

} // verus!
