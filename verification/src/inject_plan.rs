//! How a resolved injection batch becomes native input: keyboard and mouse
//! records for one `SendInput` call, and pen samples for the synthetic pen
//! device, in the batch's order. The flag values are those of the Windows
//! SDK; the calls themselves are the application's.

use vstd::prelude::*;
use crate::input::{Injection, PenPhase, PenSample};

verus! {

pub const KEYEVENTF_EXTENDEDKEY: u32 = 0x0001;
pub const KEYEVENTF_KEYUP: u32 = 0x0002;
pub const KEYEVENTF_UNICODE: u32 = 0x0004;
pub const KEYEVENTF_SCANCODE: u32 = 0x0008;

pub const MOUSEEVENTF_MOVE: u32 = 0x0001;
pub const MOUSEEVENTF_LEFTDOWN: u32 = 0x0002;
pub const MOUSEEVENTF_LEFTUP: u32 = 0x0004;
pub const MOUSEEVENTF_RIGHTDOWN: u32 = 0x0008;
pub const MOUSEEVENTF_RIGHTUP: u32 = 0x0010;
pub const MOUSEEVENTF_MIDDLEDOWN: u32 = 0x0020;
pub const MOUSEEVENTF_MIDDLEUP: u32 = 0x0040;
pub const MOUSEEVENTF_WHEEL: u32 = 0x0800;
pub const MOUSEEVENTF_HWHEEL: u32 = 0x1000;
pub const MOUSEEVENTF_VIRTUALDESK: u32 = 0x4000;
pub const MOUSEEVENTF_ABSOLUTE: u32 = 0x8000;

pub const POINTER_FLAG_INRANGE: u32 = 0x0002;
pub const POINTER_FLAG_INCONTACT: u32 = 0x0004;
pub const POINTER_FLAG_FIRSTBUTTON: u32 = 0x0010;
pub const POINTER_FLAG_PRIMARY: u32 = 0x2000;
pub const POINTER_FLAG_CANCELED: u32 = 0x8000;
pub const POINTER_FLAG_DOWN: u32 = 0x0001_0000;
pub const POINTER_FLAG_UPDATE: u32 = 0x0002_0000;
pub const POINTER_FLAG_UP: u32 = 0x0004_0000;

/// Absolute pointer events are placed on the whole virtual desktop.
pub const ABSOLUTE_DESK: u32 = 0xC000;

/// One record of a `SendInput` call.
#[derive(Clone, Copy, Debug, PartialEq, Eq, Structural)]
pub enum RawInput {
    Keyboard { scan: u16, flags: u32 },
    Mouse { dx: i32, dy: i32, data: i32, flags: u32 },
}

/// One native call: a `SendInput` batch, or one sample for the pen device.
#[derive(Clone, Debug, PartialEq, Eq)]
pub enum InjectStep {
    Send(Vec<RawInput>),
    Pen(PenSample),
}

/// The `SendInput` records an injection stands for; a pen sample has none.
pub open spec fn raw_inputs(i: Injection) -> Seq<RawInput> {
    match i {
        Injection::Pen(_) => seq![],
        Injection::KeyDown { scan, extended } => seq![RawInput::Keyboard {
            scan,
            flags: if extended { KEYEVENTF_SCANCODE | KEYEVENTF_EXTENDEDKEY } else { KEYEVENTF_SCANCODE },
        }],
        Injection::KeyUp { scan, extended } => seq![RawInput::Keyboard {
            scan,
            flags: if extended {
                KEYEVENTF_SCANCODE | KEYEVENTF_EXTENDEDKEY | KEYEVENTF_KEYUP
            } else {
                KEYEVENTF_SCANCODE | KEYEVENTF_KEYUP
            },
        }],
        Injection::Unicode(unit) => seq![
            RawInput::Keyboard { scan: unit, flags: KEYEVENTF_UNICODE },
            RawInput::Keyboard { scan: unit, flags: KEYEVENTF_UNICODE | KEYEVENTF_KEYUP },
        ],
        Injection::MoveAbs { x, y } => seq![RawInput::Mouse { dx: x as i32, dy: y as i32, data: 0, flags: MOUSEEVENTF_MOVE | ABSOLUTE_DESK }],
        Injection::LeftDown { x, y } => seq![RawInput::Mouse { dx: x as i32, dy: y as i32, data: 0, flags: MOUSEEVENTF_LEFTDOWN | ABSOLUTE_DESK }],
        Injection::LeftUp { x, y } => seq![RawInput::Mouse { dx: x as i32, dy: y as i32, data: 0, flags: MOUSEEVENTF_LEFTUP | ABSOLUTE_DESK }],
        Injection::RightDown { x, y } => seq![RawInput::Mouse { dx: x as i32, dy: y as i32, data: 0, flags: MOUSEEVENTF_RIGHTDOWN | ABSOLUTE_DESK }],
        Injection::RightUp { x, y } => seq![RawInput::Mouse { dx: x as i32, dy: y as i32, data: 0, flags: MOUSEEVENTF_RIGHTUP | ABSOLUTE_DESK }],
        Injection::MiddleDown { x, y } => seq![RawInput::Mouse { dx: x as i32, dy: y as i32, data: 0, flags: MOUSEEVENTF_MIDDLEDOWN | ABSOLUTE_DESK }],
        Injection::MiddleUp { x, y } => seq![RawInput::Mouse { dx: x as i32, dy: y as i32, data: 0, flags: MOUSEEVENTF_MIDDLEUP | ABSOLUTE_DESK }],
        Injection::Wheel { delta } => seq![RawInput::Mouse { dx: 0, dy: 0, data: delta, flags: MOUSEEVENTF_WHEEL }],
        Injection::HWheel { delta } => seq![RawInput::Mouse { dx: 0, dy: 0, data: delta, flags: MOUSEEVENTF_HWHEEL }],
    }
}

/// The view of a planned step.
pub enum StepView {
    Send(Seq<RawInput>),
    Pen(PenSample),
}

/// The records gathered so far and the steps already closed: records are
/// gathered until a pen sample, which first sends what was gathered.
pub open spec fn plan_fold(injections: Seq<Injection>) -> (Seq<StepView>, Seq<RawInput>)
    decreases injections.len(),
{
    if injections.len() == 0 {
        (seq![], seq![])
    } else {
        let (steps, pending) = plan_fold(injections.drop_last());
        match injections.last() {
            Injection::Pen(sample) => {
                let flushed = if pending.len() > 0 { steps.push(StepView::Send(pending)) } else { steps };
                (flushed.push(StepView::Pen(sample)), seq![])
            },
            other => (steps, pending + raw_inputs(other)),
        }
    }
}

/// The native calls for a batch, in order; nothing is sent empty.
pub open spec fn plan_spec(injections: Seq<Injection>) -> Seq<StepView> {
    let (steps, pending) = plan_fold(injections);
    if pending.len() > 0 { steps.push(StepView::Send(pending)) } else { steps }
}

pub open spec fn step_view(s: InjectStep) -> StepView {
    match s {
        InjectStep::Send(v) => StepView::Send(v@),
        InjectStep::Pen(p) => StepView::Pen(p),
    }
}

/// The records of one injection.
pub fn raw_inputs_of(injection: Injection) -> (r: Vec<RawInput>)
    ensures
        r@ == raw_inputs(injection),
{
    let abs = MOUSEEVENTF_ABSOLUTE | MOUSEEVENTF_VIRTUALDESK;
    assert(abs == 0xC000u32) by (bit_vector)
        requires
            abs == 0x8000u32 | 0x4000u32,
    ;
    match injection {
        Injection::Pen(_) => Vec::new(),
        Injection::KeyDown { scan, extended } => {
            let flags = if extended { KEYEVENTF_SCANCODE | KEYEVENTF_EXTENDEDKEY } else { KEYEVENTF_SCANCODE };
            vec![RawInput::Keyboard { scan, flags }]
        },
        Injection::KeyUp { scan, extended } => {
            let mut flags = KEYEVENTF_SCANCODE;
            if extended {
                flags = flags | KEYEVENTF_EXTENDEDKEY;
            }
            flags = flags | KEYEVENTF_KEYUP;
            vec![RawInput::Keyboard { scan, flags }]
        },
        Injection::Unicode(unit) => vec![
            RawInput::Keyboard { scan: unit, flags: KEYEVENTF_UNICODE },
            RawInput::Keyboard { scan: unit, flags: KEYEVENTF_UNICODE | KEYEVENTF_KEYUP },
        ],
        Injection::MoveAbs { x, y } => vec![RawInput::Mouse { dx: x as i32, dy: y as i32, data: 0, flags: MOUSEEVENTF_MOVE | abs }],
        Injection::LeftDown { x, y } => vec![RawInput::Mouse { dx: x as i32, dy: y as i32, data: 0, flags: MOUSEEVENTF_LEFTDOWN | abs }],
        Injection::LeftUp { x, y } => vec![RawInput::Mouse { dx: x as i32, dy: y as i32, data: 0, flags: MOUSEEVENTF_LEFTUP | abs }],
        Injection::RightDown { x, y } => vec![RawInput::Mouse { dx: x as i32, dy: y as i32, data: 0, flags: MOUSEEVENTF_RIGHTDOWN | abs }],
        Injection::RightUp { x, y } => vec![RawInput::Mouse { dx: x as i32, dy: y as i32, data: 0, flags: MOUSEEVENTF_RIGHTUP | abs }],
        Injection::MiddleDown { x, y } => vec![RawInput::Mouse { dx: x as i32, dy: y as i32, data: 0, flags: MOUSEEVENTF_MIDDLEDOWN | abs }],
        Injection::MiddleUp { x, y } => vec![RawInput::Mouse { dx: x as i32, dy: y as i32, data: 0, flags: MOUSEEVENTF_MIDDLEUP | abs }],
        Injection::Wheel { delta } => vec![RawInput::Mouse { dx: 0, dy: 0, data: delta, flags: MOUSEEVENTF_WHEEL }],
        Injection::HWheel { delta } => vec![RawInput::Mouse { dx: 0, dy: 0, data: delta, flags: MOUSEEVENTF_HWHEEL }],
    }
}

/// Plan a batch: keyboard and mouse records are gathered into one
/// `SendInput` call, except that a pen sample first sends what was
/// gathered (so a cancelled session's key releases land before the pen
/// lifts) and then goes to the pen device on its own.
pub fn plan_injection(injections: &[Injection]) -> (steps: Vec<InjectStep>)
    ensures
        steps@.map_values(|s: InjectStep| step_view(s)) == plan_spec(injections@),
{
    let mut steps: Vec<InjectStep> = Vec::new();
    let mut pending: Vec<RawInput> = Vec::new();
    let mut i: usize = 0;
    assert(injections@.take(0) =~= Seq::<Injection>::empty());
    assert(steps@.map_values(|s: InjectStep| step_view(s)) =~= Seq::<StepView>::empty());
    while i < injections.len()
        invariant
            0 <= i <= injections@.len(),
            (steps@.map_values(|s: InjectStep| step_view(s)), pending@) == plan_fold(injections@.take(i as int)),
        decreases injections@.len() - i,
    {
        let injection = injections[i];
        let ghost before_steps = steps@.map_values(|s: InjectStep| step_view(s));
        let ghost before_pending = pending@;
        assert(injections@.take(i + 1).drop_last() =~= injections@.take(i as int));
        assert(injections@.take(i + 1).last() == injection);
        match injection {
            Injection::Pen(sample) => {
                if pending.len() > 0 {
                    let batch = pending;
                    pending = Vec::new();
                    steps.push(InjectStep::Send(batch));
                    assert(steps@.map_values(|s: InjectStep| step_view(s)) =~= before_steps.push(StepView::Send(before_pending)));
                }
                let ghost mid = steps@.map_values(|s: InjectStep| step_view(s));
                steps.push(InjectStep::Pen(sample));
                assert(steps@.map_values(|s: InjectStep| step_view(s)) =~= mid.push(StepView::Pen(sample)));
                pending = Vec::new();
                assert(pending@ =~= Seq::<RawInput>::empty());
            },
            _ => {
                let mut more = raw_inputs_of(injection);
                pending.append(&mut more);
            },
        }
        i = i + 1;
    }
    assert(injections@.take(injections@.len() as int) =~= injections@);
    if pending.len() > 0 {
        let ghost before_steps = steps@.map_values(|s: InjectStep| step_view(s));
        let ghost last = pending@;
        steps.push(InjectStep::Send(pending));
        assert(steps@.map_values(|s: InjectStep| step_view(s)) =~= before_steps.push(StepView::Send(last)));
    }
    steps
}

/// The pointer flags of a pen sample in its phase. Up ends contact
/// completely, so an unsupported device never leaves a ghost hover.
pub open spec fn pen_flags_spec(phase: PenPhase) -> u32 {
    let f: u32 = match phase {
        PenPhase::Down => POINTER_FLAG_DOWN | POINTER_FLAG_INRANGE | POINTER_FLAG_INCONTACT | POINTER_FLAG_FIRSTBUTTON,
        PenPhase::Move => POINTER_FLAG_UPDATE | POINTER_FLAG_INRANGE | POINTER_FLAG_INCONTACT | POINTER_FLAG_FIRSTBUTTON,
        PenPhase::Up => POINTER_FLAG_UP,
        PenPhase::Cancel => POINTER_FLAG_UP | POINTER_FLAG_CANCELED,
        PenPhase::Hover => POINTER_FLAG_UPDATE | POINTER_FLAG_INRANGE,
        PenPhase::Leave => POINTER_FLAG_UPDATE,
    };
    f | POINTER_FLAG_PRIMARY
}

pub fn pen_pointer_flags(phase: PenPhase) -> (f: u32)
    ensures
        f == pen_flags_spec(phase),
{
    let f: u32 = match phase {
        PenPhase::Down => POINTER_FLAG_DOWN | POINTER_FLAG_INRANGE | POINTER_FLAG_INCONTACT | POINTER_FLAG_FIRSTBUTTON,
        PenPhase::Move => POINTER_FLAG_UPDATE | POINTER_FLAG_INRANGE | POINTER_FLAG_INCONTACT | POINTER_FLAG_FIRSTBUTTON,
        PenPhase::Up => POINTER_FLAG_UP,
        PenPhase::Cancel => POINTER_FLAG_UP | POINTER_FLAG_CANCELED,
        PenPhase::Hover => POINTER_FLAG_UPDATE | POINTER_FLAG_INRANGE,
        PenPhase::Leave => POINTER_FLAG_UPDATE,
    };
    f | POINTER_FLAG_PRIMARY
}

/// Every injection of a batch reaches a native call exactly where it
/// stood: the plan's records, read in order, are those of the batch.
pub proof fn lemma_plan_keeps_order(injections: Seq<Injection>)
    ensures
        flatten(plan_spec(injections)) == flatten_injections(injections),
    decreases injections.len(),
{
    lemma_fold_keeps_order(injections);
    let (steps, pending) = plan_fold(injections);
    let rec = |x: RawInput| NativeEvent::Record(x);
    if pending.len() > 0 {
        lemma_flatten_push(steps, StepView::Send(pending));
    } else {
        assert(pending.map_values(rec) =~= Seq::<NativeEvent>::empty());
        assert(flatten(steps) + pending.map_values(rec) =~= flatten(steps));
    }
}

/// A step read as a list of native events: records, or one pen sample.
pub enum NativeEvent {
    Record(RawInput),
    PenSample(PenSample),
}

pub open spec fn step_events(s: StepView) -> Seq<NativeEvent> {
    match s {
        StepView::Send(r) => r.map_values(|x: RawInput| NativeEvent::Record(x)),
        StepView::Pen(p) => seq![NativeEvent::PenSample(p)],
    }
}

pub open spec fn flatten(steps: Seq<StepView>) -> Seq<NativeEvent>
    decreases steps.len(),
{
    if steps.len() == 0 { seq![] } else { flatten(steps.drop_last()) + step_events(steps.last()) }
}

pub open spec fn injection_events(i: Injection) -> Seq<NativeEvent> {
    match i {
        Injection::Pen(p) => seq![NativeEvent::PenSample(p)],
        other => raw_inputs(other).map_values(|x: RawInput| NativeEvent::Record(x)),
    }
}

pub open spec fn flatten_injections(injections: Seq<Injection>) -> Seq<NativeEvent>
    decreases injections.len(),
{
    if injections.len() == 0 {
        seq![]
    } else {
        flatten_injections(injections.drop_last()) + injection_events(injections.last())
    }
}

proof fn lemma_flatten_push(steps: Seq<StepView>, s: StepView)
    ensures
        flatten(steps.push(s)) == flatten(steps) + step_events(s),
{
    assert(steps.push(s).drop_last() =~= steps);
}

proof fn lemma_fold_keeps_order(injections: Seq<Injection>)
    ensures
        ({
            let (steps, pending) = plan_fold(injections);
            flatten(steps) + pending.map_values(|x: RawInput| NativeEvent::Record(x)) == flatten_injections(injections)
        }),
    decreases injections.len(),
{
    if injections.len() > 0 {
        let d = injections.drop_last();
        lemma_fold_keeps_order(d);
        let (steps, pending) = plan_fold(d);
        let rec = |x: RawInput| NativeEvent::Record(x);
        match injections.last() {
            Injection::Pen(sample) => {
                let flushed = if pending.len() > 0 { steps.push(StepView::Send(pending)) } else { steps };
                if pending.len() > 0 {
                    lemma_flatten_push(steps, StepView::Send(pending));
                } else {
                    assert(pending.map_values(rec) =~= Seq::<NativeEvent>::empty());
                    assert(flatten(steps) + pending.map_values(rec) =~= flatten(steps));
                }
                lemma_flatten_push(flushed, StepView::Pen(sample));
                assert(Seq::<RawInput>::empty().map_values(rec) =~= Seq::<NativeEvent>::empty());
                assert(flatten(flushed.push(StepView::Pen(sample))) + Seq::<RawInput>::empty().map_values(rec)
                    =~= flatten_injections(d) + injection_events(injections.last()));
            },
            other => {
                assert((pending + raw_inputs(other)).map_values(rec) =~= pending.map_values(rec) + raw_inputs(other).map_values(rec));
                assert(flatten(steps) + (pending + raw_inputs(other)).map_values(rec)
                    =~= flatten_injections(d) + injection_events(injections.last()));
            },
        }
    }
}

} // verus!
