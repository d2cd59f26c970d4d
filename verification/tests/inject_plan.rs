use eternal_monitor::inject_plan::{
    pen_pointer_flags, plan_injection, raw_inputs_of, InjectStep, RawInput, KEYEVENTF_EXTENDEDKEY,
    KEYEVENTF_KEYUP, KEYEVENTF_SCANCODE, KEYEVENTF_UNICODE, MOUSEEVENTF_ABSOLUTE, MOUSEEVENTF_LEFTDOWN,
    MOUSEEVENTF_VIRTUALDESK, MOUSEEVENTF_WHEEL, POINTER_FLAG_CANCELED, POINTER_FLAG_PRIMARY, POINTER_FLAG_UP,
};
use eternal_monitor::input::{Injection, PenPhase, PenSample};

fn pen(phase: PenPhase) -> PenSample {
    PenSample { phase, x: 10, y: 20, pressure: 512, tilt_x: 0, tilt_y: 0 }
}

#[test]
fn keyboard_and_mouse_records_carry_the_windows_flags() {
    assert_eq!(
        raw_inputs_of(Injection::KeyUp { scan: 0x4D, extended: true }),
        vec![RawInput::Keyboard { scan: 0x4D, flags: KEYEVENTF_SCANCODE | KEYEVENTF_EXTENDEDKEY | KEYEVENTF_KEYUP }]
    );
    assert_eq!(
        raw_inputs_of(Injection::Unicode(0x00E9)),
        vec![
            RawInput::Keyboard { scan: 0x00E9, flags: KEYEVENTF_UNICODE },
            RawInput::Keyboard { scan: 0x00E9, flags: KEYEVENTF_UNICODE | KEYEVENTF_KEYUP },
        ]
    );
    assert_eq!(
        raw_inputs_of(Injection::LeftDown { x: 100, y: 200 }),
        vec![RawInput::Mouse {
            dx: 100,
            dy: 200,
            data: 0,
            flags: MOUSEEVENTF_LEFTDOWN | MOUSEEVENTF_ABSOLUTE | MOUSEEVENTF_VIRTUALDESK
        }]
    );
    assert_eq!(
        raw_inputs_of(Injection::Wheel { delta: -120 }),
        vec![RawInput::Mouse { dx: 0, dy: 0, data: -120, flags: MOUSEEVENTF_WHEEL }]
    );
    assert!(raw_inputs_of(Injection::Pen(pen(PenPhase::Down))).is_empty());
}

#[test]
fn key_releases_are_sent_before_a_pen_sample() {
    let steps = plan_injection(&[
        Injection::KeyUp { scan: 0x2A, extended: false },
        Injection::Pen(pen(PenPhase::Cancel)),
        Injection::MoveAbs { x: 1, y: 2 },
    ]);
    assert_eq!(steps.len(), 3);
    assert_eq!(
        steps[0],
        InjectStep::Send(vec![RawInput::Keyboard { scan: 0x2A, flags: KEYEVENTF_SCANCODE | KEYEVENTF_KEYUP }])
    );
    assert_eq!(steps[1], InjectStep::Pen(pen(PenPhase::Cancel)));
    assert!(matches!(&steps[2], InjectStep::Send(records) if records.len() == 1));
}

#[test]
fn an_empty_batch_sends_nothing_and_pen_alone_needs_no_send() {
    assert!(plan_injection(&[]).is_empty());
    assert_eq!(plan_injection(&[Injection::Pen(pen(PenPhase::Move))]), vec![InjectStep::Pen(pen(PenPhase::Move))]);
}

#[test]
fn pen_up_ends_contact_and_every_sample_is_primary() {
    assert_eq!(pen_pointer_flags(PenPhase::Up), POINTER_FLAG_UP | POINTER_FLAG_PRIMARY);
    assert_eq!(
        pen_pointer_flags(PenPhase::Cancel),
        POINTER_FLAG_UP | POINTER_FLAG_CANCELED | POINTER_FLAG_PRIMARY
    );
    assert_eq!(pen_pointer_flags(PenPhase::Down), 0x0001_0000 | 0x2 | 0x4 | 0x10 | 0x2000);
}
