use eternal_monitor::input::{
    desktop_pixel_to_abs, norm_to_output_pixel, resolve, scroll_to_wheel, CaptureGeometry, EventDeduper, InputEvent,
    Injection, PenPhase, PenSample, VirtualScreen, KIND_HOVER, KIND_KEY, KIND_MOUSE_ABS, KIND_PENCIL, KIND_SCROLL,
    KIND_TEXT, KIND_TOUCH, PHASE_BEGAN, PHASE_CANCELLED, PHASE_ENDED, PHASE_MOVED,
};
use eternal_monitor::probe_guard::permits;
use eternal_monitor::recorder::Recorder;
use eternal_monitor::relay::{output_as_screen, HeldInputs, InputRelay};

fn event(kind: u8, phase: u8, x: u16, y: u16) -> InputEvent {
    InputEvent {
        input_ver: 1,
        kind,
        phase,
        buttons: 1,
        event_id: 1,
        x_norm: x,
        y_norm: y,
        pressure_x1000: 0,
        scroll_dx: 0,
        scroll_dy: 0,
        keycode: 0,
        modifiers: 0,
        client_time_us: 0,
        tilt_x: 0,
        tilt_y: 0,
    }
}

const OUTPUT: CaptureGeometry = CaptureGeometry { left: 0, top: 0, width: 1920, height: 1080 };
const SINGLE_SCREEN: VirtualScreen = VirtualScreen { left: 0, top: 0, width: 1920, height: 1080 };

#[test]
fn corners_and_center_map_correctly() {
    assert_eq!(norm_to_output_pixel(0, 0, OUTPUT), (0, 0));
    assert_eq!(norm_to_output_pixel(65_535, 65_535, OUTPUT), (1919, 1079));
    let (cx, cy) = norm_to_output_pixel(32_768, 32_768, OUTPUT);
    assert!((cx - 960).abs() <= 1, "center x {cx}");
    assert!((cy - 540).abs() <= 1, "center y {cy}");
}

#[test]
fn extended_display_offset_is_applied() {
    // Virtual display sits LEFT of the primary at -1920.
    let extended = CaptureGeometry { left: -1920, top: 0, width: 1920, height: 1080 };
    let screen = VirtualScreen { left: -1920, top: 0, width: 3840, height: 1080 };
    let (px, py) = norm_to_output_pixel(32_768, 32_768, extended);
    assert!((px - -960).abs() <= 1, "pixel x {px}");
    let (ax, _ay) = desktop_pixel_to_abs(px, py, screen);
    assert!((i32::from(ax) - 16_384).abs() <= 40, "abs x {ax} should be ~16384");
}

#[test]
fn tap_produces_move_then_click_edges() {
    let began = resolve(&event(KIND_TOUCH, PHASE_BEGAN, 100, 100), OUTPUT, SINGLE_SCREEN);
    assert!(matches!(began[0], Injection::MoveAbs { .. }));
    assert!(matches!(began[1], Injection::LeftDown { .. }));

    let ended = resolve(&event(KIND_TOUCH, PHASE_ENDED, 100, 100), OUTPUT, SINGLE_SCREEN);
    assert!(matches!(ended[1], Injection::LeftUp { .. }));
}

#[test]
fn right_button_flag_makes_right_clicks() {
    let mut e = event(KIND_TOUCH, PHASE_BEGAN, 5, 5);
    e.buttons = 0b10;
    let injections = resolve(&e, OUTPUT, SINGLE_SCREEN);
    assert!(matches!(injections[1], Injection::RightDown { .. }));
}

#[test]
fn scroll_maps_to_wheel_deltas() {
    let mut e = event(KIND_SCROLL, PHASE_MOVED, 0, 0);
    e.scroll_dy = -40;
    e.scroll_dx = 10;
    let injections = resolve(&e, OUTPUT, SINGLE_SCREEN);
    assert!(injections.contains(&Injection::Wheel { delta: -120 }));
    assert!(injections.contains(&Injection::HWheel { delta: 30 }));
}

#[test]
fn pen_preserves_pressure_tilt_and_desktop_pixels_without_mouse_events() {
    let mut e = event(KIND_PENCIL, PHASE_BEGAN, 65_535, 0);
    e.input_ver = 2;
    e.pressure_x1000 = 750;
    e.tilt_x = -37;
    e.tilt_y = 62;
    let output = CaptureGeometry { left: -2560, top: -200, width: 2560, height: 1440 };
    assert_eq!(
        resolve(&e, output, SINGLE_SCREEN),
        vec![Injection::Pen(PenSample { phase: PenPhase::Down, x: -1, y: -200, pressure: 768, tilt_x: -37, tilt_y: 62 })]
    );
    e.phase = PHASE_MOVED;
    e.pressure_x1000 = u16::MAX;
    e.tilt_x = i16::MIN;
    e.tilt_y = i16::MAX;
    let [Injection::Pen(sample)] = resolve(&e, output, SINGLE_SCREEN)[..] else { panic!() };
    assert_eq!((sample.pressure, sample.tilt_x, sample.tilt_y), (1024, -90, 90));
    for (phase, buttons, expected) in [
        (PHASE_ENDED, 1, PenPhase::Up),
        (PHASE_CANCELLED, 1, PenPhase::Cancel),
        (PHASE_MOVED, 0, PenPhase::Hover),
        (PHASE_ENDED, 0, PenPhase::Leave),
    ] {
        e.phase = phase;
        e.buttons = buttons;
        let [Injection::Pen(sample)] = resolve(&e, output, SINGLE_SCREEN)[..] else { panic!() };
        assert_eq!((sample.phase, sample.pressure), (expected, 0));
    }
    e.input_ver = 99;
    assert!(resolve(&e, output, SINGLE_SCREEN).is_empty());
    assert_eq!(
        norm_to_output_pixel(65535, 65535, CaptureGeometry { width: 1, height: 1, ..output }),
        (-2560, -200)
    );
}

/// The relay hands back what it would inject; this collects it the way the
/// recording sink does.
fn relay_into(recorder: &mut Recorder, relay: &mut InputRelay, session: u32, e: &InputEvent, now: u64) {
    let injections = relay.relay(session, e, OUTPUT, output_as_screen(OUTPUT), now);
    recorder.record(&injections);
}

#[test]
fn relay_resets_dedupe_on_session_change() {
    let mut recorder = Recorder::new();
    let now: u64 = 5_000_000;
    let mut relay = InputRelay::default();
    let mut e = event(KIND_TOUCH, PHASE_BEGAN, 10, 10);
    e.event_id = 1;
    relay_into(&mut recorder, &mut relay, 7, &e, now); // injected (MoveAbs + LeftDown)
    relay_into(&mut recorder, &mut relay, 7, &e, now); // duplicate edge: dropped
    relay_into(&mut recorder, &mut relay, 8, &e, now); // new session, same event_id: injected
    let recorded = recorder.take();
    assert_eq!(recorded.len(), 5);
    assert!(matches!(recorded[2], Injection::LeftUp { .. }));
    // Ending the relay releases what session 8 still holds.
    recorder.record(&relay.reset());
    assert!(matches!(recorder.take().as_slice(), [Injection::LeftUp { .. }]));

    let mut relay = InputRelay::default();
    let mut pen = event(KIND_PENCIL, PHASE_BEGAN, 100, 100);
    pen.input_ver = 2;
    pen.event_id = u32::MAX - 1;
    pen.pressure_x1000 = 500;
    relay_into(&mut recorder, &mut relay, 9, &pen, now);
    relay_into(&mut recorder, &mut relay, 9, &pen, now);
    pen.phase = PHASE_MOVED;
    pen.event_id = u32::MAX;
    relay_into(&mut recorder, &mut relay, 9, &pen, now);
    pen.event_id = 0; // wrapping IDs still advance
    pen.phase = PHASE_ENDED;
    relay_into(&mut recorder, &mut relay, 9, &pen, now);
    pen.event_id = u32::MAX;
    pen.phase = PHASE_MOVED;
    relay_into(&mut recorder, &mut relay, 9, &pen, now); // delayed sample cannot revive the stroke
    let phases: Vec<_> = recorder
        .take()
        .iter()
        .map(|i| match i {
            Injection::Pen(p) => p.phase,
            _ => panic!("Pencil became mouse input"),
        })
        .collect();
    assert_eq!(phases, [PenPhase::Down, PenPhase::Move, PenPhase::Up]);
    pen.event_id = 1;
    relay_into(&mut recorder, &mut relay, 9, &pen, now); // lost down recovers
    assert!(matches!(
        recorder.take().as_slice(),
        [Injection::Pen(PenSample { phase: PenPhase::Down, .. })]
    ));
    pen.event_id = 2;
    pen.phase = PHASE_BEGAN;
    relay_into(&mut recorder, &mut relay, 9, &pen, now); // new stroke after lost up cancels old one
    assert!(matches!(
        recorder.take().as_slice(),
        [
            Injection::Pen(PenSample { phase: PenPhase::Cancel, .. }),
            Injection::Pen(PenSample { phase: PenPhase::Down, .. })
        ]
    ));
    recorder.record(&relay.reset());
    assert!(matches!(
        recorder.take().as_slice(),
        [Injection::Pen(PenSample { phase: PenPhase::Cancel, pressure: 0, .. })]
    ));
    recorder.record(&relay.reset());
    assert!(recorder.take().is_empty());

    pen.event_id = 3;
    relay_into(&mut recorder, &mut relay, 10, &pen, now);
    assert!(relay.keep_pen_alive(now + 49_000).is_none());
    assert!(matches!(
        relay.keep_pen_alive(now + 50_000),
        Some(Injection::Pen(PenSample { phase: PenPhase::Move, .. }))
    ));
    recorder.take();
    pen.event_id = 4;
    pen.phase = PHASE_ENDED;
    pen.x_norm = 200;
    relay_into(&mut recorder, &mut relay, 10, &pen, now + 60_000);
    assert!(matches!(
        recorder.take().as_slice(),
        [
            Injection::Pen(PenSample { phase: PenPhase::Move, .. }),
            Injection::Pen(PenSample { phase: PenPhase::Up, .. })
        ]
    ));
    assert!(relay.keep_pen_alive(now + 1_000_000).is_none());
    recorder.record(&relay.reset());
    assert!(recorder.take().is_empty());
}

#[test]
fn reordered_duplicate_edges_still_dedupe() {
    let mut dedupe = EventDeduper::default();
    let mut began = event(KIND_TOUCH, PHASE_BEGAN, 0, 0);
    began.event_id = 7;
    let mut ended = event(KIND_TOUCH, PHASE_ENDED, 0, 0);
    ended.event_id = 8;

    assert!(dedupe.accept(&began));
    assert!(dedupe.accept(&ended));
    assert!(!dedupe.accept(&began), "the replayed press must not click again");
    assert!(!dedupe.accept(&ended));
}

#[test]
fn edge_duplicates_are_dropped_moves_pass() {
    let mut dedupe = EventDeduper::default();
    let mut began = event(KIND_TOUCH, PHASE_BEGAN, 0, 0);
    began.event_id = 7;
    assert!(dedupe.accept(&began));
    assert!(!dedupe.accept(&began), "second edge with the same id drops");

    let mut moved = event(KIND_TOUCH, PHASE_MOVED, 1, 1);
    moved.event_id = 7;
    assert!(dedupe.accept(&moved));
    assert!(dedupe.accept(&moved), "moves are not deduped");

    let mut ended = event(KIND_TOUCH, PHASE_ENDED, 2, 2);
    ended.event_id = 8;
    assert!(dedupe.accept(&ended));
}

#[test]
fn keyboard_text_hover_and_middle_resolve_without_extra_clicks() {
    let mut e = event(KIND_KEY, PHASE_BEGAN, 0, 0);
    e.keycode = 0x4f;
    assert_eq!(resolve(&e, OUTPUT, SINGLE_SCREEN), vec![Injection::KeyDown { scan: 0x4d, extended: true }]);
    e.phase = PHASE_CANCELLED;
    assert_eq!(resolve(&e, OUTPUT, SINGLE_SCREEN), vec![Injection::KeyUp { scan: 0x4d, extended: true }]);
    e.keycode = 0xffff;
    assert!(resolve(&e, OUTPUT, SINGLE_SCREEN).is_empty());
    e.kind = KIND_TEXT;
    e.phase = PHASE_BEGAN;
    e.keycode = 0xd83d;
    assert_eq!(resolve(&e, OUTPUT, SINGLE_SCREEN), vec![Injection::Unicode(0xd83d)]);
    e.phase = PHASE_ENDED;
    assert!(resolve(&e, OUTPUT, SINGLE_SCREEN).is_empty());
    e.kind = KIND_HOVER;
    e.phase = PHASE_MOVED;
    e.buttons = 7;
    assert_eq!(resolve(&e, OUTPUT, SINGLE_SCREEN), vec![Injection::MoveAbs { x: 0, y: 0 }]);
    e.kind = KIND_MOUSE_ABS;
    e.buttons = 4;
    e.phase = PHASE_BEGAN;
    assert_eq!(resolve(&e, OUTPUT, SINGLE_SCREEN)[1], Injection::MiddleDown { x: 0, y: 0 });
    e.phase = PHASE_ENDED;
    assert_eq!(resolve(&e, OUTPUT, SINGLE_SCREEN)[1], Injection::MiddleUp { x: 0, y: 0 });
    e.kind = KIND_KEY;
    e.event_id = 99;
    let mut deduper = EventDeduper::default();
    assert!(deduper.accept(&e));
    assert!(!deduper.accept(&e));
}

#[test]
fn held_inputs_release_once_after_disconnect() {
    let mut held = HeldInputs::default();
    held.record(&[
        Injection::KeyDown { scan: 0x1d, extended: false },
        Injection::KeyDown { scan: 0x1d, extended: false },
        Injection::KeyDown { scan: 0x2e, extended: false },
        Injection::KeyUp { scan: 0x2e, extended: false },
        Injection::MoveAbs { x: 123, y: 456 },
        Injection::MiddleDown { x: 123, y: 456 },
    ]);
    assert_eq!(
        held.release(),
        vec![Injection::KeyUp { scan: 0x1d, extended: false }, Injection::MiddleUp { x: 123, y: 456 }]
    );
    assert!(held.release().is_empty());
}

#[test]
fn held_keys_release_in_ascending_key_order() {
    let mut held = HeldInputs::default();
    held.record(&[
        Injection::KeyDown { scan: 0x38, extended: true },
        Injection::KeyDown { scan: 0x1d, extended: false },
        Injection::KeyDown { scan: 0x38, extended: false },
        Injection::LeftDown { x: 1, y: 2 },
        Injection::RightDown { x: 1, y: 2 },
        Injection::Pen(PenSample { phase: PenPhase::Hover, x: 4, y: 5, pressure: 0, tilt_x: 0, tilt_y: 0 }),
    ]);
    assert_eq!(
        held.release(),
        vec![
            Injection::KeyUp { scan: 0x1d, extended: false },
            Injection::KeyUp { scan: 0x38, extended: false },
            Injection::KeyUp { scan: 0x38, extended: true },
            Injection::LeftUp { x: 0, y: 0 },
            Injection::RightUp { x: 0, y: 0 },
            Injection::Pen(PenSample { phase: PenPhase::Leave, x: 4, y: 5, pressure: 0, tilt_x: 0, tilt_y: 0 }),
        ]
    );
}

#[test]
fn scroll_delta_is_three_wheel_units_per_pixel() {
    assert_eq!(scroll_to_wheel(-40), -120);
    assert_eq!(scroll_to_wheel(i16::MAX), 98_301);
    assert_eq!(desktop_pixel_to_abs(-5, 5000, SINGLE_SCREEN), (0, 65_535));
}

fn check(pid: u32, cursor: (i32, i32), batch: &[Injection]) -> bool {
    permits(
        42,
        pid,
        CaptureGeometry { left: 100, top: 100, width: 1720, height: 880 },
        VirtualScreen { left: 0, top: 0, width: 1920, height: 1080 },
        cursor,
        batch,
    )
}

#[test]
fn rejects_focus_changes_outside_points_and_shortcuts() {
    assert!(!check(43, (960, 540), &[Injection::Unicode(72)]));
    assert!(!check(42, (960, 540), &[Injection::LeftDown { x: 0, y: 0 }]));
    assert!(!check(42, (0, 0), &[Injection::Wheel { delta: 120 }]));
    assert!(!check(42, (960, 540), &[Injection::KeyDown { scan: 91, extended: true }]));
    assert!(!check(42, (960, 540), &[Injection::Unicode(65)]));
}

#[test]
fn accepts_contained_gestures_and_probe_text() {
    assert!(check(
        42,
        (0, 0),
        &[
            Injection::MoveAbs { x: 32768, y: 32768 },
            Injection::LeftDown { x: 32768, y: 32768 },
            Injection::LeftUp { x: 32768, y: 32768 },
            Injection::Wheel { delta: 120 },
            Injection::Unicode(72),
            Injection::Unicode(105),
            Injection::Unicode(33),
            Injection::KeyDown { scan: 28, extended: false },
            Injection::KeyUp { scan: 28, extended: false },
        ]
    ));
}

#[test]
fn the_idle_process_never_has_permission() {
    assert!(!permits(
        0,
        0,
        CaptureGeometry { left: 0, top: 0, width: 10, height: 10 },
        VirtualScreen { left: 0, top: 0, width: 10, height: 10 },
        (1, 1),
        &[]
    ));
}

#[test]
fn the_recorder_keeps_batches_in_order_until_taken() {
    let mut recorder = Recorder::new();
    recorder.record(&[Injection::Unicode(1)]);
    recorder.record(&[Injection::Unicode(2), Injection::Wheel { delta: 3 }]);
    assert_eq!(recorder.peek(), vec![Injection::Unicode(1), Injection::Unicode(2), Injection::Wheel { delta: 3 }]);
    assert_eq!(recorder.take().len(), 3);
    assert!(recorder.peek().is_empty());
}

#[test]
fn the_widest_output_maps_its_corners() {
    let output = CaptureGeometry { left: i32::MIN, top: -5, width: u32::MAX, height: 100 };
    assert_eq!(norm_to_output_pixel(0, 0, output), (i32::MIN, -5));
    assert_eq!(norm_to_output_pixel(65_535, 65_535, output), (i32::MAX - 1, 94));
}
