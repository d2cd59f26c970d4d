use eternal_monitor::ui::{accent, format_uptime, mix, surface, text_faint, tint, Dot, Rgb, StreamState};
use eternal_monitor::apple_usb::{is_apple_mobile_device, probe};
use eternal_monitor::text::decimal_text;
use eternal_monitor::ui::{choice_label, friendly_codec, usb_summary, value_or_unknown};

#[test]
fn usb_row_shows_install_hint_only_when_the_service_is_unavailable() {
    let missing = usb_summary(false, 2, "Connected");
    assert!(!missing.available);
    assert_eq!(missing.badge, "Unavailable");
    assert!(missing.text.contains("Install the Apple Devices app from the Microsoft Store (or iTunes) to use USB"));

    let connected = usb_summary(true, 1, "Connected");
    assert!(connected.available);
    assert_eq!(connected.badge, "Connected");
    assert!(!connected.text.contains("Install"));

    // "Waiting for an iPad" must never become a whole label: UI Automation
    // reads that exact name as "no iPad connected".
    let idle = usb_summary(true, 0, "Waiting for an iPad");
    assert_eq!(idle.badge, "Ready");
    assert_ne!(idle.text, "Waiting for an iPad");
    assert!(idle.text.contains("Plug in your iPad"), "{}", idle.text);

    let app_closed = usb_summary(true, 1, "Waiting for the iPad app");
    assert!(app_closed.text.contains("Open EternalMonitor"), "{}", app_closed.text);

    let unknown = usb_summary(true, 2, "Waiting for direct test listener");
    assert_eq!(unknown.text, "Waiting for direct test listener · 2 devices plugged in");
}

#[test]
fn usb_row_counts_devices_in_words() {
    assert_eq!(usb_summary(true, 0, "Idle").text, "Idle · no iPad plugged in");
    assert_eq!(usb_summary(true, 1, "Idle").text, "Idle · 1 device plugged in");
    assert_eq!(usb_summary(true, 1234, "Idle").text, "Idle · 1234 devices plugged in");
    let checking = usb_summary(true, 0, "Checking Apple device service");
    assert_eq!(checking.badge, "Checking");
    assert_eq!(checking.text, "Checking for Apple's device service…");
}

#[test]
fn codec_names_read_as_codec_and_engine() {
    assert_eq!(friendly_codec("h264_nvenc"), "H.264 · NVENC");
    assert_eq!(friendly_codec("hevc_amf"), "HEVC · AMF");
    assert_eq!(friendly_codec("h264_qsv"), "H.264 · Quick Sync");
    assert_eq!(friendly_codec("libx264"), "H.264 · CPU");
    assert_eq!(friendly_codec("libx265"), "HEVC · CPU");
    assert_eq!(friendly_codec("h264_videotoolbox"), "H.264 · VideoToolbox");
    assert_eq!(friendly_codec(""), "Detecting encoder");
    assert_eq!(friendly_codec("mystery"), "mystery");
}

#[test]
fn codec_names_ignore_ascii_case() {
    assert_eq!(friendly_codec("HEVC_NVENC"), "HEVC · NVENC");
    assert_eq!(friendly_codec("LibX264"), "H.264 · CPU");
}

#[test]
fn labels_and_placeholders() {
    assert_eq!(value_or_unknown(""), "Unknown");
    assert_eq!(value_or_unknown("iPad Pro"), "iPad Pro");
    assert_eq!(choice_label("QSV"), "Intel Quick Sync");
    assert_eq!(choice_label("x264"), "x264 (CPU)");
    assert_eq!(choice_label("Custom"), "Custom");
    assert_eq!(decimal_text(0), "0");
    assert_eq!(decimal_text(907), "907");
    assert_eq!(decimal_text(usize::MAX), usize::MAX.to_string());
}

#[test]
fn counts_only_the_attached_iphone_or_ipad_itself() {
    // Captured on the reference PC with an iPad Pro on the cable.
    assert!(is_apple_mobile_device(r"USB\VID_05AC&PID_12AB\00008112000625DA2E23C01E"));
    assert!(!is_apple_mobile_device(r"USB\VID_05AC&PID_12AB&MI_00\9&41CBFE6&0&0000"));
    assert!(!is_apple_mobile_device(r"USB\VID_05AC&PID_12AB&MI_01\9&41CBFE6&0&0001"));
    assert!(is_apple_mobile_device(r"usb\vid_05ac&pid_12a8\serial"));
    // An Apple keyboard, another vendor's device and non-USB buses.
    assert!(!is_apple_mobile_device(r"USB\VID_05AC&PID_0267\5&1234"));
    assert!(!is_apple_mobile_device(r"USB\VID_046D&PID_12AB\serial"));
    assert!(!is_apple_mobile_device(r"HID\VID_05AC&PID_12AB\serial"));
    assert!(!is_apple_mobile_device(r"USB\VID_05AC&PID_12"));
    assert!(!is_apple_mobile_device("USB"));
}

#[test]
fn probe_counts_mobile_devices_and_reports_the_app() {
    let ids = vec![
        r"USB\VID_05AC&PID_12AB\00008112000625DA2E23C01E".to_string(),
        r"USB\VID_05AC&PID_12AB&MI_00\9&41CBFE6&0&0000".to_string(),
        r"USB\VID_05AC&PID_12A8\serial".to_string(),
        r"USB\VID_046D&PID_C52B\6&1".to_string(),
    ];
    let state = probe(&ids, true);
    assert_eq!(state.cabled_devices, 2);
    assert!(state.apple_devices_installed);
    assert_eq!(probe(&[], false).cabled_devices, 0);
}

#[test]
fn uptime_switches_to_hours_after_an_hour() {
    assert_eq!(format_uptime(0), "0m 00s");
    assert_eq!(format_uptime(75), "1m 15s");
    assert_eq!(format_uptime(3 * 3600 + 125), "3h 02m");
}

#[test]
fn state_colors_mix_toward_the_accent() {
    assert_eq!(mix(surface(), accent(), 0), surface());
    assert_eq!(mix(surface(), accent(), 100), accent());
    let black = Rgb { r: 0, g: 0, b: 0 };
    let white = Rgb { r: 255, g: 255, b: 255 };
    let halfway = mix(black, white, 50);
    assert_eq!((halfway.r, halfway.g, halfway.b), (128, 128, 128));
}

#[test]
fn stream_state_follows_the_pipeline_and_the_client() {
    assert_eq!(StreamState::of(false, true), StreamState::Off);
    assert_eq!(StreamState::of(true, false), StreamState::Ready);
    assert_eq!(StreamState::of(true, true), StreamState::Streaming);
    assert_eq!(StreamState::Off.dot(), Dot::Idle);
    assert_eq!(StreamState::Streaming.dot(), Dot::Live);
    assert_eq!(StreamState::Off.color(), text_faint());
    assert_eq!(StreamState::Ready.color(), accent());
    let t = tint(accent());
    assert_eq!((t.r, t.g, t.b), (37, 39, 25));
}
