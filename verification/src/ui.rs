//! What the window says: the status texts and labels the interface shows,
//! and the vocabulary its widgets are drawn from. Drawing itself belongs to
//! the application.

use vstd::prelude::*;
use crate::text::{
    contains_seq, decimal, decimal_padded, decimal_padded_text, decimal_text, decimal_text_u64, lower_ascii, lower_contains, lower_starts_with, starts_with_seq,
    str_eq,
};

verus! {

/// Line icons of the interface.
#[derive(Clone, Copy, Debug, PartialEq, Eq, Structural)]
pub enum Icon {
    Display,
    Activity,
    Sliders,
    Qr,
    Copy,
    Check,
    Refresh,
    Stop,
    Play,
    Plug,
    Speaker,
    Lock,
    Tablet,
    Warning,
    External,
    Logs,
    Download,
    Chevron,
}

/// Button emphasis.
#[derive(Clone, Copy, Debug, PartialEq, Eq, Structural)]
pub enum Tone {
    Primary,
    Secondary,
    Danger,
    Plain,
}

/// Status dot styles.
#[derive(Clone, Copy, Debug, PartialEq, Eq, Structural)]
pub enum Dot {
    /// Solid with a halo: something is live.
    Live,
    /// A ring: ready and listening.
    Ready,
    /// Solid, no halo: idle.
    Idle,
}

/// What the USB row says, its badge, and whether USB can work at all.
pub struct UsbSummary {
    pub text: String,
    pub badge: &'static str,
    pub available: bool,
}

/// How many devices are on the cable, in words.
pub open spec fn plugged_text(devices: nat) -> Seq<char> {
    if devices == 0 {
        "no iPad plugged in"@
    } else if devices == 1 {
        "1 device plugged in"@
    } else {
        decimal(devices) + " devices plugged in"@
    }
}

/// The USB row for a link state: its text and badge.
pub open spec fn usb_row(devices: nat, link_state: Seq<char>) -> (Seq<char>, Seq<char>) {
    if link_state == "Connected"@ {
        ("An iPad is streaming over the cable."@, "Connected"@)
    } else if link_state == "Waiting for the iPad app"@ {
        ("iPad plugged in. Open EternalMonitor on it to connect."@, "Ready"@)
    } else if link_state == "Waiting for an iPad"@ {
        ("Plug in your iPad to connect over USB."@, "Ready"@)
    } else if link_state == "Checking Apple device service"@ {
        ("Checking for Apple's device service…"@, "Checking"@)
    } else {
        (link_state + " · "@ + plugged_text(devices), "Ready"@)
    }
}

pub open spec fn install_hint() -> Seq<char> {
    "Install the Apple Devices app from the Microsoft Store (or iTunes) to use USB."@
}

/// What the USB row says. The install hint appears only when Apple's device
/// service cannot be reached.
pub fn usb_summary(reachable: bool, devices: usize, link_state: &str) -> (s: UsbSummary)
    ensures
        !reachable ==> s.text@ == install_hint() && s.badge@ == "Unavailable"@ && !s.available,
        reachable ==> (s.text@, s.badge@) == usb_row(devices as nat, link_state@) && s.available,
{
    if !reachable {
        return UsbSummary { text: String::from_str("Install the Apple Devices app from the Microsoft Store (or iTunes) to use USB."), badge: "Unavailable", available: false };
    }
    let (text, badge) = if str_eq(link_state, "Connected") {
        (String::from_str("An iPad is streaming over the cable."), "Connected")
    } else if str_eq(link_state, "Waiting for the iPad app") {
        (String::from_str("iPad plugged in. Open EternalMonitor on it to connect."), "Ready")
    } else if str_eq(link_state, "Waiting for an iPad") {
        (String::from_str("Plug in your iPad to connect over USB."), "Ready")
    } else if str_eq(link_state, "Checking Apple device service") {
        (String::from_str("Checking for Apple's device service…"), "Checking")
    } else {
        let plugged = if devices == 0 {
            String::from_str("no iPad plugged in")
        } else if devices == 1 {
            String::from_str("1 device plugged in")
        } else {
            let n = decimal_text(devices);
            n.concat(" devices plugged in")
        };
        let mut text = String::from_str(link_state);
        text.append(" · ");
        text.append(plugged.as_str());
        (text, "Ready")
    };
    UsbSummary { text, badge, available: true }
}

/// The engine an encoder name reveals, if any.
pub open spec fn codec_engine(lower: Seq<char>) -> Option<Seq<char>> {
    if contains_seq(lower, "nvenc"@) {
        Some("NVENC"@)
    } else if contains_seq(lower, "amf"@) {
        Some("AMF"@)
    } else if contains_seq(lower, "qsv"@) {
        Some("Quick Sync"@)
    } else if contains_seq(lower, "videotoolbox"@) {
        Some("VideoToolbox"@)
    } else if starts_with_seq(lower, "lib"@) {
        Some("CPU"@)
    } else {
        None
    }
}

/// How an encoder name reads: codec and engine, such as `h264_nvenc` as
/// `H.264 · NVENC` and `libx264` as `H.264 · CPU`; a name that reveals no
/// engine reads as itself.
pub open spec fn friendly_codec_spec(name: Seq<char>) -> Seq<char> {
    let lower = lower_ascii(name);
    let codec = if contains_seq(lower, "hevc"@) || contains_seq(lower, "265"@) { "HEVC"@ } else { "H.264"@ };
    if name.len() == 0 {
        "Detecting encoder"@
    } else {
        match codec_engine(lower) {
            Some(engine) => codec + " · "@ + engine,
            None => name,
        }
    }
}

pub fn friendly_codec(name: &str) -> (s: String)
    ensures
        s@ == friendly_codec_spec(name@),
{
    if name.unicode_len() == 0 {
        return String::from_str("Detecting encoder");
    }
    let codec = if lower_contains(name, "hevc") || lower_contains(name, "265") { "HEVC" } else { "H.264" };
    let engine = if lower_contains(name, "nvenc") {
        "NVENC"
    } else if lower_contains(name, "amf") {
        "AMF"
    } else if lower_contains(name, "qsv") {
        "Quick Sync"
    } else if lower_contains(name, "videotoolbox") {
        "VideoToolbox"
    } else if lower_starts_with(name, "lib") {
        "CPU"
    } else {
        return String::from_str(name);
    };
    let mut s = String::from_str(codec);
    s.append(" · ");
    s.append(engine);
    s
}

/// A value to show, or `Unknown` where there is none.
pub fn value_or_unknown<'a>(value: &'a str) -> (s: &'a str)
    ensures
        value@.len() == 0 ==> s@ == "Unknown"@,
        value@.len() != 0 ==> s@ == value@,
{
    if value.unicode_len() == 0 {
        "Unknown"
    } else {
        value
    }
}

/// The menu label for an encoder or capture choice.
pub open spec fn choice_label_spec(label: Seq<char>) -> Seq<char> {
    if label == "Auto"@ {
        "Automatic"@
    } else if label == "NVENC"@ {
        "NVIDIA NVENC"@
    } else if label == "AMF"@ {
        "AMD AMF"@
    } else if label == "QSV"@ {
        "Intel Quick Sync"@
    } else if label == "x264"@ {
        "x264 (CPU)"@
    } else {
        label
    }
}

pub fn choice_label(label: &str) -> (s: String)
    ensures
        s@ == choice_label_spec(label@),
{
    if str_eq(label, "Auto") {
        String::from_str("Automatic")
    } else if str_eq(label, "NVENC") {
        String::from_str("NVIDIA NVENC")
    } else if str_eq(label, "AMF") {
        String::from_str("AMD AMF")
    } else if str_eq(label, "QSV") {
        String::from_str("Intel Quick Sync")
    } else if str_eq(label, "x264") {
        String::from_str("x264 (CPU)")
    } else {
        String::from_str(label)
    }
}

/// A colour without transparency.
#[derive(Clone, Copy, Debug, PartialEq, Eq, Structural)]
pub struct Rgb {
    pub r: u8,
    pub g: u8,
    pub b: u8,
}

pub open spec fn rgb(r: u8, g: u8, b: u8) -> Rgb {
    Rgb { r, g, b }
}

/// Card surface.
pub fn surface() -> (c: Rgb)
    ensures
        c == rgb(18, 18, 20),
{
    Rgb { r: 18, g: 18, b: 20 }
}

/// The accent.
pub fn accent() -> (c: Rgb)
    ensures
        c == rgb(232, 255, 71),
{
    Rgb { r: 232, g: 255, b: 71 }
}

/// Text that recedes.
pub fn text_faint() -> (c: Rgb)
    ensures
        c == rgb(113, 113, 122),
{
    Rgb { r: 113, g: 113, b: 122 }
}

/// One channel `percent` of the way from `base` to `color`, rounded half up.
pub open spec fn channel_spec(base: u8, color: u8, percent: u32) -> int {
    (base * (100 - percent) + color * percent + 50) / 100
}

pub fn channel(base: u8, color: u8, percent: u32) -> (c: u8)
    requires
        percent <= 100,
    ensures
        c == channel_spec(base, color, percent),
{
    let keep: u32 = 100 - percent;
    assert((base as u32) * keep <= 255 * 100) by (nonlinear_arith)
        requires
            keep <= 100,
    ;
    assert((color as u32) * percent <= 255 * 100) by (nonlinear_arith)
        requires
            percent <= 100,
    ;
    let total: u32 = (base as u32) * keep + (color as u32) * percent + 50;
    assert(total / 100 <= 255) by (nonlinear_arith)
        requires
            total == base * keep + color * percent + 50,
            keep + percent == 100,
            base <= 255,
            color <= 255,
    ;
    (total / 100) as u8
}

/// `base` mixed `percent` of the way toward `color`.
pub fn mix(base: Rgb, color: Rgb, percent: u32) -> (m: Rgb)
    requires
        percent <= 100,
    ensures
        m.r == channel_spec(base.r, color.r, percent),
        m.g == channel_spec(base.g, color.g, percent),
        m.b == channel_spec(base.b, color.b, percent),
{
    Rgb {
        r: channel(base.r, color.r, percent),
        g: channel(base.g, color.g, percent),
        b: channel(base.b, color.b, percent),
    }
}

/// A state colour as a quiet card fill.
pub fn tint(color: Rgb) -> (m: Rgb)
    ensures
        m == mix_spec(rgb(18, 18, 20), color, 9),
{
    mix(surface(), color, 9)
}

/// A state colour as a card border.
pub fn tint_border(color: Rgb) -> (m: Rgb)
    ensures
        m == mix_spec(rgb(18, 18, 20), color, 28),
{
    mix(surface(), color, 28)
}

pub open spec fn mix_spec(base: Rgb, color: Rgb, percent: u32) -> Rgb {
    Rgb {
        r: channel_spec(base.r, color.r, percent) as u8,
        g: channel_spec(base.g, color.g, percent) as u8,
        b: channel_spec(base.b, color.b, percent) as u8,
    }
}

/// Mixing zero percent keeps the base; mixing all the way gives the colour.
pub proof fn lemma_mix_ends(base: Rgb, color: Rgb)
    ensures
        mix_spec(base, color, 0) == base,
        mix_spec(base, color, 100) == color,
{
    assert(channel_spec(base.r, color.r, 0) == base.r);
    assert(channel_spec(base.g, color.g, 0) == base.g);
    assert(channel_spec(base.b, color.b, 0) == base.b);
    assert(channel_spec(base.r, color.r, 100) == color.r);
    assert(channel_spec(base.g, color.g, 100) == color.g);
    assert(channel_spec(base.b, color.b, 100) == color.b);
}

/// Uptime: `Hh MMm` from an hour on, else `Mm SSs`.
pub open spec fn uptime_spec(total: u64) -> Seq<char> {
    let h = total / 3600;
    let m = (total % 3600) / 60;
    let s = total % 60;
    if h > 0 {
        decimal(h as nat) + seq!['h', ' '] + decimal_padded(m as nat, 2) + seq!['m']
    } else {
        decimal(m as nat) + seq!['m', ' '] + decimal_padded(s as nat, 2) + seq!['s']
    }
}

/// How long the stream has run, from whole seconds.
pub fn format_uptime(total_secs: u64) -> (s: String)
    ensures
        s@ == uptime_spec(total_secs),
{
    let h = total_secs / 3600;
    let m = (total_secs % 3600) / 60;
    let sec = total_secs % 60;
    proof {
        reveal_strlit("h ");
        reveal_strlit("m");
        reveal_strlit("m ");
        reveal_strlit("s");
    }
    if h > 0 {
        let mut s = decimal_text_u64(h);
        s.append("h ");
        s.append(decimal_padded_text(m as u32, 2).as_str());
        s.append("m");
        s
    } else {
        let mut s = decimal_text_u64(m);
        s.append("m ");
        s.append(decimal_padded_text(sec as u32, 2).as_str());
        s.append("s");
        s
    }
}

/// Whether the stream is off, waiting for an iPad, or streaming to one.
#[derive(Clone, Copy, Debug, PartialEq, Eq, Structural)]
pub enum StreamState {
    Off,
    Ready,
    Streaming,
}

impl StreamState {
    /// From whether the pipeline runs and whether a client is connected.
    pub fn of(pipeline_running: bool, client_connected: bool) -> (s: Self)
        ensures
            !pipeline_running ==> s == StreamState::Off,
            pipeline_running && client_connected ==> s == StreamState::Streaming,
            pipeline_running && !client_connected ==> s == StreamState::Ready,
    {
        if !pipeline_running {
            StreamState::Off
        } else if client_connected {
            StreamState::Streaming
        } else {
            StreamState::Ready
        }
    }

    /// The status dot that shows the state.
    pub fn dot(self) -> (d: Dot)
        ensures
            self == StreamState::Off ==> d == Dot::Idle,
            self == StreamState::Ready ==> d == Dot::Ready,
            self == StreamState::Streaming ==> d == Dot::Live,
    {
        match self {
            StreamState::Off => Dot::Idle,
            StreamState::Ready => Dot::Ready,
            StreamState::Streaming => Dot::Live,
        }
    }

    /// The state's colour: faint when off, the accent otherwise.
    pub fn color(self) -> (c: Rgb)
        ensures
            self == StreamState::Off ==> c == rgb(113, 113, 122),
            self != StreamState::Off ==> c == rgb(232, 255, 71),
    {
        match self {
            StreamState::Off => text_faint(),
            _ => accent(),
        }
    }
}

} // verus!
