use eternal_monitor::audio::SyntheticSource;
use eternal_monitor::audio::{
    silence_span, AudioDecision, AudioPacket, AudioSender, ChannelLayout, PcmFormat, SampleEncoding, SessionPacket,
};
use eternal_monitor::control::{ControlMessage, Hello2, CAP_DECODE_H264, FEATURE_WANTS_AUDIO, StreamConfig};
use eternal_monitor::encoder_input::{select_input, EncoderInput, PixelFormat};
use eternal_monitor::link::{IpAddress, PeerId, SocketAddress};
use eternal_monitor::session::{HostConfig, Session};
use eternal_monitor::wire::{AudioHeader, MAX_DGRAM_SIZE};

#[test]
fn idle_silence_tracks_coarse_waits_without_clock_drift() {
    for rate in [44_100u32, 48_000, 96_000] {
        let mut represented: u64 = 0;
        let mut frames: usize = 0;
        for tick in 1..=64u64 {
            let wall = 31_250_000 * tick;
            let (count, span) = silence_span(rate, wall - represented);
            represented += span;
            frames += count;
        }
        assert!((frames as i64 - i64::from(rate) * 2).abs() <= 1);
        assert!(2_000_000_000 - represented < 25_000);
        assert_eq!(silence_span(rate, 5_000_000_000).0, rate as usize / 10);
    }
}

#[test]
fn sample_sizes_and_channel_layouts() {
    assert_eq!(SampleEncoding::Pcm16.bytes(), 2);
    assert_eq!(SampleEncoding::Pcm24.bytes(), 3);
    assert_eq!(SampleEncoding::Pcm32.bytes(), 4);
    assert_eq!(SampleEncoding::Float32.bytes(), 4);
    assert_eq!(PcmFormat::stereo_48k().layout(), Ok(ChannelLayout { channels: 2, speaker_mask: Some(3) }));
    assert_eq!(
        PcmFormat { rate: 44_100, channels: 1, channel_mask: 0 }.layout(),
        Ok(ChannelLayout { channels: 1, speaker_mask: None })
    );
    assert!(PcmFormat { rate: 7_999, channels: 2, channel_mask: 3 }.layout().is_err());
    assert!(PcmFormat { rate: 48_000, channels: 9, channel_mask: 0 }.layout().is_err());
    assert_eq!(
        PcmFormat { rate: 48_000, channels: 2, channel_mask: 0b111 }.layout(),
        Err("audio channel mask disagrees with channel count")
    );
}

fn session(caps: u16) -> (Session, u32) {
    let config = HostConfig {
        stream_config: StreamConfig { stream_epoch: 7, width: 640, height: 360, fps: 60, codec: 0, flags: 0, bitrate_bps: 15_000_000 },
        host_name: "audio host".to_string(),
        host_caps: 0,
    };
    let peer = PeerId::udp(SocketAddress { ip: IpAddress::V4(0x7F00_0001), port: 19891 });
    let mut session = Session::new(99);
    session.handle_control(
        peer,
        0,
        ControlMessage::Hello2(Hello2 {
            proto_min: 2,
            proto_max: 2,
            client_nonce: 1,
            listen_port: 19891,
            decoder_caps: CAP_DECODE_H264,
            feature_caps: caps,
            screen_px_w: 640,
            screen_px_h: 360,
            screen_pt_w: 640,
            screen_pt_h: 360,
            refresh_hz: 60,
            device_name: "audio test".into(),
            device_id: 11,
            preferred_fps: 60,
            auth_token: [0; 16],
            pairing_code: 0,
        }),
        &config,
        &mut None,
        1_000,
    );
    let id = session.session_id().unwrap();
    (session, id)
}

fn packet(id: u32, time: u64) -> SessionPacket {
    SessionPacket { session_id: id, packet: AudioPacket { seq: 3, capture_ts_us: time, discontinuity: false, opus: vec![0xF8, 0xFF, 0xFE] } }
}

fn prepare(sender: &mut AudioSender, queued: SessionPacket, session: &Session, enabled: bool, epoch: u32, now: u64) -> Option<Vec<u8>> {
    match sender.prepare(&queued, enabled, session.audio_session_id(), session.peer(), epoch, now, MAX_DGRAM_SIZE) {
        AudioDecision::Send(peer, bytes) => {
            assert_eq!(Some(peer), session.peer());
            Some(bytes)
        }
        _ => None,
    }
}

#[test]
fn audio_requires_both_peers_and_the_current_session_and_epoch() {
    let mut sender = AudioSender::new();
    let (legacy, id) = session(0);
    assert!(legacy.audio_session_id().is_none());
    assert!(prepare(&mut sender, packet(id, 100), &legacy, true, 7, 100).is_none());
    let (shared, id) = session(FEATURE_WANTS_AUDIO);
    assert_eq!(shared.audio_session_id(), Some(id));
    assert!(prepare(&mut sender, packet(id, 100), &shared, false, 7, 100).is_none());
    assert!(prepare(&mut sender, packet(id + 1, 100), &shared, true, 7, 100).is_none());
    let bytes = prepare(&mut sender, packet(id, 100), &shared, true, 7, 100).unwrap();
    assert!(AudioHeader::decode(&bytes).unwrap().0.discontinuity);
    sender.sent(id, 7);
    let bytes = prepare(&mut sender, packet(id, 100), &shared, true, 7, 100).unwrap();
    assert!(!AudioHeader::decode(&bytes).unwrap().0.discontinuity);
    let bytes = prepare(&mut sender, packet(id, 100), &shared, true, 8, 100).unwrap();
    assert!(AudioHeader::decode(&bytes).unwrap().0.discontinuity);
    assert!(matches!(
        sender.prepare(&packet(id, 100), true, shared.audio_session_id(), shared.peer(), 7, 100_101, MAX_DGRAM_SIZE),
        AudioDecision::Drop
    ));
    let bytes = prepare(&mut sender, packet(id, 100_101), &shared, true, 7, 100_101).unwrap();
    assert!(AudioHeader::decode(&bytes).unwrap().0.discontinuity);
}

#[test]
fn oversized_datagrams_are_dropped_and_mark_the_next_packet() {
    let (shared, id) = session(FEATURE_WANTS_AUDIO);
    let mut sender = AudioSender::new();
    sender.sent(id, 7);
    assert!(matches!(
        sender.prepare(&packet(id, 100), true, shared.audio_session_id(), shared.peer(), 7, 100, 20),
        AudioDecision::Drop
    ));
    let bytes = prepare(&mut sender, packet(id, 100), &shared, true, 7, 100).unwrap();
    assert!(AudioHeader::decode(&bytes).unwrap().0.discontinuity);
    sender.send_failed();
    let bytes = prepare(&mut sender, packet(id, 100), &shared, true, 7, 100).unwrap();
    assert!(AudioHeader::decode(&bytes).unwrap().0.discontinuity);
}

#[test]
fn advertised_formats_control_native_input_and_software_stays_yuv() {
    let formats = [PixelFormat::Yuv420p, PixelFormat::Bgrz, PixelFormat::Bgra];
    assert_eq!(select_input(EncoderInput::Auto, "h264_nvenc", &formats), Ok(PixelFormat::Bgra));
    assert_eq!(select_input(EncoderInput::Auto, "h264_amf", &[PixelFormat::Bgrz]), Ok(PixelFormat::Bgrz));
    assert_eq!(select_input(EncoderInput::Auto, "h264_qsv", &[PixelFormat::Nv12]), Ok(PixelFormat::Yuv420p));
    assert_eq!(select_input(EncoderInput::Auto, "unknown", &[]), Ok(PixelFormat::Yuv420p));
    assert!(select_input(EncoderInput::Bgra, "hevc_amf", &[PixelFormat::Nv12]).is_err());
    assert_eq!(select_input(EncoderInput::Bgra, "libx264", &formats), Ok(PixelFormat::Yuv420p));
    assert_eq!(select_input(EncoderInput::default(), "h264_nvenc", &formats), Ok(PixelFormat::Yuv420p));
    assert_eq!(EncoderInput::from_env("BGRA"), Some(EncoderInput::Bgra));
    assert_eq!(EncoderInput::from_env("mistyped"), None);
}

#[test]
fn encoder_input_setting_ignores_case_and_surrounding_space() {
    assert_eq!(EncoderInput::from_env("  Auto\n"), Some(EncoderInput::Auto));
    assert_eq!(EncoderInput::from_env("\u{3000}YUV420P\t"), Some(EncoderInput::Yuv420));
    assert_eq!(EncoderInput::from_env("yuv 420"), None);
    assert_eq!(EncoderInput::from_env(""), None);
}

fn tone_sample(phase: Option<u8>) -> f32 {
    match phase {
        None => 0.0,
        Some(p) => {
            let angle = p as f64 * std::f64::consts::TAU / 48.0;
            (10.0_f64.powf(-12.0 / 20.0) * angle.sin()) as f32
        }
    }
}

fn tone_db(samples: &[f32], frequency: f64) -> f64 {
    let omega = std::f64::consts::TAU * frequency / 48_000.0;
    let mut re = 0.0;
    let mut im = 0.0;
    for (index, &sample) in samples.iter().enumerate() {
        re += f64::from(sample) * (omega * index as f64).cos();
        im += f64::from(sample) * (omega * index as f64).sin();
    }
    20.0 * (2.0 * re.hypot(im) / samples.len() as f64).max(1e-12).log10()
}

#[test]
fn tone_level_frequency_and_silence_are_sample_exact() {
    let mut source = SyntheticSource::default();
    let pcm: Vec<(f32, f32)> = source
        .read_phases(96_000)
        .into_iter()
        .map(|p| (tone_sample(p), tone_sample(p)))
        .collect();
    assert!(pcm.iter().all(|(left, right)| left == right));
    let left: Vec<_> = pcm[..4800].iter().map(|&(left, _)| left).collect();
    assert!((tone_db(&left, 1000.0) + 12.0).abs() < 0.01);
    assert!(tone_db(&left, 900.0) < -80.0);
    assert!(pcm[91_200..].iter().all(|&value| value == (0.0, 0.0)));
    assert!(source
        .read_phases(960)
        .into_iter()
        .any(|p| tone_sample(p).abs() > 0.2));
}

#[test]
fn synthetic_phases_cycle_and_fall_silent_at_the_end_of_each_period() {
    let mut source = SyntheticSource::new();
    let first = source.read_phases(50);
    assert_eq!(first[0], Some(0));
    assert_eq!(first[47], Some(47));
    assert_eq!(first[48], Some(0));
    let _ = source.read_phases(91_200 - 50);
    assert_eq!(source.read_phases(1), vec![None]);
    let _ = source.read_phases(96_000 - 91_201);
    assert_eq!(source.read_phases(1), vec![Some(0)]);
}
