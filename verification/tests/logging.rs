use eternal_monitor::logging::{
    interface_bucket, recent_log_text, LineAssembler, LogBuffer, MdnsDedupFilter,
    LOG_BUFFER_LIMIT, OUTPUT_BUFFER_LIMIT,
};

fn buffer_of(lines: &[&str]) -> LogBuffer {
    let mut buffer = LogBuffer::new();
    for line in lines {
        buffer.push(line.to_string());
    }
    buffer
}

#[test]
fn log_buffer_keeps_the_newest_lines() {
    let mut buffer = LogBuffer::new();
    for line in 0..OUTPUT_BUFFER_LIMIT * 2 {
        buffer.push(format!("line {line}"));
    }
    assert_eq!(buffer.len(), LOG_BUFFER_LIMIT);
    assert_eq!(buffer.last().unwrap(), format!("line {}", OUTPUT_BUFFER_LIMIT * 2 - 1));
    let text = recent_log_text(&buffer, LOG_BUFFER_LIMIT).unwrap();
    assert!(text.starts_with(&format!("line {}\n", OUTPUT_BUFFER_LIMIT * 2 - LOG_BUFFER_LIMIT)));
}

#[test]
fn recent_log_text_joins_the_last_lines() {
    assert_eq!(recent_log_text(&LogBuffer::new(), 5), None);
    let buffer = buffer_of(&["a", "b", "c"]);
    assert_eq!(recent_log_text(&buffer, 2).unwrap(), "b\nc");
    assert_eq!(recent_log_text(&buffer, 0).unwrap(), "c");
    assert_eq!(recent_log_text(&buffer, 10).unwrap(), "a\nb\nc");
}

#[test]
fn written_bytes_become_lines_without_their_endings() {
    let mut log = LogBuffer::new();
    let mut assembler = LineAssembler::new();
    let lines = assembler.write(b"first\nlast\r\n\npartial", &mut log);
    assert_eq!(lines, vec!["first".to_string(), "last".to_string()]);
    assert_eq!(log.len(), 2);
    assert_eq!(assembler.push_line(&mut log), Some("partial".to_string()));
    assert_eq!(recent_log_text(&log, 10).unwrap(), "first\nlast\npartial");
    assert_eq!(assembler.push_line(&mut log), None);
    assert_eq!(log.len(), 3);
}

#[test]
fn invalid_utf8_is_replaced_not_dropped() {
    let mut log = LogBuffer::new();
    let mut assembler = LineAssembler::new();
    let lines = assembler.write(b"a\xffb\n", &mut log);
    assert_eq!(lines, vec!["a\u{fffd}b".to_string()]);
}

#[test]
fn interface_bucket_prefers_the_named_interface() {
    assert_eq!(
        interface_bucket("Failed to send to 224.0.0.251:5353 on interface: Tailscale, error"),
        "Tailscale"
    );
    assert_eq!(interface_bucket("Failed to send on interface eth0)"), "eth0");
    assert_eq!(interface_bucket("Failed to send to [fe80::1%12]:5353"), "%12");
    assert_eq!(interface_bucket("Failed to send to [fe80::1%]"), "generic");
    assert_eq!(interface_bucket("Failed to send"), "generic");
}

#[test]
fn mdns_filter_lets_the_first_failure_per_interface_through() {
    let mut filter = MdnsDedupFilter::default();
    let eth = "Failed to send on interface eth0, os error 10051";
    let wifi = "Failed to send on interface wlan0, os error 10051";
    assert!(filter.event_enabled("mdns_sd", Some(eth)));
    assert!(!filter.event_enabled("mdns_sd", Some(eth)));
    assert!(filter.event_enabled("mdns_sd", Some(wifi)));
    assert!(!filter.event_enabled("mdns_sd", Some(wifi)));
    assert!(filter.event_enabled("mdns_sd", Some("service resolved")));
    assert!(filter.event_enabled("mdns_sd", None));
    assert!(filter.event_enabled("eternal_host", Some(eth)));
}
