use eternal_monitor::link::IpAddress;
use eternal_monitor::pairing::{code_from_draw, new_token, parse_token, token_hex, Pairing, RateLimiter, MAX_IPS, WINDOW_US};

const SECOND: u64 = 1_000_000;

fn ip(a: u8, b: u8, c: u8, d: u8) -> IpAddress {
    IpAddress::V4(u32::from_be_bytes([a, b, c, d]))
}

#[test]
fn token_parser_and_generated_credentials() {
    let token = new_token().unwrap();
    assert_eq!(parse_token(&token_hex(&token)), Some(token));
    assert_eq!(parse_token(&token_hex(&token).to_uppercase()), Some(token));
    for bad in ["", "00", "00000000000000000000000000000000", "gggggggggggggggggggggggggggggggg", "éééééééééééééééé"] {
        assert!(parse_token(bad).is_none());
    }
    let mut pairing = Pairing::new(true, token).unwrap();
    let code = pairing.code();
    assert!((1..=999_999).contains(&code));
    pairing.regenerate_token().unwrap();
    assert_ne!(pairing.token(), token);
    assert_ne!(pairing.code(), code);
}

#[test]
fn failures_are_per_ip_and_bans_expire_without_extension() {
    let mut limiter = RateLimiter::new();
    let addr = ip(192, 0, 2, 1);
    let other = ip(192, 0, 2, 2);
    let start: u64 = 1_000 * SECOND;
    for second in 0..4 {
        assert!(!limiter.fail(addr, start + second * SECOND));
    }
    assert!(!limiter.blocked(addr, start + 4 * SECOND));
    assert!(limiter.fail(addr, start + 4 * SECOND));
    assert!(!limiter.blocked(other, start + 5 * SECOND));
    assert!(limiter.blocked(addr, start + 63 * SECOND));
    assert!(!limiter.fail(addr, start + 63 * SECOND));
    assert!(!limiter.blocked(addr, start + 64 * SECOND));
    for _ in 0..4 {
        assert!(!limiter.fail(addr, start + 64 * SECOND));
    }
    assert!(limiter.fail(addr, start + 64 * SECOND));
}

#[test]
fn unexpired_limits_survive_address_flood_and_partial_windows_expire() {
    let mut limiter = RateLimiter::new();
    let start: u64 = 1_000 * SECOND;
    let addr = ip(192, 0, 2, 1);
    for _ in 0..5 {
        limiter.fail(addr, start);
    }
    for n in 0..1024u128 {
        limiter.fail(IpAddress::V6(n), start);
    }
    assert_eq!(limiter.entry_count(), MAX_IPS);
    assert!(limiter.blocked(addr, start));
    assert!(limiter.blocked(ip(198, 51, 100, 1), start));
    let later = start + WINDOW_US;
    assert!(!limiter.blocked(addr, later));
    assert_eq!(limiter.entry_count(), 0);
    for _ in 0..4 {
        assert!(!limiter.fail(addr, later));
    }
    assert!(!limiter.fail(addr, later + WINDOW_US));
}

#[test]
fn tokens_are_lower_case_hex_and_codes_read_with_six_digits() {
    let token = [0x01, 0x23, 0x45, 0x67, 0x89, 0xAB, 0xCD, 0xEF, 0, 0, 0, 0, 0, 0, 0xFE, 0x10];
    assert_eq!(token_hex(&token), "0123456789abcdef000000000000fe10");
    assert_eq!(parse_token("0123456789ABCDEF000000000000FE10"), Some(token));
    let pairing = Pairing::new(false, token).unwrap();
    let text = pairing.code_text();
    assert_eq!(text.len(), 6);
    assert_eq!(text.parse::<u32>().unwrap(), pairing.code());
    assert_eq!(pairing.ack_token(), [0; 16]);
}

#[test]
fn a_draw_maps_to_a_six_digit_code_without_bias_or_repeats() {
    assert_eq!(code_from_draw(0, 7), Some(1));
    assert_eq!(code_from_draw(999_998, 7), Some(999_999));
    assert_eq!(code_from_draw(999_999, 7), Some(1));
    assert_eq!(code_from_draw(6, 7), None);
    let limit = u32::MAX - u32::MAX % 999_999;
    assert_eq!(code_from_draw(limit - 1, 0), Some((limit - 1) % 999_999 + 1));
    assert_eq!(code_from_draw(limit, 0), None);
    assert_eq!(code_from_draw(u32::MAX, 0), None);
}

#[test]
fn each_token_byte_becomes_two_lower_case_digits_high_first() {
    assert_eq!(token_hex(&[0xAB; 16]), "ab".repeat(16));
    let mut token = [0u8; 16];
    token[0] = 0x0F;
    token[15] = 0xF0;
    let text = token_hex(&token);
    assert_eq!(text.len(), 32);
    assert_eq!(&text[0..2], "0f");
    assert_eq!(&text[30..32], "f0");
}
