//! Pairing credentials and bounded, clock-injected failed-attempt accounting.
//!
//! A paired client presents the 16-byte token; an unpaired one may present
//! the six-digit code shown on the host, which rotates after every use. Code
//! guesses are rate limited per address.
//!
//! Instants are microsecond readings of one monotonic clock.

use vstd::prelude::*;
use subtle::ConstantTimeEq;
use crate::apple_usb::is_hex_digit;
use crate::control::{Hello2, HelloStatus};
use crate::link::{IpAddress, LinkId, PeerId};

verus! {

#[verifier::external_type_specification]
#[verifier::external_body]
pub struct ExRandomError(getrandom::Error);

/// `getrandom::fill`: fills the buffer from the system's random source, or
/// fails. Only that the buffer keeps its length is claimed.
#[verifier::external_body]
fn fill_random(dest: &mut Vec<u8>) -> (r: Result<(), getrandom::Error>)
    ensures
        final(dest)@.len() == old(dest)@.len(),
{
    getrandom::fill(dest.as_mut_slice())
}

/// `getrandom::Error::UNEXPECTED`, the error for "an unexpected situation
/// which should not happen in practice".
#[verifier::external_body]
fn unexpected_random_error() -> getrandom::Error {
    getrandom::Error::UNEXPECTED
}

/// subtle's `ConstantTimeEq::ct_eq` on two byte slices, read as a `bool`:
/// true exactly when the slices have the same length and the same bytes.
#[verifier::external_body]
fn ct_eq_bytes(a: &[u8], b: &[u8]) -> (r: bool)
    ensures
        r == (a@ == b@),
{
    bool::from(a.ct_eq(b))
}

/// subtle's `ConstantTimeEq::ct_eq` on two `u32`, read as a `bool`: true
/// exactly when they are equal.
#[verifier::external_body]
fn ct_eq_u32(a: u32, b: u32) -> (r: bool)
    ensures
        r == (a == b),
{
    bool::from(a.ct_eq(&b))
}

/// Failed attempts are counted over this window, and a ban lasts as long
/// (microseconds).
pub const WINDOW_US: u64 = 60_000_000;
/// The most addresses tracked one by one; the rest share one bucket.
pub const MAX_IPS: usize = 64;
/// Failures within a window that start a ban.
pub const BAN_FAILURES: u8 = 5;
/// Random draws tried before giving up on a credential.
pub const RANDOM_ATTEMPTS: usize = 64;
/// Codes are 000001..=999999.
pub const CODE_SPAN: u32 = 999_999;

pub open spec fn all_zero(s: Seq<u8>) -> bool {
    forall|i: int| 0 <= i < s.len() ==> s[i] == 0
}

fn is_all_zero(b: &[u8; 16]) -> (r: bool)
    ensures
        r == all_zero(b@),
{
    let mut i: usize = 0;
    while i < 16
        invariant
            b@.len() == 16,
            0 <= i <= 16,
            forall|j: int| 0 <= j < i ==> b@[j] == 0,
        decreases 16 - i,
    {
        if b[i] != 0 {
            return false;
        }
        i = i + 1;
    }
    true
}

fn to_array16(v: &Vec<u8>) -> (a: [u8; 16])
    requires
        v@.len() == 16,
    ensures
        a@ == v@,
{
    let a = [v[0], v[1], v[2], v[3], v[4], v[5], v[6], v[7], v[8], v[9], v[10], v[11], v[12], v[13], v[14], v[15]];
    assert(a@ =~= v@);
    a
}

/// A fresh random token; never all zero.
pub fn new_token() -> (r: Result<[u8; 16], getrandom::Error>)
    ensures
        r is Ok ==> !all_zero(r->Ok_0@),
{
    let mut attempt: usize = 0;
    while attempt < RANDOM_ATTEMPTS
        decreases RANDOM_ATTEMPTS - attempt,
    {
        let mut bytes: Vec<u8> = vec![0u8; 16];
        fill_random(&mut bytes)?;
        let token = to_array16(&bytes);
        if !is_all_zero(&token) {
            return Ok(token);
        }
        attempt = attempt + 1;
    }
    Err(unexpected_random_error())
}

pub open spec fn hex_char(d: u8) -> char {
    if d < 10 { ('0' as int + d) as char } else { ('a' as int + d - 10) as char }
}

/// A byte string in lower-case hexadecimal, two digits per byte.
pub open spec fn hex_spec(bytes: Seq<u8>) -> Seq<char>
    decreases bytes.len(),
{
    if bytes.len() == 0 {
        seq![]
    } else {
        hex_spec(bytes.drop_last()) + seq![hex_char(bytes.last() / 16), hex_char(bytes.last() % 16)]
    }
}

fn hex_digit_str(d: u8) -> (s: &'static str)
    requires
        d < 16,
    ensures
        s@ == seq![hex_char(d)],
{
    proof {
        reveal_strlit("0"); reveal_strlit("1"); reveal_strlit("2"); reveal_strlit("3");
        reveal_strlit("4"); reveal_strlit("5"); reveal_strlit("6"); reveal_strlit("7");
        reveal_strlit("8"); reveal_strlit("9"); reveal_strlit("a"); reveal_strlit("b");
        reveal_strlit("c"); reveal_strlit("d"); reveal_strlit("e"); reveal_strlit("f");
    }
    let s = match d {
        0 => "0", 1 => "1", 2 => "2", 3 => "3", 4 => "4", 5 => "5", 6 => "6", 7 => "7",
        8 => "8", 9 => "9", 10 => "a", 11 => "b", 12 => "c", 13 => "d", 14 => "e", _ => "f",
    };
    assert(s@ =~= seq![hex_char(d)]);
    s
}

/// The token as 32 lower-case hex digits.
pub fn token_hex(token: &[u8; 16]) -> (s: String)
    ensures
        s@ == hex_spec(token@),
{
    let mut s = String::new();
    let mut i: usize = 0;
    while i < 16
        invariant
            token@.len() == 16,
            0 <= i <= 16,
            s@ == hex_spec(token@.take(i as int)),
        decreases 16 - i,
    {
        assert(token@.take(i + 1).drop_last() =~= token@.take(i as int));
        s.append(hex_digit_str(token[i] / 16));
        s.append(hex_digit_str(token[i] % 16));
        i = i + 1;
    }
    assert(token@.take(16) =~= token@);
    s
}

/// The value of a hex digit, in either case.
pub open spec fn hex_value(c: char) -> int {
    if '0' <= c <= '9' {
        c as int - '0' as int
    } else if 'a' <= c <= 'f' {
        c as int - 'a' as int + 10
    } else {
        c as int - 'A' as int + 10
    }
}

/// The bytes 32 hex digits spell.
pub open spec fn hex_bytes(t: Seq<char>) -> Seq<u8> {
    Seq::new(16, |i: int| (hex_value(t[2 * i]) * 16 + hex_value(t[2 * i + 1])) as u8)
}

/// What `parse_token` makes of a text: exactly 32 hex digits in either case
/// spelling a token that is not all zero.
pub open spec fn parse_token_spec(t: Seq<char>) -> Option<Seq<u8>> {
    if t.len() == 32 && (forall|i: int| 0 <= i < 32 ==> #[trigger] is_hex_digit(t[i])) && !all_zero(hex_bytes(t)) {
        Some(hex_bytes(t))
    } else {
        None
    }
}

fn hex_value_exec(c: char) -> (v: u8)
    requires
        is_hex_digit(c),
    ensures
        v == hex_value(c),
        v < 16,
{
    if '0' <= c && c <= '9' {
        (c as u32 - '0' as u32) as u8
    } else if 'a' <= c && c <= 'f' {
        (c as u32 - 'a' as u32 + 10) as u8
    } else {
        (c as u32 - 'A' as u32 + 10) as u8
    }
}

fn is_hex_digit_exec(c: char) -> (r: bool)
    ensures
        r == is_hex_digit(c),
{
    ('0' <= c && c <= '9') || ('a' <= c && c <= 'f') || ('A' <= c && c <= 'F')
}

/// Read a token written as 32 hex digits.
pub fn parse_token(text: &str) -> (r: Option<[u8; 16]>)
    ensures
        match r {
            Some(t) => parse_token_spec(text@) == Some(t@),
            None => parse_token_spec(text@) is None,
        },
{
    let n = text.unicode_len();
    if n != 32 {
        return None;
    }
    let mut i: usize = 0;
    while i < 32
        invariant
            n == text@.len(),
            n == 32,
            0 <= i <= 32,
            forall|j: int| 0 <= j < i ==> #[trigger] is_hex_digit(text@[j]),
        decreases 32 - i,
    {
        if !is_hex_digit_exec(text.get_char(i)) {
            return None;
        }
        i = i + 1;
    }
    let mut bytes: Vec<u8> = Vec::new();
    let mut k: usize = 0;
    while k < 16
        invariant
            n == text@.len(),
            n == 32,
            forall|j: int| 0 <= j < 32 ==> #[trigger] is_hex_digit(text@[j]),
            0 <= k <= 16,
            bytes@ == hex_bytes(text@).take(k as int),
        decreases 16 - k,
    {
        let hi = hex_value_exec(text.get_char(2 * k));
        let lo = hex_value_exec(text.get_char(2 * k + 1));
        bytes.push(hi * 16 + lo);
        assert(bytes@ =~= hex_bytes(text@).take(k + 1));
        k = k + 1;
    }
    assert(bytes@ =~= hex_bytes(text@));
    let token = to_array16(&bytes);
    if is_all_zero(&token) {
        return None;
    }
    Some(token)
}

/// A token written out reads back as itself.
pub proof fn lemma_token_hex_round_trip(token: Seq<u8>)
    requires
        token.len() == 16,
        !all_zero(token),
    ensures
        parse_token_spec(hex_spec(token)) == Some(token),
{
    let t = hex_spec(token);
    lemma_hex_spec_digits(token);
    assert forall|i: int| 0 <= i < 32 implies #[trigger] is_hex_digit(t[i]) by {
        let b = token[i / 2];
        assert(t[i] == if i % 2 == 0 { hex_char(b / 16) } else { hex_char(b % 16) });
    }
    assert(hex_bytes(t) =~= token) by {
        assert forall|i: int| 0 <= i < 16 implies hex_bytes(t)[i] == token[i] by {
            let b = token[i];
            assert(t[2 * i] == hex_char(b / 16));
            assert(t[2 * i + 1] == hex_char(b % 16));
            assert(hex_value(hex_char(b / 16)) == b / 16);
            assert(hex_value(hex_char(b % 16)) == b % 16);
        }
    }
}

/// A token is written as 32 characters, two per byte in order: the high
/// nibble's lower-case hex digit, then the low nibble's.
pub proof fn lemma_token_hex_digits(token: Seq<u8>)
    requires
        token.len() == 16,
    ensures
        hex_spec(token).len() == 32,
        forall|i: int| 0 <= i < 16 ==> #[trigger] hex_spec(token).subrange(2 * i, 2 * i + 2) == seq![
            hex_char(token[i] / 16),
            hex_char(token[i] % 16),
        ],
        forall|d: u8| d < 16 ==> ('0' <= #[trigger] hex_char(d) <= '9' || 'a' <= hex_char(d) <= 'f'),
{
    lemma_hex_spec_digits(token);
    assert forall|i: int| 0 <= i < 16 implies #[trigger] hex_spec(token).subrange(2 * i, 2 * i + 2) == seq![
        hex_char(token[i] / 16),
        hex_char(token[i] % 16),
    ] by {
        assert(hex_spec(token)[2 * i] == hex_char(token[i] / 16));
        assert(hex_spec(token)[2 * i + 1] == hex_char(token[i] % 16));
        assert(hex_spec(token).subrange(2 * i, 2 * i + 2) =~= seq![hex_char(token[i] / 16), hex_char(token[i] % 16)]);
    }
}

proof fn lemma_hex_spec_digits(bytes: Seq<u8>)
    ensures
        hex_spec(bytes).len() == 2 * bytes.len(),
        forall|i: int| 0 <= i < 2 * bytes.len() ==> #[trigger] hex_spec(bytes)[i] == if i % 2 == 0 {
            hex_char(bytes[i / 2] / 16)
        } else {
            hex_char(bytes[i / 2] % 16)
        },
    decreases bytes.len(),
{
    if bytes.len() > 0 {
        lemma_hex_spec_digits(bytes.drop_last());
    }
}

/// One address's failed attempts: since when they are counted, how many,
/// and until when it is banned.
#[derive(Clone, Copy, Debug, PartialEq, Eq, Structural)]
pub struct Attempts {
    pub since: u64,
    pub failures: u8,
    pub blocked_until: Option<u64>,
}

/// `a + b`, saturating at the clock's end.
pub open spec fn sat_add(a: u64, b: u64) -> u64 {
    if a + b > u64::MAX { u64::MAX } else { (a + b) as u64 }
}

/// An entry still matters: its ban runs, or its window is open.
pub open spec fn active(a: Attempts, now: u64) -> bool {
    match a.blocked_until {
        Some(until) => now < until,
        None => now < sat_add(a.since, WINDOW_US),
    }
}

pub open spec fn is_banned(a: Attempts, now: u64) -> bool {
    match a.blocked_until {
        Some(until) => now < until,
        None => false,
    }
}

pub open spec fn fresh_attempts(now: u64) -> Attempts {
    Attempts { since: now, failures: 0, blocked_until: None }
}

/// One more failure: the fifth in a window starts a ban.
pub open spec fn failed_once(a: Attempts, now: u64) -> Attempts {
    let failures = (a.failures + 1) as u8;
    Attempts {
        failures,
        blocked_until: if failures == BAN_FAILURES { Some(sat_add(now, WINDOW_US)) } else { a.blocked_until },
        ..a
    }
}

/// The limiter as the contracts see it: tracked addresses in order of first
/// failure, and the shared bucket.
pub struct LimiterView {
    pub entries: Seq<(IpAddress, Attempts)>,
    pub overflow: Option<Attempts>,
}

pub open spec fn keep_active(entries: Seq<(IpAddress, Attempts)>, now: u64) -> Seq<(IpAddress, Attempts)>
    decreases entries.len(),
{
    if entries.len() == 0 {
        entries
    } else {
        let rest = keep_active(entries.drop_last(), now);
        if active(entries.last().1, now) { rest.push(entries.last()) } else { rest }
    }
}

/// Forget entries whose ban and window are both over.
pub open spec fn pruned(l: LimiterView, now: u64) -> LimiterView {
    LimiterView {
        entries: keep_active(l.entries, now),
        overflow: match l.overflow {
            Some(a) => if active(a, now) { Some(a) } else { None },
            None => None,
        },
    }
}

pub open spec fn tracks(entries: Seq<(IpAddress, Attempts)>, ip: IpAddress) -> bool {
    exists|i: int| 0 <= i < entries.len() && #[trigger] entries[i].0 == ip
}

pub open spec fn slot_of(entries: Seq<(IpAddress, Attempts)>, ip: IpAddress) -> int {
    choose|i: int| 0 <= i < entries.len() && #[trigger] entries[i].0 == ip
}

/// The attempts that judge `ip`: its own entry, else the shared bucket.
pub open spec fn judged_by(l: LimiterView, ip: IpAddress) -> Option<Attempts> {
    if tracks(l.entries, ip) { Some(l.entries[slot_of(l.entries, ip)].1) } else { l.overflow }
}

/// Whether `ip` is banned at `now`, and the limiter after pruning.
pub open spec fn blocked_spec(l: LimiterView, ip: IpAddress, now: u64) -> (bool, LimiterView) {
    let p = pruned(l, now);
    (match judged_by(p, ip) { Some(a) => is_banned(a, now), None => false }, p)
}

/// One failed attempt from `ip`: whether it starts a ban, and the limiter
/// after. An untracked address gets its own entry while fewer than 64 are
/// tracked, else shares the bucket; a live ban is never extended.
pub open spec fn fail_spec(l: LimiterView, ip: IpAddress, now: u64) -> (bool, LimiterView) {
    let p = pruned(l, now);
    if tracks(p.entries, ip) {
        let k = slot_of(p.entries, ip);
        let a = p.entries[k].1;
        if is_banned(a, now) {
            (false, p)
        } else {
            let b = failed_once(a, now);
            (b.failures == BAN_FAILURES, LimiterView { entries: p.entries.update(k, (ip, b)), ..p })
        }
    } else if p.entries.len() < MAX_IPS {
        let b = failed_once(fresh_attempts(now), now);
        (b.failures == BAN_FAILURES, LimiterView { entries: p.entries.push((ip, b)), ..p })
    } else {
        let a = match p.overflow { Some(a) => a, None => fresh_attempts(now) };
        if is_banned(a, now) {
            (false, LimiterView { overflow: Some(a), ..p })
        } else {
            let b = failed_once(a, now);
            (b.failures == BAN_FAILURES, LimiterView { overflow: Some(b), ..p })
        }
    }
}

/// A count below five is not banned; five failures always carry a ban.
pub open spec fn attempts_wf(a: Attempts) -> bool {
    &&& a.failures <= BAN_FAILURES
    &&& (a.blocked_until is None <==> a.failures < BAN_FAILURES)
}

pub open spec fn limiter_wf(l: LimiterView) -> bool {
    &&& forall|i: int, j: int| 0 <= i < j < l.entries.len() ==> l.entries[i].0 != l.entries[j].0
    &&& forall|i: int| 0 <= i < l.entries.len() ==> attempts_wf(#[trigger] l.entries[i].1)
    &&& l.entries.len() <= MAX_IPS
    &&& match l.overflow { Some(a) => attempts_wf(a), None => true }
}

fn sat_add_exec(a: u64, b: u64) -> (r: u64)
    ensures
        r == sat_add(a, b),
{
    a.saturating_add(b)
}

fn active_exec(a: &Attempts, now: u64) -> (r: bool)
    ensures
        r == active(*a, now),
{
    match a.blocked_until {
        Some(until) => now < until,
        None => now < sat_add_exec(a.since, WINDOW_US),
    }
}

fn banned_exec(a: &Attempts, now: u64) -> (r: bool)
    ensures
        r == is_banned(*a, now),
{
    match a.blocked_until {
        Some(until) => now < until,
        None => false,
    }
}

fn fail_exec(a: Attempts, now: u64) -> (b: Attempts)
    requires
        attempts_wf(a),
        !is_banned(a, now),
        a.blocked_until is None,
    ensures
        b == failed_once(a, now),
        attempts_wf(b),
{
    let failures = a.failures + 1;
    Attempts {
        failures,
        blocked_until: if failures == BAN_FAILURES { Some(sat_add_exec(now, WINDOW_US)) } else { a.blocked_until },
        ..a
    }
}

fn same_ip(a: IpAddress, b: IpAddress) -> (r: bool)
    ensures
        r == (a == b),
{
    match (a, b) {
        (IpAddress::V4(x), IpAddress::V4(y)) => x == y,
        (IpAddress::V6(x), IpAddress::V6(y)) => x == y,
        _ => false,
    }
}

/// Bounded failed-attempt accounting per address.
pub struct RateLimiter {
    entries: Vec<(IpAddress, Attempts)>,
    // Untracked addresses share a bucket when full. A live ban is never
    // evicted: cycling spoofed addresses must not reset another address's
    // failed attempts.
    overflow: Option<Attempts>,
}

proof fn lemma_keep_active_sub(entries: Seq<(IpAddress, Attempts)>, now: u64)
    ensures
        keep_active(entries, now).len() <= entries.len(),
        forall|i: int| 0 <= i < keep_active(entries, now).len() ==> #[trigger] entries.contains(keep_active(entries, now)[i]),
        forall|i: int| 0 <= i < keep_active(entries, now).len() ==> active(#[trigger] keep_active(entries, now)[i].1, now),
        forall|i: int| 0 <= i < entries.len() && active(entries[i].1, now) ==> #[trigger] keep_active(entries, now).contains(entries[i]),
        (forall|i: int, j: int| 0 <= i < j < entries.len() ==> entries[i].0 != entries[j].0) ==>
            (forall|i: int, j: int| 0 <= i < j < keep_active(entries, now).len() ==> keep_active(entries, now)[i].0 != keep_active(entries, now)[j].0),
    decreases entries.len(),
{
    if entries.len() > 0 {
        let d = entries.drop_last();
        lemma_keep_active_sub(d, now);
        let rest = keep_active(d, now);
        let k = keep_active(entries, now);
        assert forall|i: int| 0 <= i < k.len() implies #[trigger] entries.contains(k[i]) by {
            if i < rest.len() {
                assert(d.contains(rest[i]));
                let j = choose|j: int| 0 <= j < d.len() && d[j] == rest[i];
                assert(entries[j] == rest[i]);
            } else {
                assert(entries[entries.len() - 1] == k[i]);
            }
        }
        assert forall|i: int| 0 <= i < entries.len() && active(entries[i].1, now) implies #[trigger] k.contains(entries[i]) by {
            if i < entries.len() - 1 {
                assert(d[i] == entries[i]);
                assert(rest.contains(d[i]));
                let j = choose|j: int| 0 <= j < rest.len() && rest[j] == d[i];
                assert(k[j] == rest[j]);
            } else {
                assert(k[k.len() - 1] == entries[i]);
            }
        }
        if forall|i: int, j: int| 0 <= i < j < entries.len() ==> entries[i].0 != entries[j].0 {
            assert forall|i: int, j: int| 0 <= i < j < k.len() implies k[i].0 != k[j].0 by {
                if j < rest.len() {
                } else {
                    assert(k[j] == entries.last());
                    assert(d.contains(rest[i]));
                    let p = choose|p: int| 0 <= p < d.len() && d[p] == rest[i];
                    assert(entries[p] == k[i]);
                }
            }
        }
    }
}

/// If `ip` has exactly one entry in `entries` (at `k`) and that entry is
/// still active at `now`, pruning keeps it as the one that judges `ip`.
proof fn lemma_kept_judge(entries: Seq<(IpAddress, Attempts)>, k: int, ip: IpAddress, now: u64)
    requires
        0 <= k < entries.len(),
        entries[k].0 == ip,
        active(entries[k].1, now),
        forall|i: int, j: int| 0 <= i < j < entries.len() ==> entries[i].0 != entries[j].0,
    ensures
        tracks(keep_active(entries, now), ip),
        keep_active(entries, now)[slot_of(keep_active(entries, now), ip)].1 == entries[k].1,
{
    lemma_keep_active_sub(entries, now);
    let kept = keep_active(entries, now);
    assert(kept.contains(entries[k]));
    let j = choose|j: int| 0 <= j < kept.len() && kept[j] == entries[k];
    assert(kept[j].0 == ip);
    assert(tracks(kept, ip));
    let s = slot_of(kept, ip);
    assert(entries.contains(kept[s]));
    let m = choose|m: int| 0 <= m < entries.len() && entries[m] == kept[s];
    if m != k {
        if m < k {
            assert(entries[m].0 != entries[k].0);
        } else {
            assert(entries[k].0 != entries[m].0);
        }
    }
}

/// The failure that starts a ban takes effect at once: from that moment
/// until the ban runs out, the address is refused.
pub proof fn lemma_ban_takes_effect(l: LimiterView, ip: IpAddress, now: u64, later: u64)
    requires
        limiter_wf(l),
        fail_spec(l, ip, now).0,
        now <= later,
        later < now + WINDOW_US,
        now + WINDOW_US <= u64::MAX,
    ensures
        blocked_spec(fail_spec(l, ip, now).1, ip, later).0,
{
    let p = pruned(l, now);
    lemma_keep_active_sub(l.entries, now);
    let l2 = fail_spec(l, ip, now).1;
    if tracks(p.entries, ip) {
        let k = slot_of(p.entries, ip);
        let b = failed_once(p.entries[k].1, now);
        assert(l2.entries == p.entries.update(k, (ip, b)));
        assert forall|i: int, j: int| 0 <= i < j < l2.entries.len() implies l2.entries[i].0 != l2.entries[j].0 by {
            assert(p.entries[i].0 == l2.entries[i].0 && p.entries[j].0 == l2.entries[j].0);
        }
        lemma_kept_judge(l2.entries, k, ip, later);
    } else if p.entries.len() < MAX_IPS {
        let b = failed_once(fresh_attempts(now), now);
        let k = p.entries.len() as int;
        assert(l2.entries == p.entries.push((ip, b)));
        assert forall|i: int, j: int| 0 <= i < j < l2.entries.len() implies l2.entries[i].0 != l2.entries[j].0 by {
            if j == k {
                assert(l2.entries[i] == p.entries[i]);
            } else {
                assert(l2.entries[i] == p.entries[i] && l2.entries[j] == p.entries[j]);
            }
        }
        lemma_kept_judge(l2.entries, k, ip, later);
    } else {
        assert(l2.entries == p.entries);
        lemma_keep_active_sub(p.entries, later);
        let kept = keep_active(p.entries, later);
        assert(!tracks(kept, ip)) by {
            if tracks(kept, ip) {
                let j = choose|j: int| 0 <= j < kept.len() && #[trigger] kept[j].0 == ip;
                assert(p.entries.contains(kept[j]));
                let m = choose|m: int| 0 <= m < p.entries.len() && p.entries[m] == kept[j];
                assert(p.entries[m].0 == ip);
            }
        }
    }
}

impl RateLimiter {
    pub closed spec fn view(&self) -> LimiterView {
        LimiterView { entries: self.entries@, overflow: self.overflow }
    }

    pub open spec fn wf(&self) -> bool {
        limiter_wf(self.view())
    }

    pub fn new() -> (l: Self)
        ensures
            l.wf(),
            l.view() == (LimiterView { entries: seq![], overflow: None }),
    {
        RateLimiter { entries: Vec::new(), overflow: None }
    }

    /// How many addresses have entries of their own.
    pub fn entry_count(&self) -> (n: usize)
        ensures
            n == self.view().entries.len(),
    {
        self.entries.len()
    }

    fn prune(&mut self, now: u64)
        requires
            old(self).wf(),
        ensures
            final(self).wf(),
            final(self).view() == pruned(old(self).view(), now),
    {
        let ghost e0 = self.entries@;
        let mut kept: Vec<(IpAddress, Attempts)> = Vec::new();
        let mut i: usize = 0;
        while i < self.entries.len()
            invariant
                0 <= i <= self.entries@.len(),
                self.entries@ == e0,
                kept@ == keep_active(e0.take(i as int), now),
            decreases self.entries@.len() - i,
        {
            assert(e0.take(i + 1).drop_last() =~= e0.take(i as int));
            let entry = self.entries[i];
            if active_exec(&entry.1, now) {
                kept.push(entry);
            }
            i = i + 1;
        }
        assert(e0.take(i as int) =~= e0);
        proof {
            lemma_keep_active_sub(e0, now);
            let k = keep_active(e0, now);
            assert forall|j: int| 0 <= j < k.len() implies attempts_wf(#[trigger] k[j].1) by {
                assert(e0.contains(k[j]));
                let p = choose|p: int| 0 <= p < e0.len() && e0[p] == k[j];
                assert(attempts_wf(e0[p].1));
            }
        }
        self.entries = kept;
        match self.overflow {
            Some(a) => {
                if !active_exec(&a, now) {
                    self.overflow = None;
                }
            },
            None => {},
        }
    }

    fn find(&self, ip: IpAddress) -> (r: Option<usize>)
        requires
            self.wf(),
        ensures
            r is Some <==> tracks(self.view().entries, ip),
            r is Some ==> r->0 == slot_of(self.view().entries, ip) && r->0 < self.view().entries.len(),
    {
        let mut i: usize = 0;
        while i < self.entries.len()
            invariant
                self.wf(),
                0 <= i <= self.entries@.len(),
                forall|j: int| 0 <= j < i ==> self.entries@[j].0 != ip,
            decreases self.entries@.len() - i,
        {
            if same_ip(self.entries[i].0, ip) {
                proof {
                    assert(self.entries@[i as int].0 == ip);
                    assert(tracks(self.view().entries, ip));
                    let c = slot_of(self.view().entries, ip);
                    if c != i {
                        assert(self.entries@[c].0 == ip);
                    }
                }
                return Some(i);
            }
            i = i + 1;
        }
        assert(!tracks(self.view().entries, ip)) by {
            if tracks(self.view().entries, ip) {
                let c = choose|c: int| 0 <= c < self.entries@.len() && #[trigger] self.entries@[c].0 == ip;
                assert(self.entries@[c].0 != ip);
            }
        }
        None
    }

    /// Whether `ip` is banned at `now` (expired entries are forgotten first).
    pub fn blocked(&mut self, ip: IpAddress, now: u64) -> (b: bool)
        requires
            old(self).wf(),
        ensures
            final(self).wf(),
            (b, final(self).view()) == blocked_spec(old(self).view(), ip, now),
    {
        self.prune(now);
        match self.find(ip) {
            Some(k) => banned_exec(&self.entries[k].1, now),
            None => match self.overflow {
                Some(a) => banned_exec(&a, now),
                None => false,
            },
        }
    }

    /// Count one failed attempt from `ip`; true only when this failure
    /// starts a ban (one warning per ban).
    pub fn fail(&mut self, ip: IpAddress, now: u64) -> (started: bool)
        requires
            old(self).wf(),
        ensures
            final(self).wf(),
            (started, final(self).view()) == fail_spec(old(self).view(), ip, now),
    {
        self.prune(now);
        let ghost p = self.view();
        match self.find(ip) {
            Some(k) => {
                let a = self.entries[k].1;
                if banned_exec(&a, now) {
                    return false;
                }
                assert(a.blocked_until is None) by {
                    lemma_keep_active_sub(old(self).view().entries, now);
                    assert(active(p.entries[k as int].1, now));
                }
                let b = fail_exec(a, now);
                self.entries.set(k, (ip, b));
                proof {
                    let e = self.entries@;
                    assert forall|i: int, j: int| 0 <= i < j < e.len() implies e[i].0 != e[j].0 by {
                        assert(e[i].0 == p.entries[i].0 && e[j].0 == p.entries[j].0);
                    }
                }
                b.failures == BAN_FAILURES
            },
            None => {
                if self.entries.len() < MAX_IPS {
                    let b = fail_exec(Attempts { since: now, failures: 0, blocked_until: None }, now);
                    self.entries.push((ip, b));
                    proof {
                        let e = self.entries@;
                        assert forall|i: int, j: int| 0 <= i < j < e.len() implies e[i].0 != e[j].0 by {
                            if j == e.len() - 1 {
                                assert(e[i] == p.entries[i]);
                                if e[i].0 == ip {
                                    assert(tracks(p.entries, ip));
                                }
                            }
                        }
                    }
                    b.failures == BAN_FAILURES
                } else {
                    let a = match self.overflow {
                        Some(a) => a,
                        None => Attempts { since: now, failures: 0, blocked_until: None },
                    };
                    if banned_exec(&a, now) {
                        self.overflow = Some(a);
                        return false;
                    }
                    let b = fail_exec(a, now);
                    self.overflow = Some(b);
                    b.failures == BAN_FAILURES
                }
            },
        }
    }
}

/// The code a 32-bit draw gives, if any: draws in the final partial span
/// are rejected so that no code is likelier than another, and a draw that
/// lands on the previous code is rejected so that a rotation always
/// changes what the user sees.
pub open spec fn code_from_draw_spec(value: u32, previous: u32) -> Option<u32> {
    if value < u32::MAX - u32::MAX % CODE_SPAN {
        let code = (value % CODE_SPAN + 1) as u32;
        if code != previous { Some(code) } else { None }
    } else {
        None
    }
}

/// The code `value` gives (see `code_from_draw_spec`).
pub fn code_from_draw(value: u32, previous: u32) -> (r: Option<u32>)
    ensures
        r == code_from_draw_spec(value, previous),
{
    if value < u32::MAX - u32::MAX % CODE_SPAN {
        let code = value % CODE_SPAN + 1;
        if code != previous {
            return Some(code);
        }
    }
    None
}

/// A fresh six-digit code, 000001..=999999, never the previous one: draws
/// from the system's random source until one gives a code (see
/// `code_from_draw_spec`); 000000 is the wire's "no code". Whether the
/// source answers, and what it draws, is the source's.
pub fn random_code(previous: u32) -> (r: Result<u32, getrandom::Error>)
    ensures
        r is Ok ==> 1 <= r->Ok_0 <= CODE_SPAN && r->Ok_0 != previous,
        r is Ok ==> exists|value: u32| code_from_draw_spec(value, previous) == Some(r->Ok_0),
{
    let mut attempt: usize = 0;
    while attempt < RANDOM_ATTEMPTS
        decreases RANDOM_ATTEMPTS - attempt,
    {
        let mut bytes: Vec<u8> = vec![0u8; 4];
        fill_random(&mut bytes)?;
        let value = vstd::bytes::u32_from_le_bytes(bytes.as_slice());
        match code_from_draw(value, previous) {
            Some(code) => {
                assert(code_from_draw_spec(value, previous) == Some(code));
                return Ok(code);
            },
            None => {},
        }
        attempt = attempt + 1;
    }
    Err(unexpected_random_error())
}

/// What an authorization grants: the token the client should keep, and
/// whether the pairing code was spent.
pub struct Grant {
    pub token: [u8; 16],
    pub used_code: bool,
}

/// The pairing state as the contracts see it.
pub struct PairingView {
    pub required: bool,
    pub token: Seq<u8>,
    pub code: u32,
    pub limiter: LimiterView,
}

pub open spec fn zero_token() -> Seq<u8> {
    Seq::new(16, |i: int| 0u8)
}

/// How a handshake is authorized, and the limiter after: pairing off grants
/// without a token; the right token is paired; a banned address is refused
/// before its code is looked at; the right code pairs and is spent; a cable
/// connection is trusted; anything else is a failed attempt for its address.
pub open spec fn authorize_spec(
    p: PairingView,
    peer: PeerId,
    auth_token: Seq<u8>,
    pairing_code: u32,
    now: u64,
) -> (Result<(Seq<u8>, bool), HelloStatus>, LimiterView) {
    let usb = peer.link is Usb;
    if !p.required {
        (Ok((zero_token(), false)), p.limiter)
    } else if auth_token == p.token {
        (Ok((p.token, false)), p.limiter)
    } else {
        let checked = !usb && peer.addr is Some;
        let (banned, l1) = if checked { blocked_spec(p.limiter, peer.addr->0.ip, now) } else { (false, p.limiter) };
        if banned {
            (Err(HelloStatus::RateLimited), l1)
        } else if pairing_code != 0 && pairing_code == p.code {
            (Ok((p.token, true)), l1)
        } else if usb {
            (Ok((p.token, false)), l1)
        } else if peer.addr is Some {
            let (started, l2) = fail_spec(l1, peer.addr->0.ip, now);
            if started { (Err(HelloStatus::RateLimited), l2) } else { (Err(HelloStatus::Unauthorized), l2) }
        } else {
            (Err(HelloStatus::Unauthorized), l1)
        }
    }
}

pub struct Pairing {
    pub required: bool,
    token: [u8; 16],
    code: u32,
    limiter: RateLimiter,
}

impl Pairing {
    pub closed spec fn view(&self) -> PairingView {
        PairingView { required: self.required, token: self.token@, code: self.code, limiter: self.limiter.view() }
    }

    /// The token is never all zero, the code is six digits, the limiter is
    /// sound.
    pub closed spec fn wf(&self) -> bool {
        &&& !all_zero(self.token@)
        &&& 1 <= self.code <= CODE_SPAN
        &&& self.limiter.wf()
    }

    pub fn new(required: bool, token: [u8; 16]) -> (r: Result<Self, getrandom::Error>)
        requires
            !all_zero(token@),
        ensures
            r is Ok ==> {
                let p = r->Ok_0;
                &&& p.wf()
                &&& p.view().required == required
                &&& p.view().token == token@
                &&& p.view().limiter == (LimiterView { entries: seq![], overflow: None })
                &&& exists|value: u32| code_from_draw_spec(value, 0) == Some(p.view().code)
            },
    {
        let code = random_code(0)?;
        Ok(Pairing { required, token, code, limiter: RateLimiter::new() })
    }

    pub fn configure(&mut self, required: bool, token: [u8; 16])
        requires
            old(self).wf(),
            !all_zero(token@),
        ensures
            final(self).wf(),
            final(self).view() == (PairingView { required, token: token@, ..old(self).view() }),
    {
        self.required = required;
        self.token = token;
    }

    /// Whether pairing is required.
    pub fn required(&self) -> (r: bool)
        ensures
            r == self.view().required,
    {
        self.required
    }

    pub fn token(&self) -> (t: [u8; 16])
        ensures
            t@ == self.view().token,
    {
        self.token
    }

    pub fn code(&self) -> (c: u32)
        ensures
            c == self.view().code,
    {
        self.code
    }

    /// The token a successful handshake hands out: the real one only while
    /// pairing is required.
    pub fn ack_token(&self) -> (t: [u8; 16])
        ensures
            t@ == if self.view().required { self.view().token } else { zero_token() },
    {
        if self.required {
            self.token
        } else {
            let z = [0u8; 16];
            assert(z@ =~= zero_token());
            z
        }
    }

    /// The code as the host shows it: six digits with leading zeros.
    pub fn code_text(&self) -> (s: String)
        requires
            self.wf(),
        ensures
            s@ == crate::text::decimal_padded(self.view().code as nat, 6),
    {
        crate::text::decimal_padded_text(self.code, 6)
    }

    /// Replace the code with a fresh one; on failure nothing changes.
    pub fn rotate_code(&mut self) -> (r: Result<(), getrandom::Error>)
        requires
            old(self).wf(),
        ensures
            final(self).wf(),
            r is Ok ==> final(self).view().code != old(self).view().code
                && final(self).view() == (PairingView { code: final(self).view().code, ..old(self).view() }),
            r is Ok ==> exists|value: u32| code_from_draw_spec(value, old(self).view().code) == Some(final(self).view().code),
            r is Err ==> final(self).view() == old(self).view(),
    {
        self.code = random_code(self.code)?;
        Ok(())
    }

    /// A new token and a new code; on failure nothing changes.
    pub fn regenerate_token(&mut self) -> (r: Result<(), getrandom::Error>)
        requires
            old(self).wf(),
        ensures
            final(self).wf(),
            r is Ok ==> final(self).view().code != old(self).view().code
                && final(self).view().required == old(self).view().required
                && final(self).view().limiter == old(self).view().limiter,
            r is Ok ==> !all_zero(final(self).view().token),
            r is Ok ==> exists|value: u32| code_from_draw_spec(value, old(self).view().code) == Some(final(self).view().code),
            r is Err ==> final(self).view() == old(self).view(),
    {
        let token = new_token()?;
        self.rotate_code()?;
        self.token = token;
        Ok(())
    }

    /// Decide whether a handshake from `peer` may pair.
    pub fn authorize(&mut self, peer: PeerId, hello: &Hello2, now: u64) -> (r: Result<Grant, HelloStatus>)
        requires
            old(self).wf(),
        ensures
            final(self).wf(),
            ({
                let (expected, limiter) = authorize_spec(old(self).view(), peer, hello.auth_token@, hello.pairing_code, now);
                &&& final(self).view() == (PairingView { limiter, ..old(self).view() })
                &&& match r {
                    Ok(g) => expected == Ok::<(Seq<u8>, bool), HelloStatus>((g.token@, g.used_code)),
                    Err(status) => expected == Err::<(Seq<u8>, bool), HelloStatus>(status),
                }
            }),
    {
        if !self.required {
            let z = [0u8; 16];
            assert(z@ =~= zero_token());
            return Ok(Grant { token: z, used_code: false });
        }
        if ct_eq_bytes(hello.auth_token.as_slice(), self.token.as_slice()) {
            return Ok(Grant { token: self.token, used_code: false });
        }
        let usb = match peer.link {
            LinkId::Usb { .. } => true,
            LinkId::Udp => false,
        };
        if !usb {
            match peer.addr {
                Some(addr) => {
                    if self.limiter.blocked(addr.ip, now) {
                        return Err(HelloStatus::RateLimited);
                    }
                },
                None => {},
            }
        }
        if hello.pairing_code != 0 && ct_eq_u32(hello.pairing_code, self.code) {
            return Ok(Grant { token: self.token, used_code: true });
        }
        if usb {
            return Ok(Grant { token: self.token, used_code: false });
        }
        match peer.addr {
            Some(addr) => {
                if self.limiter.fail(addr.ip, now) {
                    return Err(HelloStatus::RateLimited);
                }
            },
            None => {},
        }
        Err(HelloStatus::Unauthorized)
    }
}

} // verus!

verus! {

/// Pairing controls access: while pairing is required, a handshake over the
/// network with neither the token nor the current code is refused, and
/// only a cable connection is let in without either.
pub proof fn lemma_unpaired_network_handshake_refused(
    p: PairingView,
    peer: PeerId,
    auth_token: Seq<u8>,
    pairing_code: u32,
    now: u64,
)
    requires
        p.required,
        auth_token != p.token,
        pairing_code == 0 || pairing_code != p.code,
        peer.link is Udp,
    ensures
        authorize_spec(p, peer, auth_token, pairing_code, now).0 is Err,
{
}

} // verus!
