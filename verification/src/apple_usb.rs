//! Why USB cannot work yet: an iPad on the cable, and whether Apple Devices
//! is installed. Windows only reaches an iPad through Apple's device service,
//! and the Microsoft Store Apple Devices app runs that service only while the
//! app is open.
//!
//! Enumerating the present devices and looking for the app's package is the
//! caller's part; this module judges the instance IDs it found.

use vstd::prelude::*;

verus! {

/// The Microsoft Store package that provides Apple's device service.
pub const APPLE_DEVICES_FAMILY: &'static str = "AppleInc.AppleDevices_nzyj5cx40ttqa";
pub const APPLE_DEVICES_STORE_URL: &'static str = "https://apps.microsoft.com/detail/9np83lwlpz9k";

#[derive(Clone, Copy, Debug, PartialEq, Eq, Structural)]
pub struct AppleUsbState {
    /// iPhones and iPads attached by cable, whether or not Apple's service runs.
    pub cabled_devices: usize,
    /// The Microsoft Store Apple Devices app is installed for this user.
    pub apple_devices_installed: bool,
}

impl Default for AppleUsbState {
    fn default() -> (s: Self)
        ensures
            s.cabled_devices == 0,
            !s.apple_devices_installed,
    {
        AppleUsbState { cabled_devices: 0, apple_devices_installed: false }
    }
}

/// `c` is `x` up to ASCII case (`x` given in upper case).
pub open spec fn eq_ic(c: char, x: char) -> bool {
    c == x || ('A' <= x <= 'Z' && c as u32 == x as u32 + 32)
}

pub open spec fn is_hex_digit(c: char) -> bool {
    ('0' <= c <= '9') || ('a' <= c <= 'f') || ('A' <= c <= 'F')
}

/// The index of the first backslash at or after `i`, or the length.
pub open spec fn next_sep(s: Seq<char>, i: int) -> int
    decreases s.len() - i,
{
    if i >= s.len() {
        s.len() as int
    } else if s[i] == '\\' {
        i
    } else {
        next_sep(s, i + 1)
    }
}

/// The vendor and product prefix every Apple device ID starts with.
pub open spec fn apple_prefix() -> Seq<char> {
    seq!['V', 'I', 'D', '_', '0', '5', 'A', 'C', '&', 'P', 'I', 'D', '_']
}

/// `&MI_`, in any case, starts at index `k` of `h`.
pub open spec fn mi_at(h: Seq<char>, k: int) -> bool {
    0 <= k && k + 4 <= h.len() && h[k] == '&' && eq_ic(h[k + 1], 'M') && eq_ic(h[k + 2], 'I') && h[k + 3] == '_'
}

/// `h` names an interface child: it holds `&MI_`, in any case.
pub open spec fn names_interface(h: Seq<char>) -> bool {
    exists|k: int| #[trigger] mi_at(h, k)
}

/// The hardware part of an ID names an iPhone, iPad or iPod touch: Apple's
/// vendor ID and a product ID of the form 0x12xx, four hex digits.
pub open spec fn apple_mobile_hardware(h: Seq<char>) -> bool {
    &&& !names_interface(h)
    &&& h.len() >= 17
    &&& forall|k: int| 0 <= k < 13 ==> eq_ic(#[trigger] h[k], apple_prefix()[k])
    &&& h[13] == '1' && h[14] == '2'
    &&& is_hex_digit(h[15]) && is_hex_digit(h[16])
}

/// A present USB instance ID naming an iPhone or iPad itself, such as
/// `USB\VID_05AC&PID_12AB\00008112000625DA2E23C01E`: the bus is `USB` in any
/// case, and a second path part follows that names the device itself.
pub open spec fn apple_mobile_id(s: Seq<char>) -> bool {
    &&& s.len() > 3
    &&& eq_ic(s[0], 'U') && eq_ic(s[1], 'S') && eq_ic(s[2], 'B') && s[3] == '\\'
    &&& apple_mobile_hardware(s.subrange(4, next_sep(s, 4)))
}

fn eq_ignore_case(c: char, x: char) -> (r: bool)
    ensures
        r == eq_ic(c, x),
{
    c == x || ('A' <= x && x <= 'Z' && (c as u32) == (x as u32) + 32)
}

fn hex_digit(c: char) -> (r: bool)
    ensures
        r == is_hex_digit(c),
{
    ('0' <= c && c <= '9') || ('a' <= c && c <= 'f') || ('A' <= c && c <= 'F')
}

proof fn lemma_next_sep_bounds(s: Seq<char>, i: int)
    requires
        0 <= i <= s.len(),
    ensures
        i <= next_sep(s, i) <= s.len(),
        forall|j: int| i <= j < next_sep(s, i) ==> s[j] != '\\',
        next_sep(s, i) < s.len() ==> s[next_sep(s, i)] == '\\',
    decreases s.len() - i,
{
    if i < s.len() && s[i] != '\\' {
        lemma_next_sep_bounds(s, i + 1);
    }
}

/// Whether a present device instance ID names an iPhone or iPad itself; its
/// interface children (`&MI_00`, `&MI_01`) and Apple keyboards, mice and
/// adapters do not count.
pub fn is_apple_mobile_device(instance_id: &str) -> (r: bool)
    ensures
        r == apple_mobile_id(instance_id@),
{
    let ghost s = instance_id@;
    let n = instance_id.unicode_len();
    if n <= 3 {
        return false;
    }
    if !(eq_ignore_case(instance_id.get_char(0), 'U') && eq_ignore_case(instance_id.get_char(1), 'S')
        && eq_ignore_case(instance_id.get_char(2), 'B') && instance_id.get_char(3) == '\\') {
        return false;
    }
    // The hardware part runs to the next separator.
    let mut end: usize = 4;
    while end < n
        invariant
            4 <= end <= n,
            n == s.len(),
            s == instance_id@,
            forall|j: int| 4 <= j < end ==> s[j] != '\\',
        ensures
            4 <= end <= n,
            forall|j: int| 4 <= j < end ==> s[j] != '\\',
            end < n ==> s[end as int] == '\\',
        decreases n - end,
    {
        if instance_id.get_char(end) == '\\' {
            break;
        }
        end = end + 1;
    }
    proof {
        lemma_next_sep_bounds(s, 4);
        if next_sep(s, 4) < end {
            assert(s[next_sep(s, 4)] == '\\');
        }
        if end < next_sep(s, 4) {
            assert(s[end as int] == '\\');
        }
        assert(next_sep(s, 4) == end);
    }
    let ghost h = s.subrange(4, end as int);
    let len: usize = end - 4;
    // Interface children name themselves with `&MI_`.
    let mut k: usize = 0;
    while k + 4 <= len
        invariant
            len == h.len(),
            end == len + 4,
            end <= n,
            n == s.len(),
            s == instance_id@,
            h == s.subrange(4, end as int),
            forall|j: int| 0 <= j < k ==> !#[trigger] mi_at(h, j),
            k <= len,
            next_sep(s, 4) == end as int,
        decreases len - k,
    {
        if instance_id.get_char(4 + k) == '&' && eq_ignore_case(instance_id.get_char(5 + k), 'M')
            && eq_ignore_case(instance_id.get_char(6 + k), 'I') && instance_id.get_char(7 + k) == '_' {
            assert(mi_at(h, k as int));
            return false;
        }
        k = k + 1;
    }
    assert(!names_interface(h)) by {
        if names_interface(h) {
            let j = choose|j: int| #[trigger] mi_at(h, j);
            assert(j < k);
        }
    }
    if len < 17 {
        return false;
    }
    let prefix: [char; 13] = ['V', 'I', 'D', '_', '0', '5', 'A', 'C', '&', 'P', 'I', 'D', '_'];
    assert(prefix@ =~= apple_prefix());
    let mut p: usize = 0;
    while p < 13
        invariant
            len == h.len(),
            len >= 17,
            end == len + 4,
            end <= n,
            n == s.len(),
            s == instance_id@,
            h == s.subrange(4, end as int),
            prefix@ == apple_prefix(),
            0 <= p <= 13,
            next_sep(s, 4) == end as int,
            forall|j: int| 0 <= j < p ==> eq_ic(#[trigger] h[j], apple_prefix()[j]),
        decreases 13 - p,
    {
        if !eq_ignore_case(instance_id.get_char(4 + p), prefix[p]) {
            assert(!eq_ic(h[p as int], apple_prefix()[p as int]));
            return false;
        }
        p = p + 1;
    }
    // Apple assigns 0x12xx product IDs to iPhone, iPad and iPod touch.
    instance_id.get_char(17) == '1' && instance_id.get_char(18) == '2' && hex_digit(instance_id.get_char(19))
        && hex_digit(instance_id.get_char(20))
}

/// How many of the present USB instance IDs name an iPhone or iPad itself.
pub open spec fn count_mobile(ids: Seq<String>) -> nat
    decreases ids.len(),
{
    if ids.len() == 0 {
        0
    } else {
        count_mobile(ids.drop_last()) + if apple_mobile_id(ids.last()@) { 1nat } else { 0nat }
    }
}

/// The USB picture from the present device instance IDs and whether the
/// Apple Devices app is installed.
pub fn probe(present_usb_ids: &[String], apple_devices_installed: bool) -> (state: AppleUsbState)
    ensures
        state.cabled_devices == count_mobile(present_usb_ids@),
        state.apple_devices_installed == apple_devices_installed,
{
    let mut count: usize = 0;
    let mut i: usize = 0;
    while i < present_usb_ids.len()
        invariant
            0 <= i <= present_usb_ids@.len(),
            count == count_mobile(present_usb_ids@.take(i as int)),
            count <= i,
        decreases present_usb_ids@.len() - i,
    {
        assert(present_usb_ids@.take(i + 1).drop_last() =~= present_usb_ids@.take(i as int));
        if is_apple_mobile_device(present_usb_ids[i].as_str()) {
            count = count + 1;
        }
        i = i + 1;
    }
    assert(present_usb_ids@.take(i as int) =~= present_usb_ids@);
    AppleUsbState { cabled_devices: count, apple_devices_installed }
}

} // verus!
