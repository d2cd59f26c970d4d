//! Character-level helpers over `&str` that the status texts are built from:
//! equality, case folding, substring search and decimal numbers.

use vstd::prelude::*;

verus! {

/// ASCII upper-case letters folded to lower case; everything else unchanged.
pub open spec fn lower_char(c: char) -> char {
    if 'A' <= c <= 'Z' { ((c as u32) + 32) as char } else { c }
}

pub open spec fn lower_ascii(s: Seq<char>) -> Seq<char> {
    s.map_values(|c: char| lower_char(c))
}

/// `pat` occurs in `s` starting at index `k`.
pub open spec fn occurs_at(s: Seq<char>, pat: Seq<char>, k: int) -> bool {
    0 <= k && k + pat.len() <= s.len() && s.subrange(k, k + pat.len()) == pat
}

pub open spec fn contains_seq(s: Seq<char>, pat: Seq<char>) -> bool {
    exists|k: int| #[trigger] occurs_at(s, pat, k)
}

pub open spec fn starts_with_seq(s: Seq<char>, pat: Seq<char>) -> bool {
    occurs_at(s, pat, 0)
}

pub fn lower_char_exec(c: char) -> (r: char)
    ensures
        r == lower_char(c),
{
    if 'A' <= c && c <= 'Z' {
        // Upper-case ASCII letters sit 32 below their lower-case forms.
        let l: char = match c {
            'A' => 'a', 'B' => 'b', 'C' => 'c', 'D' => 'd', 'E' => 'e', 'F' => 'f', 'G' => 'g',
            'H' => 'h', 'I' => 'i', 'J' => 'j', 'K' => 'k', 'L' => 'l', 'M' => 'm', 'N' => 'n',
            'O' => 'o', 'P' => 'p', 'Q' => 'q', 'R' => 'r', 'S' => 's', 'T' => 't', 'U' => 'u',
            'V' => 'v', 'W' => 'w', 'X' => 'x', 'Y' => 'y', _ => 'z',
        };
        l
    } else {
        c
    }
}

/// Whether two strings hold the same characters.
pub fn str_eq(a: &str, b: &str) -> (r: bool)
    ensures
        r == (a@ == b@),
{
    let n = a.unicode_len();
    if n != b.unicode_len() {
        return false;
    }
    let mut i: usize = 0;
    while i < n
        invariant
            n == a@.len(),
            n == b@.len(),
            0 <= i <= n,
            forall|j: int| 0 <= j < i ==> a@[j] == b@[j],
        decreases n - i,
    {
        if a.get_char(i) != b.get_char(i) {
            return false;
        }
        i = i + 1;
    }
    assert(a@ =~= b@);
    true
}

/// Whether `pat` occurs in `s` at index `k`, comparing `s` folded to lower
/// case.
fn lower_occurs_at(s: &str, pat: &str, k: usize) -> (r: bool)
    requires
        k + pat@.len() <= s@.len(),
    ensures
        r == occurs_at(lower_ascii(s@), pat@, k as int),
{
    let n = s.unicode_len();
    let m = pat.unicode_len();
    let mut i: usize = 0;
    while i < m
        invariant
            n == s@.len(),
            m == pat@.len(),
            k + m <= s@.len(),
            0 <= i <= m,
            forall|j: int| 0 <= j < i ==> lower_char(s@[k + j]) == pat@[j],
        decreases m - i,
    {
        if lower_char_exec(s.get_char(k + i)) != pat.get_char(i) {
            assert(lower_ascii(s@).subrange(k as int, k + m)[i as int] != pat@[i as int]);
            return false;
        }
        i = i + 1;
    }
    assert(lower_ascii(s@).subrange(k as int, k + m) =~= pat@);
    true
}

/// Whether `pat` occurs anywhere in `s` folded to lower case.
pub fn lower_contains(s: &str, pat: &str) -> (r: bool)
    ensures
        r == contains_seq(lower_ascii(s@), pat@),
{
    let n = s.unicode_len();
    let m = pat.unicode_len();
    if m > n {
        assert(!contains_seq(lower_ascii(s@), pat@)) by {
            if contains_seq(lower_ascii(s@), pat@) {
                let k = choose|k: int| #[trigger] occurs_at(lower_ascii(s@), pat@, k);
            }
        }
        return false;
    }
    if m == 0 {
        assert(lower_ascii(s@).subrange(0, 0) =~= pat@);
        assert(occurs_at(lower_ascii(s@), pat@, 0));
        return true;
    }
    let mut k: usize = 0;
    while k <= n - m
        invariant
            n == s@.len(),
            m == pat@.len(),
            1 <= m <= n,
            0 <= k <= n - m + 1,
            forall|j: int| 0 <= j < k ==> !#[trigger] occurs_at(lower_ascii(s@), pat@, j),
        decreases n - k,
    {
        if lower_occurs_at(s, pat, k) {
            return true;
        }
        k = k + 1;
    }
    assert(!contains_seq(lower_ascii(s@), pat@)) by {
        if contains_seq(lower_ascii(s@), pat@) {
            let j = choose|j: int| #[trigger] occurs_at(lower_ascii(s@), pat@, j);
            assert(j < k);
        }
    }
    false
}

/// Whether `s` folded to lower case starts with `pat`.
pub fn lower_starts_with(s: &str, pat: &str) -> (r: bool)
    ensures
        r == starts_with_seq(lower_ascii(s@), pat@),
{
    if pat.unicode_len() > s.unicode_len() {
        return false;
    }
    lower_occurs_at(s, pat, 0)
}

pub open spec fn digit_char(d: int) -> char {
    if d == 0 { '0' } else if d == 1 { '1' } else if d == 2 { '2' } else if d == 3 { '3' } else if d == 4 { '4' }
    else if d == 5 { '5' } else if d == 6 { '6' } else if d == 7 { '7' } else if d == 8 { '8' } else { '9' }
}

/// The decimal digits of `n`, most significant first, without leading zeros.
pub open spec fn decimal(n: nat) -> Seq<char>
    decreases n,
{
    if n < 10 {
        seq![digit_char(n as int)]
    } else {
        decimal(n / 10) + seq![digit_char((n % 10) as int)]
    }
}

fn digit_str(d: usize) -> (s: &'static str)
    requires
        d < 10,
    ensures
        s@ == seq![digit_char(d as int)],
{
    proof {
        reveal_strlit("0");
        reveal_strlit("1");
        reveal_strlit("2");
        reveal_strlit("3");
        reveal_strlit("4");
        reveal_strlit("5");
        reveal_strlit("6");
        reveal_strlit("7");
        reveal_strlit("8");
        reveal_strlit("9");
    }
    let s = match d {
        0 => "0",
        1 => "1",
        2 => "2",
        3 => "3",
        4 => "4",
        5 => "5",
        6 => "6",
        7 => "7",
        8 => "8",
        _ => "9",
    };
    assert(s@ =~= seq![digit_char(d as int)]);
    s
}

/// `n` written in decimal.
pub fn decimal_text(n: usize) -> (s: String)
    ensures
        s@ == decimal(n as nat),
    decreases n,
{
    if n < 10 {
        String::from_str(digit_str(n))
    } else {
        let mut s = decimal_text(n / 10);
        s.append(digit_str(n % 10));
        s
    }
}

/// `n` written in decimal.
pub fn decimal_text_u64(n: u64) -> (s: String)
    ensures
        s@ == decimal(n as nat),
    decreases n,
{
    if n < 10 {
        String::from_str(digit_str(n as usize))
    } else {
        let mut s = decimal_text_u64(n / 10);
        s.append(digit_str((n % 10) as usize));
        s
    }
}

/// `n` in decimal, left-padded with zeros to at least `width` digits.
pub open spec fn decimal_padded(n: nat, width: nat) -> Seq<char> {
    let d = decimal(n);
    if d.len() >= width { d } else { Seq::new((width - d.len()) as nat, |i: int| '0') + d }
}

pub fn decimal_padded_text(n: u32, width: usize) -> (s: String)
    ensures
        s@ == decimal_padded(n as nat, width as nat),
{
    let digits = decimal_text(n as usize);
    let len = digits.as_str().unicode_len();
    if len >= width {
        return digits;
    }
    let mut s = String::new();
    let mut i: usize = 0;
    proof {
        reveal_strlit("0");
    }
    while i < width - len
        invariant
            len < width,
            0 <= i <= width - len,
            s@ == Seq::new(i as nat, |j: int| '0'),
        decreases width - len - i,
    {
        proof {
            reveal_strlit("0");
        }
        s.append("0");
        assert(s@ =~= Seq::new((i + 1) as nat, |j: int| '0'));
        i = i + 1;
    }
    s.append(digits.as_str());
    s
}

/// Unicode `White_Space` characters.
pub open spec fn is_space(c: char) -> bool {
    ('\u{9}' <= c <= '\u{d}') || c == ' ' || c == '\u{85}' || c == '\u{a0}' || c == '\u{1680}'
        || ('\u{2000}' <= c <= '\u{200a}') || c == '\u{2028}' || c == '\u{2029}' || c == '\u{202f}'
        || c == '\u{205f}' || c == '\u{3000}'
}

pub fn is_space_exec(c: char) -> (r: bool)
    ensures
        r == is_space(c),
{
    ('\u{9}' <= c && c <= '\u{d}') || c == ' ' || c == '\u{85}' || c == '\u{a0}' || c == '\u{1680}'
        || ('\u{2000}' <= c && c <= '\u{200a}') || c == '\u{2028}' || c == '\u{2029}' || c == '\u{202f}'
        || c == '\u{205f}' || c == '\u{3000}'
}

/// The first index at or after `i` that is not white space.
pub open spec fn skip_space(s: Seq<char>, i: int) -> int
    decreases s.len() - i,
{
    if i >= s.len() || !is_space(s[i]) { i } else { skip_space(s, i + 1) }
}

/// The end of `s[lo..j]` with trailing white space removed.
pub open spec fn drop_space(s: Seq<char>, lo: int, j: int) -> int
    decreases j - lo,
{
    if j <= lo || !is_space(s[j - 1]) { j } else { drop_space(s, lo, j - 1) }
}

/// `s` without leading and trailing white space.
pub open spec fn trim_spec(s: Seq<char>) -> Seq<char> {
    let a = skip_space(s, 0);
    s.subrange(a, drop_space(s, a, s.len() as int))
}

/// `s` without leading and trailing white space.
pub fn trim(s: &str) -> (t: &str)
    ensures
        t@ == trim_spec(s@),
{
    let n = s.unicode_len();
    let mut a: usize = 0;
    while a < n && is_space_exec(s.get_char(a))
        invariant
            n == s@.len(),
            0 <= a <= n,
            skip_space(s@, a as int) == skip_space(s@, 0),
        decreases n - a,
    {
        a = a + 1;
    }
    let mut b: usize = n;
    while b > a && is_space_exec(s.get_char(b - 1))
        invariant
            n == s@.len(),
            0 <= a <= b <= n,
            a == skip_space(s@, 0),
            drop_space(s@, a as int, b as int) == drop_space(s@, a as int, n as int),
        decreases b - a,
    {
        b = b - 1;
    }
    s.substring_char(a, b)
}

/// Whether `s`, folded to lower case, is exactly `pat`.
pub fn lower_eq(s: &str, pat: &str) -> (r: bool)
    ensures
        r == (lower_ascii(s@) == pat@),
{
    let n = s.unicode_len();
    if n != pat.unicode_len() {
        assert(lower_ascii(s@).len() == n);
        return false;
    }
    let mut i: usize = 0;
    while i < n
        invariant
            n == s@.len(),
            n == pat@.len(),
            0 <= i <= n,
            forall|j: int| 0 <= j < i ==> lower_char(s@[j]) == pat@[j],
        decreases n - i,
    {
        if lower_char_exec(s.get_char(i)) != pat.get_char(i) {
            assert(lower_ascii(s@)[i as int] != pat@[i as int]);
            return false;
        }
        i = i + 1;
    }
    assert(lower_ascii(s@) =~= pat@);
    true
}

} // verus!
