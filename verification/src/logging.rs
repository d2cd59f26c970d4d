//! The in-memory tail of the log that the interface shows, the assembly of
//! written bytes into lines, and the filter that lets only the first mDNS
//! send failure per network interface through. Files, the console and the
//! tracing subscriber are the application's.

use vstd::prelude::*;
use crate::text::{occurs_at, str_eq, trim, trim_spec};

verus! {

pub const LOG_BUFFER_LIMIT: usize = 200;
pub const OUTPUT_BUFFER_LIMIT: usize = 256;
pub const SESSION_LOG_FILE_NAME: &'static str = "eternal-host-session.log";

/// What `String::from_utf8_lossy` makes of a byte string: its characters,
/// with each invalid sequence replaced.
pub uninterp spec fn utf8_lossy(bytes: Seq<u8>) -> Seq<char>;

/// `String::from_utf8_lossy`, owned.
#[verifier::external_body]
fn decode_lossy(bytes: &[u8]) -> (s: String)
    ensures
        s@ == utf8_lossy(bytes@),
{
    String::from_utf8_lossy(bytes).into_owned()
}

/// Whether `char::is_alphanumeric` holds: the Unicode `Alphabetic` or
/// `Numeric` property.
pub uninterp spec fn unicode_alphanumeric(c: char) -> bool;

/// `char::is_alphanumeric`.
#[verifier::external_body]
fn is_alphanumeric(c: char) -> (r: bool)
    ensures
        r == unicode_alphanumeric(c),
{
    c.is_alphanumeric()
}

/// The most recent log lines, oldest first; at most 200 are kept.
pub struct LogBuffer {
    lines: Vec<String>,
}

/// The lines kept after adding `line`: the oldest leaves when full.
pub open spec fn log_after(lines: Seq<Seq<char>>, line: Seq<char>) -> Seq<Seq<char>> {
    if lines.len() >= LOG_BUFFER_LIMIT { lines.drop_first().push(line) } else { lines.push(line) }
}

/// `lines` joined with newlines.
pub open spec fn joined(lines: Seq<Seq<char>>) -> Seq<char>
    decreases lines.len(),
{
    if lines.len() == 0 {
        seq![]
    } else if lines.len() == 1 {
        lines[0]
    } else {
        joined(lines.drop_last()) + seq!['\n'] + lines.last()
    }
}

impl LogBuffer {
    /// Never more than `LOG_BUFFER_LIMIT` lines.
    #[verifier::type_invariant]
    spec fn bounded(&self) -> bool {
        self.lines@.len() <= LOG_BUFFER_LIMIT
    }

    pub closed spec fn lines_view(&self) -> Seq<Seq<char>> {
        self.lines@.map_values(|l: String| l@)
    }

    pub fn new() -> (b: Self)
        ensures
            b.lines_view() == Seq::<Seq<char>>::empty(),
    {
        let b = LogBuffer { lines: Vec::new() };
        assert(b.lines_view() =~= Seq::<Seq<char>>::empty());
        b
    }

    pub fn len(&self) -> (n: usize)
        ensures
            n == self.lines_view().len(),
            n <= LOG_BUFFER_LIMIT,
    {
        proof {
            use_type_invariant(self);
        }
        self.lines.len()
    }

    pub fn push(&mut self, line: String)
        ensures
            final(self).lines_view() == log_after(old(self).lines_view(), line@),
            final(self).lines_view().len() <= LOG_BUFFER_LIMIT,
    {
        proof {
            use_type_invariant(&*self);
        }
        let ghost before = self.lines@;
        let mut lines: Vec<String> = Vec::new();
        std::mem::swap(&mut lines, &mut self.lines);
        if lines.len() >= LOG_BUFFER_LIMIT {
            lines.remove(0);
        }
        lines.push(line);
        self.lines = lines;
        assert(self.lines_view() =~= log_after(before.map_values(|l: String| l@), line@));
    }

    /// The last line, if any.
    pub fn last(&self) -> (l: Option<String>)
        ensures
            self.lines_view().len() == 0 ==> l is None,
            self.lines_view().len() > 0 ==> l is Some && l->0@ == self.lines_view().last(),
    {
        let n = self.lines.len();
        if n == 0 {
            return None;
        }
        Some(String::from_str(self.lines[n - 1].as_str()))
    }
}

/// The last `limit` lines (at least one) joined with newlines, or `None`
/// while the log is empty.
pub fn recent_log_text(buffer: &LogBuffer, limit: usize) -> (text: Option<String>)
    ensures
        buffer.lines_view().len() == 0 ==> text is None,
        buffer.lines_view().len() > 0 ==> ({
            let n = buffer.lines_view().len();
            let count: int = if limit < 1 { 1 } else { limit as int };
            let start: int = if n > count { n - count } else { 0 };
            text is Some && text->0@ == joined(buffer.lines_view().subrange(start, n as int))
        }),
{
    let n = buffer.lines.len();
    if n == 0 {
        return None;
    }
    let count: usize = if limit < 1 { 1 } else { limit };
    let start: usize = if n > count { n - count } else { 0 };
    let ghost all = buffer.lines_view();
    let mut text = String::from_str(buffer.lines[start].as_str());
    let mut i: usize = start + 1;
    assert(all.subrange(start as int, start + 1) =~= seq![all[start as int]]);
    while i < n
        invariant
            n == all.len(),
            all == buffer.lines_view(),
            start < i <= n,
            text@ == joined(all.subrange(start as int, i as int)),
        decreases n - i,
    {
        proof {
            reveal_strlit("\n");
        }
        text.append("\n");
        text.append(buffer.lines[i].as_str());
        assert(all.subrange(start as int, i + 1).drop_last() =~= all.subrange(start as int, i as int));
        i = i + 1;
    }
    Some(text)
}

/// `s` without trailing carriage returns and line feeds.
pub open spec fn trim_line_end(s: Seq<char>) -> Seq<char>
    decreases s.len(),
{
    if s.len() > 0 && (s.last() == '\r' || s.last() == '\n') { trim_line_end(s.drop_last()) } else { s }
}

/// Assembles written bytes into log lines.
#[derive(Clone)]
pub struct LineAssembler {
    current: Vec<u8>,
}

/// The line a finished byte run makes: decoded, without its line ending;
/// `None` when nothing is left.
pub open spec fn finished_line(bytes: Seq<u8>) -> Option<Seq<char>> {
    if bytes.len() == 0 {
        None
    } else {
        let line = trim_line_end(utf8_lossy(bytes));
        if line.len() == 0 { None } else { Some(line) }
    }
}

impl LineAssembler {
    pub closed spec fn pending(&self) -> Seq<u8> {
        self.current@
    }

    pub fn new() -> (a: Self)
        ensures
            a.pending() == Seq::<u8>::empty(),
    {
        LineAssembler { current: Vec::new() }
    }

    /// Finish the pending bytes as a line: it goes into `log` and is
    /// returned for the session file.
    pub fn push_line(&mut self, log: &mut LogBuffer) -> (line: Option<String>)
        ensures
            final(self).pending() == Seq::<u8>::empty(),
            final(log).lines_view().len() <= LOG_BUFFER_LIMIT,
            match finished_line(old(self).pending()) {
                None => line is None && final(log).lines_view() == old(log).lines_view(),
                Some(l) => line is Some && line->0@ == l
                    && final(log).lines_view() == log_after(old(log).lines_view(), l),
            },
    {
        proof {
            use_type_invariant(&*log);
        }
        if self.current.len() == 0 {
            return None;
        }
        let decoded = decode_lossy(self.current.as_slice());
        let text = decoded.as_str();
        let mut end = text.unicode_len();
        assert(text@.subrange(0, text@.len() as int) =~= text@);
        while end > 0 && (text.get_char(end - 1) == '\r' || text.get_char(end - 1) == '\n')
            invariant
                0 <= end <= text@.len(),
                trim_line_end(text@.subrange(0, end as int)) == trim_line_end(text@),
            decreases end,
        {
            assert(text@.subrange(0, end as int).drop_last() =~= text@.subrange(0, end - 1));
            end = end - 1;
        }
        assert(text@.subrange(0, text@.len() as int) =~= text@);
        let line = String::from_str(text.substring_char(0, end));
        self.current = Vec::new();
        if end == 0 {
            return None;
        }
        log.push(String::from_str(line.as_str()));
        Some(line)
    }

    /// Write bytes: each line feed finishes a line. Returns the finished
    /// lines in order.
    pub fn write(&mut self, buf: &[u8], log: &mut LogBuffer) -> (lines: Vec<String>)
        ensures
            final(log).lines_view().len() <= LOG_BUFFER_LIMIT,
            write_fold(WriteState {
                pending: old(self).pending(),
                log: old(log).lines_view(),
                out: Seq::<Seq<char>>::empty(),
            }, buf@) == (WriteState {
                pending: final(self).pending(),
                log: final(log).lines_view(),
                out: lines@.map_values(|l: String| l@),
            }),
    {
        proof {
            use_type_invariant(&*log);
        }
        let ghost start = WriteState {
            pending: self.pending(),
            log: log.lines_view(),
            out: Seq::<Seq<char>>::empty(),
        };
        let mut lines: Vec<String> = Vec::new();
        let mut i: usize = 0;
        assert(buf@.subrange(0, 0) =~= Seq::<u8>::empty());
        assert(lines@.map_values(|l: String| l@) =~= Seq::<Seq<char>>::empty());
        while i < buf.len()
            invariant
                0 <= i <= buf@.len(),
                log.lines_view().len() <= LOG_BUFFER_LIMIT,
                write_fold(start, buf@.subrange(0, i as int)) == (WriteState {
                    pending: self.pending(),
                    log: log.lines_view(),
                    out: lines@.map_values(|l: String| l@),
                }),
            decreases buf@.len() - i,
        {
            let byte = buf[i];
            let ghost before_out = lines@.map_values(|l: String| l@);
            assert(buf@.subrange(0, i + 1).drop_last() =~= buf@.subrange(0, i as int));
            self.current.push(byte);
            if byte == 10 {
                match self.push_line(log) {
                    Some(l) => {
                        lines.push(l);
                        assert(lines@.map_values(|l: String| l@) =~= before_out.push(lines@.last()@));
                    },
                    None => {},
                }
            }
            i = i + 1;
        }
        assert(buf@.subrange(0, buf@.len() as int) =~= buf@);
        lines
    }
}

/// What writing has built so far: the bytes of the unfinished line, the
/// kept log lines and the lines finished by this write.
pub struct WriteState {
    pub pending: Seq<u8>,
    pub log: Seq<Seq<char>>,
    pub out: Seq<Seq<char>>,
}

/// One written byte: a line feed finishes the pending line.
pub open spec fn write_step(st: WriteState, b: u8) -> WriteState {
    let p = st.pending.push(b);
    if b == 10 {
        match finished_line(p) {
            None => WriteState { pending: Seq::empty(), log: st.log, out: st.out },
            Some(l) => WriteState { pending: Seq::empty(), log: log_after(st.log, l), out: st.out.push(l) },
        }
    } else {
        WriteState { pending: p, log: st.log, out: st.out }
    }
}

/// The bytes written one after another.
pub open spec fn write_fold(st: WriteState, bytes: Seq<u8>) -> WriteState
    decreases bytes.len(),
{
    if bytes.len() == 0 { st } else { write_step(write_fold(st, bytes.drop_last()), bytes.last()) }
}

/// The first index at or after `i` where `pat` occurs in `s`.
pub open spec fn find_from(s: Seq<char>, pat: Seq<char>, i: int) -> Option<int>
    decreases s.len() + 1 - i,
{
    if i < 0 || i + pat.len() > s.len() {
        None
    } else if occurs_at(s, pat, i) {
        Some(i)
    } else {
        find_from(s, pat, i + 1)
    }
}

fn occurs_at_exec(s: &str, pat: &str, k: usize) -> (r: bool)
    requires
        k + pat@.len() <= s@.len(),
    ensures
        r == occurs_at(s@, pat@, k as int),
{
    let n = s.unicode_len();
    let m = pat.unicode_len();
    let mut i: usize = 0;
    while i < m
        invariant
            n == s@.len(),
            m == pat@.len(),
            k + m <= s@.len(),
            0 <= i <= m,
            forall|j: int| 0 <= j < i ==> s@[k + j] == pat@[j],
        decreases m - i,
    {
        if s.get_char(k + i) != pat.get_char(i) {
            assert(s@.subrange(k as int, k + m)[i as int] != pat@[i as int]);
            return false;
        }
        i = i + 1;
    }
    assert(s@.subrange(k as int, k + m) =~= pat@);
    true
}

/// Where `pat` first occurs in `s`, in characters.
fn find(s: &str, pat: &str) -> (r: Option<usize>)
    ensures
        match find_from(s@, pat@, 0) {
            Some(i) => r == Some(i as usize),
            None => r is None,
        },
{
    let n = s.unicode_len();
    let m = pat.unicode_len();
    if m > n {
        return None;
    }
    let last = n - m;
    let mut i: usize = 0;
    loop
        invariant
            n == s@.len(),
            m == pat@.len(),
            last == n - m,
            i <= last,
            find_from(s@, pat@, i as int) == find_from(s@, pat@, 0),
        decreases last - i,
    {
        if occurs_at_exec(s, pat, i) {
            return Some(i);
        }
        if i == last {
            assert(find_from(s@, pat@, i + 1) is None);
            return None;
        }
        i = i + 1;
    }
}

/// The first index at or after `i` whose character is not a name character
/// (alphanumeric, `-` or `_`), or the length.
pub open spec fn name_end(s: Seq<char>, i: int) -> int
    decreases s.len() - i,
{
    if i >= s.len() || !(unicode_alphanumeric(s[i]) || s[i] == '-' || s[i] == '_') { i } else { name_end(s, i + 1) }
}

/// The first index at or after `i` holding none of `, " )`, or the length.
pub open spec fn field_end(s: Seq<char>, i: int) -> int
    decreases s.len() - i,
{
    if i >= s.len() || s[i] == ',' || s[i] == '"' || s[i] == ')' { i } else { field_end(s, i + 1) }
}

/// The first index at or after `i` holding neither `:` nor a space, or the
/// length.
pub open spec fn skip_colons(s: Seq<char>, i: int) -> int
    decreases s.len() - i,
{
    if i >= s.len() || !(s[i] == ':' || s[i] == ' ') { i } else { skip_colons(s, i + 1) }
}

/// The interface a send-failure message names: the text after
/// `interface` (past colons and spaces, up to a comma, quote or closing
/// parenthesis, trimmed); else a `%zone` id; else `generic`.
pub open spec fn interface_bucket_spec(m: Seq<char>) -> Seq<char> {
    match find_from(m, "interface"@, 0) {
        Some(idx) => {
            let a = skip_colons(m, idx + 9);
            trim_spec(m.subrange(a, field_end(m, a)))
        },
        None => match find_from(m, "%"@, 0) {
            Some(p) => {
                let e = name_end(m, p + 1);
                if e > p + 1 { seq!['%'] + m.subrange(p + 1, e) } else { "generic"@ }
            },
            None => "generic"@,
        },
    }
}

proof fn lemma_find_from_bounds(s: Seq<char>, pat: Seq<char>, i: int)
    requires
        i >= 0,
    ensures
        find_from(s, pat, i) matches Some(k) ==> i <= k && k + pat.len() <= s.len() && occurs_at(s, pat, k),
    decreases s.len() + 1 - i,
{
    if i + pat.len() <= s.len() && !occurs_at(s, pat, i) {
        lemma_find_from_bounds(s, pat, i + 1);
    }
}

pub fn interface_bucket(message: &str) -> (bucket: String)
    ensures
        bucket@ == interface_bucket_spec(message@),
{
    let ghost m = message@;
    let n = message.unicode_len();
    proof {
        reveal_strlit("interface");
        reveal_strlit("%");
        lemma_find_from_bounds(m, "interface"@, 0);
        lemma_find_from_bounds(m, "%"@, 0);
    }
    match find(message, "interface") {
        Some(idx) => {
            let mut a: usize = idx + 9;
            while a < n && (message.get_char(a) == ':' || message.get_char(a) == ' ')
                invariant
                    m == message@,
                    n == m.len(),
                    idx + 9 <= a <= n,
                    skip_colons(m, a as int) == skip_colons(m, idx + 9),
                decreases n - a,
            {
                a = a + 1;
            }
            let mut e: usize = a;
            while e < n && !(message.get_char(e) == ',' || message.get_char(e) == '"' || message.get_char(e) == ')')
                invariant
                    m == message@,
                    n == m.len(),
                    a <= e <= n,
                    field_end(m, e as int) == field_end(m, a as int),
                decreases n - e,
            {
                e = e + 1;
            }
            String::from_str(trim(message.substring_char(a, e)))
        },
        None => match find(message, "%") {
            Some(p) => {
                let mut e: usize = p + 1;
                while e < n && (is_alphanumeric(message.get_char(e)) || message.get_char(e) == '-' || message.get_char(e) == '_')
                    invariant
                        m == message@,
                        n == m.len(),
                        p + 1 <= e <= n,
                        name_end(m, e as int) == name_end(m, p + 1),
                    decreases n - e,
                {
                    e = e + 1;
                }
                if e > p + 1 {
                    let mut s = String::from_str("%");
                    s.append(message.substring_char(p + 1, e));
                    s
                } else {
                    String::from_str("generic")
                }
            },
            None => String::from_str("generic"),
        },
    }
}

/// Lets only the first mDNS send failure per interface through; everything
/// else passes.
pub struct MdnsDedupFilter {
    seen: Vec<String>,
}

/// Whether an event passes: anything not from `mdns_sd`, without a message,
/// or not a send failure passes; a send failure passes the first time its
/// interface is seen.
pub open spec fn mdns_passes(seen: Seq<Seq<char>>, target: Seq<char>, message: Option<Seq<char>>) -> bool {
    target != "mdns_sd"@ || match message {
        None => true,
        Some(m) => find_from(m, "Failed to send"@, 0) is None || !seen.contains(interface_bucket_spec(m)),
    }
}

/// The interfaces seen after an event: a send failure from `mdns_sd` adds
/// its interface.
pub open spec fn seen_after(seen: Seq<Seq<char>>, target: Seq<char>, message: Option<Seq<char>>) -> Seq<Seq<char>> {
    match message {
        Some(m) => if target == "mdns_sd"@ && find_from(m, "Failed to send"@, 0) is Some
            && !seen.contains(interface_bucket_spec(m)) {
            seen.push(interface_bucket_spec(m))
        } else {
            seen
        },
        None => seen,
    }
}

/// Only the first send failure per interface is logged: once one went
/// through (or was already seen), the same failure again is dropped.
pub proof fn lemma_failure_logged_once(seen: Seq<Seq<char>>, m: Seq<char>)
    requires
        find_from(m, "Failed to send"@, 0) is Some,
    ensures
        !mdns_passes(seen_after(seen, "mdns_sd"@, Some(m)), "mdns_sd"@, Some(m)),
{
    let after = seen_after(seen, "mdns_sd"@, Some(m));
    if !seen.contains(interface_bucket_spec(m)) {
        assert(after[after.len() - 1] == interface_bucket_spec(m));
    }
}

impl MdnsDedupFilter {
    pub closed spec fn seen_view(&self) -> Seq<Seq<char>> {
        self.seen@.map_values(|s: String| s@)
    }

    pub fn new() -> (f: Self)
        ensures
            f.seen_view() == Seq::<Seq<char>>::empty(),
    {
        let f = MdnsDedupFilter { seen: Vec::new() };
        assert(f.seen_view() =~= Seq::<Seq<char>>::empty());
        f
    }

    fn remember(&mut self, bucket: String) -> (new: bool)
        ensures
            new == !old(self).seen_view().contains(bucket@),
            new ==> final(self).seen_view() == old(self).seen_view().push(bucket@),
            !new ==> final(self).seen_view() == old(self).seen_view(),
    {
        let ghost before = self.seen_view();
        let mut i: usize = 0;
        while i < self.seen.len()
            invariant
                0 <= i <= self.seen@.len(),
                before == self.seen_view(),
                forall|j: int| 0 <= j < i ==> before[j] != bucket@,
            decreases self.seen@.len() - i,
        {
            if str_eq(self.seen[i].as_str(), bucket.as_str()) {
                assert(before[i as int] == bucket@);
                return false;
            }
            i = i + 1;
        }
        assert(!before.contains(bucket@));
        self.seen.push(bucket);
        assert(self.seen_view() =~= before.push(bucket@));
        true
    }

    /// Whether an event from `target` with `message` is logged.
    ///
    /// A send failure on an interface that was already seen is dropped.
    pub fn event_enabled(&mut self, target: &str, message: Option<&str>) -> (pass: bool)
        ensures
            pass == mdns_passes(old(self).seen_view(), target@, match message { Some(m) => Some(m@), None => None::<Seq<char>> }),
            final(self).seen_view() == seen_after(old(self).seen_view(), target@, match message { Some(m) => Some(m@), None => None::<Seq<char>> }),
    {
        if !str_eq(target, "mdns_sd") {
            return true;
        }
        let m = match message {
            Some(m) => m,
            None => {
                return true;
            },
        };
        if find(m, "Failed to send").is_none() {
            return true;
        }
        self.remember(interface_bucket(m))
    }
}

impl Default for MdnsDedupFilter {
    fn default() -> (f: Self)
        ensures
            f.seen_view() == Seq::<Seq<char>>::empty(),
    {
        MdnsDedupFilter::new()
    }
}

} // verus!
