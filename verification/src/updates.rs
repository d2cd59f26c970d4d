//! The daily release check: when a check is due, what a fetched release
//! leaves in the cache, and whether a cached tag names a newer stable
//! release than the running one. The request and the cache file are the
//! application's.

use vstd::prelude::*;
use crate::text::{decimal, decimal_text_u64};

verus! {

/// The version of this host, compared with the latest release.
pub const HOST_VERSION: &'static str = "0.3.0";

/// Seconds between two release checks.
pub const CHECK_INTERVAL: u64 = 86400;

/// What `semver::Version::parse` makes of `text`: the major, minor and
/// patch numbers and the pre-release text, or `None` where it is no
/// version.
pub uninterp spec fn semver_parse(text: Seq<char>) -> Option<(u64, u64, u64, Seq<char>)>;

/// `semver::Version::parse`, its error dropped and the fields that the
/// comparison reads taken out: the build metadata is left behind, as the
/// comparison ignores it.
#[verifier::external_body]
fn parse_version(text: &str) -> (v: Option<(u64, u64, u64, String)>)
    ensures
        match semver_parse(text@) {
            None => v is None,
            Some(p) => v matches Some(q) && q.0 == p.0 && q.1 == p.1 && q.2 == p.2 && q.3@ == p.3,
        },
{
    match semver::Version::parse(text) {
        Ok(version) => Some((version.major, version.minor, version.patch, version.pre.as_str().to_string())),
        Err(_) => None,
    }
}

/// A tag without its leading `v`, if it has one.
pub open spec fn strip_v(tag: Seq<char>) -> Seq<char> {
    if tag.len() > 0 && tag[0] == 'v' { tag.drop_first() } else { tag }
}

/// Semantic-version precedence of a release without a pre-release part
/// over `current`: a larger major, minor, patch triple, or the same triple
/// where `current` is a pre-release.
pub open spec fn precedes(release: (u64, u64, u64), current: (u64, u64, u64, Seq<char>)) -> bool {
    ||| release.0 > current.0
    ||| release.0 == current.0 && release.1 > current.1
    ||| release.0 == current.0 && release.1 == current.1 && release.2 > current.2
    ||| release.0 == current.0 && release.1 == current.1 && release.2 == current.2 && current.3.len() > 0
}

/// `major.minor.patch`.
pub open spec fn version_text(major: u64, minor: u64, patch: u64) -> Seq<char> {
    decimal(major as nat) + seq!['.'] + decimal(minor as nat) + seq!['.'] + decimal(patch as nat)
}

/// What a parsed release and the parsed running version give: the
/// release's text when it is stable and newer.
pub open spec fn upgrade_spec(release: (u64, u64, u64, Seq<char>), current: (u64, u64, u64, Seq<char>)) -> Option<Seq<char>> {
    if release.3.len() == 0 && precedes((release.0, release.1, release.2), current) {
        Some(version_text(release.0, release.1, release.2))
    } else {
        None
    }
}

/// The release's version text when it is a stable release newer than
/// `current`; pre-releases are never offered, build metadata never counts.
pub fn stable_upgrade(release: (u64, u64, u64, &str), current: (u64, u64, u64, &str)) -> (r: Option<String>)
    ensures
        match upgrade_spec((release.0, release.1, release.2, release.3@), (current.0, current.1, current.2, current.3@)) {
            None => r is None,
            Some(t) => r matches Some(s) && s@ == t,
        },
{
    if release.3.unicode_len() != 0 {
        return None;
    }
    let newer = release.0 > current.0
        || (release.0 == current.0 && release.1 > current.1)
        || (release.0 == current.0 && release.1 == current.1 && release.2 > current.2)
        || (release.0 == current.0 && release.1 == current.1 && release.2 == current.2
            && current.3.unicode_len() > 0);
    if !newer {
        return None;
    }
    proof {
        reveal_strlit(".");
    }
    let mut text = decimal_text_u64(release.0);
    text.append(".");
    text.append(decimal_text_u64(release.1).as_str());
    text.append(".");
    text.append(decimal_text_u64(release.2).as_str());
    Some(text)
}

/// The newer stable release that `tag` (with or without a leading `v`)
/// names, compared with the running `current` version.
pub fn newer_stable(tag: &str, current: &str) -> (r: Option<String>)
    ensures
        match (semver_parse(strip_v(tag@)), semver_parse(current@)) {
            (Some(rel), Some(cur)) => match upgrade_spec(rel, cur) {
                None => r is None,
                Some(t) => r matches Some(s) && s@ == t,
            },
            _ => r is None,
        },
{
    let n = tag.unicode_len();
    let stripped = if n > 0 && tag.get_char(0) == 'v' { tag.substring_char(1, n) } else { tag };
    assert(stripped@ == strip_v(tag@));
    let release = match parse_version(stripped) {
        Some(v) => v,
        None => {
            return None;
        },
    };
    let running = match parse_version(current) {
        Some(v) => v,
        None => {
            return None;
        },
    };
    stable_upgrade((release.0, release.1, release.2, release.3.as_str()), (running.0, running.1, running.2, running.3.as_str()))
}

/// The latest release as the release service describes it.
pub struct Release {
    pub tag_name: String,
    pub prerelease: bool,
    pub draft: bool,
}

/// When the last check ran, in seconds since the epoch, and the latest
/// stable tag it found.
pub struct Cache {
    pub checked_at: Option<u64>,
    pub tag: Option<String>,
}

/// Whether a check is due at `now`: none ran yet, or the last one is at
/// least a day old (a clock that went back counts as no time passed).
pub open spec fn check_due(checked_at: Option<u64>, now: u64) -> bool {
    match checked_at {
        None => true,
        Some(last) => (if now >= last { now - last } else { 0 }) >= CHECK_INTERVAL,
    }
}

/// The tag a fetch leaves in the cache: a published stable release's tag,
/// `None` for a draft or pre-release, and the old tag when the fetch failed.
pub open spec fn tag_after(old_tag: Option<Seq<char>>, fetched: Result<(Seq<char>, bool, bool), Seq<char>>) -> Option<Seq<char>> {
    match fetched {
        Ok((tag, prerelease, draft)) => if !prerelease && !draft { Some(tag) } else { None },
        Err(_) => old_tag,
    }
}

pub open spec fn opt_view(t: Option<String>) -> Option<Seq<char>> {
    match t {
        Some(s) => Some(s@),
        None => None,
    }
}

pub open spec fn fetched_view(r: Result<Release, String>) -> Result<(Seq<char>, bool, bool), Seq<char>> {
    match r {
        Ok(rel) => Ok((rel.tag_name@, rel.prerelease, rel.draft)),
        Err(e) => Err(e@),
    }
}

impl Cache {
    pub fn new() -> (c: Self)
        ensures
            c.checked_at is None,
            c.tag is None,
    {
        Cache { checked_at: None, tag: None }
    }

    /// Whether a check is due at `now`.
    pub fn due(&self, now: u64) -> (d: bool)
        ensures
            d == check_due(self.checked_at, now),
    {
        match self.checked_at {
            None => true,
            Some(last) => now.saturating_sub(last) >= CHECK_INTERVAL,
        }
    }

    /// Record a check made at `now` with what the fetch gave. A failure is
    /// recorded too, so that repeated launches while offline do not ask
    /// again before a day has passed.
    pub fn record(&mut self, now: u64, fetched: Result<Release, String>)
        ensures
            final(self).checked_at == Some(now),
            opt_view(final(self).tag) == tag_after(opt_view(old(self).tag), fetched_view(fetched)),
    {
        self.checked_at = Some(now);
        match fetched {
            Ok(release) => {
                self.tag = if !release.prerelease && !release.draft { Some(release.tag_name) } else { None };
            },
            Err(_) => {},
        }
    }

    /// Check when due: `fetch` is called only then, and its result is
    /// recorded. Returns whether a check ran.
    pub fn check<F: FnOnce() -> Result<Release, String>>(&mut self, now: u64, fetch: F) -> (ran: bool)
        requires
            call_requires(fetch, ()),
        ensures
            ran == check_due(old(self).checked_at, now),
            !ran ==> final(self).checked_at == old(self).checked_at && opt_view(final(self).tag) == opt_view(old(self).tag),
            ran ==> final(self).checked_at == Some(now) && exists|r: Result<Release, String>|
                call_ensures(fetch, (), r) && opt_view(final(self).tag) == tag_after(opt_view(old(self).tag), fetched_view(r)),
    {
        if !self.due(now) {
            return false;
        }
        let fetched = fetch();
        let ghost f = fetched;
        self.record(now, fetched);
        assert(call_ensures(fetch, (), f));
        true
    }
}

impl Default for Cache {
    fn default() -> (c: Self)
        ensures
            c.checked_at is None,
            c.tag is None,
    {
        Cache::new()
    }
}

/// Once a check has run at `now`, successful or not, no other check is due
/// until a day has passed; from then on one is.
pub proof fn lemma_checked_cache_throttles(now: u64, later: u64)
    requires
        later >= now,
    ensures
        check_due(Some(now), later) <==> later - now >= CHECK_INTERVAL,
{
}

} // verus!
