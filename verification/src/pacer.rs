//! Send pacing for large frames.
//!
//! A keyframe fragments into hundreds of datagrams; sending them back to back
//! overflows Wi-Fi access-point queues exactly on the frames that matter most.
//! The pacer spreads a frame's datagrams into batches with short gaps, under a
//! hard wall-clock budget, so a stretched sleep can only ever degrade to "no
//! pacing", never to added latency.
//!
//! Instants are microsecond readings of one monotonic clock; pauses are
//! microsecond durations.

use vstd::prelude::*;

verus! {

/// Frames at or below this many fragments go out unpaced.
pub const PACE_THRESHOLD_FRAGS: usize = 16;
/// Datagrams per burst between gaps.
pub const BATCH_SIZE: usize = 32;
/// The whole frame must be on the wire within this budget (microseconds).
pub const MAX_SPREAD_US: u64 = 3000;
/// Nominal gap between batches (microseconds).
pub const BATCH_GAP_US: u64 = 250;

/// Tracks the pacing schedule for one frame's send loop.
pub struct FramePacer {
    started: u64,
    total_frags: usize,
    sent: usize,
}

/// Time elapsed from `started` to `now`; zero when `now` reads earlier.
pub open spec fn elapsed_us(started: u64, now: u64) -> int {
    if now >= started { now - started } else { 0 }
}

/// The pause owed after the `sent`-th datagram of a frame of `total`
/// fragments whose pacing started at `started`, observed at `now`.
pub open spec fn pause_after(total: int, sent: int, started: u64, now: u64) -> u64 {
    if total <= PACE_THRESHOLD_FRAGS || sent >= total {
        0
    } else if sent % (BATCH_SIZE as int) != 0 {
        0
    } else if elapsed_us(started, now) + BATCH_GAP_US > MAX_SPREAD_US {
        0
    } else {
        BATCH_GAP_US
    }
}

impl FramePacer {
    /// When the frame's pacing started.
    pub closed spec fn started_us(&self) -> u64 {
        self.started
    }

    /// The frame's fragment count.
    pub closed spec fn total(&self) -> usize {
        self.total_frags
    }

    /// Datagrams recorded so far.
    pub closed spec fn sent_count(&self) -> usize {
        self.sent
    }

    pub fn new(total_frags: usize, now: u64) -> (pacer: Self)
        ensures
            pacer.started_us() == now,
            pacer.total() == total_frags,
            pacer.sent_count() == 0,
    {
        FramePacer { started: now, total_frags, sent: 0 }
    }

    /// Record one datagram sent; returns how long to pause before the next
    /// one (zero for most datagrams: only batch boundaries pause, and only
    /// while the budget allows).
    pub fn after_send(&mut self, now: u64) -> (pause: u64)
        requires
            old(self).sent_count() < usize::MAX,
        ensures
            final(self).started_us() == old(self).started_us(),
            final(self).total() == old(self).total(),
            final(self).sent_count() == old(self).sent_count() + 1,
            pause == pause_after(
                old(self).total() as int,
                old(self).sent_count() + 1,
                old(self).started_us(),
                now,
            ),
            // Pauses land on batch boundaries only, never after the final
            // datagram, and never push the frame past the budget.
            pause > 0 ==> pause == BATCH_GAP_US,
            pause > 0 ==> final(self).sent_count() % BATCH_SIZE == 0,
            pause > 0 ==> final(self).sent_count() < final(self).total(),
            pause > 0 ==> elapsed_us(old(self).started_us(), now) + pause <= MAX_SPREAD_US,
    {
        self.sent = self.sent + 1;
        if self.total_frags <= PACE_THRESHOLD_FRAGS || self.sent >= self.total_frags {
            return 0;
        }
        if self.sent % BATCH_SIZE != 0 {
            return 0;
        }
        let elapsed: u64 = if now >= self.started { now - self.started } else { 0 };
        if elapsed > MAX_SPREAD_US - BATCH_GAP_US {
            return 0;
        }
        BATCH_GAP_US
    }
}

} // verus!
