use eternal_monitor::media::MediaHeader;
use eternal_monitor::reassembly::{
    AddOutcome, DropReason, Reassembler, EPOCH_RESYNC_THRESHOLD,
};

fn feed(r: &mut Reassembler, seq: u32, index: u16, count: u16, epoch: u32, byte: u8, now: u64) -> AddOutcome {
    r.add_fragment(seq, index, count, epoch, &[byte], now)
}

const START: u64 = 1_000_000;

#[test]
fn assembles_in_order_and_out_of_order() {
    let now = START;
    let mut r = Reassembler::new();
    assert_eq!(feed(&mut r, 1, 0, 3, 1, 0xA, now), AddOutcome::Stored);
    assert_eq!(feed(&mut r, 1, 2, 3, 1, 0xC, now), AddOutcome::Stored);
    assert_eq!(feed(&mut r, 1, 1, 3, 1, 0xB, now), AddOutcome::Completed(vec![0xA, 0xB, 0xC]));
    assert_eq!(r.counters().frames_complete, 1);
    assert_eq!(feed(&mut r, 2, 0, 1, 1, 0xD, now), AddOutcome::Completed(vec![0xD]));
}

#[test]
fn duplicate_of_completed_frame_is_ignored() {
    let now = START;
    let mut r = Reassembler::new();
    feed(&mut r, 1, 0, 1, 1, 0xA, now);
    assert_eq!(feed(&mut r, 1, 0, 1, 1, 0xA, now), AddOutcome::Dropped(DropReason::DuplicateCompleted));
}

#[test]
fn stale_seq_within_gap_is_dropped_but_big_backjump_resets() {
    let now = START;
    let mut r = Reassembler::new();
    feed(&mut r, 500, 0, 1, 1, 0xA, now);
    assert_eq!(feed(&mut r, 499, 0, 1, 1, 0xB, now), AddOutcome::Dropped(DropReason::StaleSeq));
    assert_eq!(feed(&mut r, 1, 0, 1, 1, 0xC, now), AddOutcome::Completed(vec![0xC]));
    assert_eq!(r.latest_completed_seq(), 1);
}

#[test]
fn higher_epoch_resets_lower_epoch_is_dropped() {
    let now = START;
    let mut r = Reassembler::new();
    feed(&mut r, 900, 0, 1, 5, 0xA, now);
    assert_eq!(feed(&mut r, 890, 0, 1, 5, 0xB, now), AddOutcome::Dropped(DropReason::StaleSeq));
    assert_eq!(feed(&mut r, 1, 0, 1, 6, 0xC, now), AddOutcome::Completed(vec![0xC]));
    assert_eq!(feed(&mut r, 901, 0, 1, 5, 0xD, now), AddOutcome::Dropped(DropReason::StaleEpoch));
}

#[test]
fn one_bogus_epoch_cannot_strand_the_stream() {
    let now = START;
    let mut r = Reassembler::new();
    feed(&mut r, 10, 0, 1, 5, 0xA, now);
    feed(&mut r, 11, 0, 1, u32::MAX, 0xFF, now);
    for i in 0..(EPOCH_RESYNC_THRESHOLD - 1) {
        assert_eq!(
            feed(&mut r, 100 + i, 0, 1, 5, 0xB, now),
            AddOutcome::Dropped(DropReason::StaleEpoch),
            "fragment {i} should still be dropped before the resync threshold"
        );
    }
    assert_eq!(
        feed(&mut r, 900, 0, 1, 5, 0xC, now),
        AddOutcome::Completed(vec![0xC]),
        "the receiver must recover instead of staying bricked forever"
    );
    assert_eq!(feed(&mut r, 901, 0, 1, 5, 0xD, now), AddOutcome::Completed(vec![0xD]));
}

#[test]
fn interleaved_stragglers_never_trip_the_resync() {
    let now = START;
    let mut r = Reassembler::new();
    feed(&mut r, 1, 0, 1, 7, 0xA, now);
    for i in 0..(EPOCH_RESYNC_THRESHOLD * 2) {
        assert_eq!(feed(&mut r, 1000 + i, 0, 1, 8, 0xB, now), AddOutcome::Completed(vec![0xB]));
        assert_eq!(
            feed(&mut r, 500 + i, 0, 1, 7, 0xC, now),
            AddOutcome::Dropped(DropReason::StaleEpoch),
            "old-run straggler {i} must stay dropped"
        );
    }
}

#[test]
fn completion_evicts_older_partials_and_counts_them_dropped() {
    let now = START;
    let mut r = Reassembler::new();
    feed(&mut r, 1, 0, 2, 1, 0xA, now);
    assert_eq!(feed(&mut r, 2, 0, 1, 1, 0xB, now), AddOutcome::Completed(vec![0xB]));
    assert_eq!(r.pending_frames(), 0);
    assert_eq!(r.counters().frames_dropped, 1);
    assert_eq!(r.counters().frags_lost, 1);
    assert_eq!(feed(&mut r, 1, 1, 2, 1, 0xC, now), AddOutcome::Dropped(DropReason::StaleSeq));
}

#[test]
fn first_seen_fragment_count_wins_and_progress_survives() {
    let now = START;
    let mut r = Reassembler::new();
    feed(&mut r, 1, 0, 3, 1, 0xA, now);
    assert_eq!(feed(&mut r, 1, 1, 2, 1, 0xB, now), AddOutcome::Dropped(DropReason::CountMismatch));
    assert_eq!(feed(&mut r, 1, 1, 3, 1, 0xB, now), AddOutcome::Stored);
    assert_eq!(
        feed(&mut r, 1, 2, 3, 1, 0xC, now),
        AddOutcome::Completed(vec![0xA, 0xB, 0xC]),
        "the original fragments must still be there"
    );
}

#[test]
fn replayed_fragment_neither_overwrites_nor_counts_twice() {
    let now = START;
    let mut r = Reassembler::new();
    feed(&mut r, 1, 0, 2, 1, 0xA, now);
    assert_eq!(feed(&mut r, 1, 0, 2, 1, 0xFF, now), AddOutcome::Dropped(DropReason::DuplicateFragment));
    assert_eq!(r.counters().frags_received, 1, "a replay is not a receipt");
    assert_eq!(feed(&mut r, 1, 1, 2, 1, 0xB, now), AddOutcome::Completed(vec![0xA, 0xB]), "the first write must win");
}

#[test]
fn loss_counts_the_fragments_that_never_arrived() {
    let now = START;
    let mut r = Reassembler::new();
    for index in 0..9u16 {
        feed(&mut r, 1, index, 10, 1, 0xA, now);
    }
    assert_eq!(feed(&mut r, 2, 0, 1, 1, 0xB, now), AddOutcome::Completed(vec![0xB]));
    assert_eq!(r.counters().frames_dropped, 1);
    assert_eq!(r.counters().frags_lost, 1);
}

#[test]
fn invalid_fragments_are_rejected() {
    let now = START;
    let mut r = Reassembler::new();
    assert_eq!(feed(&mut r, 1, 0, 0, 1, 0xA, now), AddOutcome::Dropped(DropReason::ZeroCount));
    assert_eq!(feed(&mut r, 1, 2, 2, 1, 0xA, now), AddOutcome::Dropped(DropReason::IndexOutOfRange));
    assert_eq!(feed(&mut r, 1, 0, 2000, 1, 0xA, now), AddOutcome::Dropped(DropReason::CountExceedsCap));
}

#[test]
fn stale_partials_are_evicted_on_cleanup_tick() {
    let start = START;
    let mut r = Reassembler::new();
    feed(&mut r, 1, 0, 2, 1, 0xA, start);
    let later = start + 500_000;
    for i in 0..99u32 {
        feed(&mut r, 10 + i, 0, 2, 1, 0xB, later);
    }
    assert!(!r.is_pending(1), "stale frame must be evicted by the periodic cleanup");
    assert!(r.counters().frames_dropped >= 1);
}

#[test]
fn reset_clears_epoch_and_state() {
    let now = START;
    let mut r = Reassembler::new();
    feed(&mut r, 5, 0, 2, 9, 0xA, now);
    r.reset();
    assert_eq!(r.pending_frames(), 0);
    assert_eq!(feed(&mut r, 1, 0, 1, 2, 0xB, now), AddOutcome::Completed(vec![0xB]));
}

fn media(seq: u32, index: u16, count: u16, retransmit: bool, keyframe: bool) -> MediaHeader {
    MediaHeader {
        session_id: 1,
        stream_epoch: 1,
        frame_seq: seq,
        frag_index: index,
        frag_count: count,
        is_keyframe: keyframe,
        is_retransmit: retransmit,
        capture_ts_us: 0,
        payload_len: 1,
    }
}

#[test]
fn repair_mode_requests_missing_fragments_and_delivers_in_order() {
    let mut r = Reassembler::new();
    r.configure_repair(true, 16_667, 10_000);
    let t = START;
    assert_eq!(r.add_media(media(1, 0, 3, false, true), &[1], t), AddOutcome::Stored);
    // Index 2 arrives before index 1: a gap opens and index 1 is requested.
    assert_eq!(r.add_media(media(1, 2, 3, false, true), &[3], t + 100), AddOutcome::Stored);
    let nacks = r.take_nacks();
    assert_eq!(nacks.len(), 1);
    assert_eq!(nacks[0].frame_seq, 1);
    assert_eq!(nacks[0].missing, vec![1]);
    assert_eq!(r.counters().nacks_sent, 1);
    // The repair arrives and the frame is delivered through the ready queue.
    assert_eq!(r.add_media(media(1, 1, 3, true, true), &[2], t + 200), AddOutcome::Stored);
    let ready = r.take_ready();
    assert_eq!(ready.len(), 1);
    assert_eq!(ready[0].seq, 1);
    assert_eq!(ready[0].payload, vec![1, 2, 3]);
    assert_eq!(r.counters().frags_repaired, 1);
    assert!(r.take_keyframe_request().is_none());
}

#[test]
fn repair_deadline_gives_up_and_asks_for_a_keyframe() {
    let mut r = Reassembler::new();
    r.configure_repair(true, 16_667, 10_000);
    let t = START;
    r.add_media(media(1, 0, 2, false, false), &[1], t);
    // A frame period passes: the tick opens the repair window.
    r.tick(t + 20_000);
    assert_eq!(r.take_nacks().len(), 1);
    // Well past the deadline and the stall allowance.
    r.tick(t + 1_000_000);
    assert_eq!(r.pending_frames(), 0);
    assert_eq!(r.counters().frames_dropped, 1);
    assert_eq!(r.take_keyframe_request(), Some((1, 0)));
    // The abandoned frame is retired: a late fragment of it counts as already resolved.
    assert_eq!(r.add_media(media(1, 1, 2, true, false), &[2], t + 1_000_100), AddOutcome::Dropped(DropReason::DuplicateCompleted));
}

#[test]
fn a_swept_partial_is_counted_lost_and_asks_for_a_keyframe() {
    let mut r = Reassembler::new();
    assert_eq!(feed(&mut r, 1, 0, 3, 4, 0xA, START), AddOutcome::Stored);
    r.tick(START + 200_000);
    assert_eq!(r.pending_frames(), 0);
    assert_eq!(r.counters().frames_dropped, 1);
    assert_eq!(r.counters().frags_lost, 2);
    assert_eq!(r.take_keyframe_request(), Some((4, 0)));
    assert_eq!(r.take_keyframe_request(), None);
}

#[test]
fn a_ninth_frame_evicts_the_oldest_partial() {
    let mut r = Reassembler::new();
    for seq in 1..=8u32 {
        assert_eq!(feed(&mut r, seq, 0, 2, 1, 0xA, START), AddOutcome::Stored);
    }
    assert_eq!(feed(&mut r, 9, 0, 2, 1, 0xB, START), AddOutcome::Stored);
    assert_eq!(r.pending_frames(), 8);
    assert!(!r.is_pending(1));
    assert!(r.is_pending(9));
    assert_eq!(r.counters().frames_dropped, 1);
    assert_eq!(r.counters().frags_lost, 1);
    assert_eq!(r.counters().frags_received, 9);
}
