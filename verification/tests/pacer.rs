use eternal_monitor::pacer::{FramePacer, BATCH_GAP_US, BATCH_SIZE, MAX_SPREAD_US, PACE_THRESHOLD_FRAGS};

#[test]
fn small_frames_are_never_paced() {
    let now: u64 = 1_000_000;
    let mut pacer = FramePacer::new(PACE_THRESHOLD_FRAGS, now);
    for _ in 0..PACE_THRESHOLD_FRAGS {
        assert_eq!(pacer.after_send(now), 0);
    }
}

#[test]
fn large_frames_pause_at_batch_boundaries() {
    let now: u64 = 1_000_000;
    let mut pacer = FramePacer::new(100, now);
    let mut pauses = 0;
    for i in 1..=100usize {
        let pause = pacer.after_send(now);
        if pause > 0 {
            pauses += 1;
            assert!(i % BATCH_SIZE == 0, "pause must land on a batch boundary, got {i}");
        }
    }
    // 100 frags -> boundaries at 32, 64, 96 (not after the last datagram).
    assert_eq!(pauses, 3);
}

#[test]
fn budget_exhaustion_disables_further_gaps() {
    let start: u64 = 1_000_000;
    let mut pacer = FramePacer::new(1000, start);
    // Pretend the first gap was stretched way past the budget.
    let late = start + 10_000;
    for i in 1..=BATCH_SIZE * 3 {
        let pause = pacer.after_send(late);
        assert_eq!(pause, 0, "no further pacing once the budget is spent (datagram {i})");
    }
}

#[test]
fn never_pauses_after_the_final_datagram() {
    let now: u64 = 1_000_000;
    let mut pacer = FramePacer::new(BATCH_SIZE, now);
    for i in 1..=BATCH_SIZE {
        let pause = pacer.after_send(now);
        if i == BATCH_SIZE {
            assert_eq!(pause, 0);
        }
    }
}

#[test]
fn the_last_gap_that_fits_the_budget_is_still_granted() {
    let start: u64 = 500;
    let mut pacer = FramePacer::new(64, start);
    for _ in 1..BATCH_SIZE {
        assert_eq!(pacer.after_send(start), 0);
    }
    // 2750 us elapsed plus a 250 us gap lands exactly on the 3 ms budget.
    assert_eq!(pacer.after_send(start + MAX_SPREAD_US - BATCH_GAP_US), BATCH_GAP_US);
    let mut late = FramePacer::new(64, start);
    for _ in 1..BATCH_SIZE {
        late.after_send(start);
    }
    assert_eq!(late.after_send(start + MAX_SPREAD_US - BATCH_GAP_US + 1), 0);
}

#[test]
fn a_clock_reading_before_the_start_counts_as_no_time_spent() {
    let start: u64 = 10_000;
    let mut pacer = FramePacer::new(40, start);
    for _ in 1..BATCH_SIZE {
        pacer.after_send(start);
    }
    assert_eq!(pacer.after_send(0), BATCH_GAP_US);
}
