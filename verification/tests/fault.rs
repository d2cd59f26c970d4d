use eternal_monitor::fault::{FaultInjector, DRAW_SCALE, QUEUE_LIMIT, REORDER_WAIT_NS};

const NOW: u64 = 5_000_000_000;

fn threshold(rate: f64) -> u64 {
    (rate * DRAW_SCALE as f64).ceil().clamp(0.0, DRAW_SCALE as f64) as u64
}

fn ms(n: u64) -> u64 {
    n * 1_000_000
}

#[test]
fn drop_and_adjacent_reorder_are_deterministic() {
    let now = NOW;
    let mut drop = FaultInjector::new(threshold(1.0), 0, 0);
    assert!(drop.push(&[1], now).is_empty());
    assert!(drop.next_deadline().is_none());
    let mut swap = FaultInjector::new(0, threshold(1.0), 0);
    assert!(swap.push(&[1], now).is_empty());
    assert_eq!(swap.push(&[2], now), [vec![2], vec![1]]);
    assert!(swap.push(&[3], now).is_empty());
    assert_eq!(swap.drain_due(now + REORDER_WAIT_NS), [vec![3]]);
}

#[test]
fn jitter_stays_within_bound_and_reproduces_the_seed() {
    let now = NOW;
    let max = ms(12);
    let mut a = FaultInjector::new(threshold(0.05), threshold(0.02), max);
    let mut b = FaultInjector::new(threshold(0.05), threshold(0.02), max);
    for value in 0..200u8 {
        assert_eq!(a.push(&[value], now), b.push(&[value], now));
        assert_eq!(a.next_deadline(), b.next_deadline());
    }
    assert!(a.queue_len() > 0);
    assert!(a.due_times().iter().all(|at| *at >= now && *at <= now + max));
    let first = a.drain_due(now + max + REORDER_WAIT_NS);
    assert_eq!(first, b.drain_due(now + max + REORDER_WAIT_NS));
    assert!(!first.is_empty());
    assert!(a.next_deadline().is_none());
}

#[test]
fn queue_is_bounded_and_clear_discards_old_session_datagrams() {
    let now = NOW;
    let mut injector = FaultInjector::new(0, 0, ms(1000));
    for _ in 0..QUEUE_LIMIT + 100 {
        injector.push(&[1], now);
    }
    assert_eq!(injector.queue_len(), QUEUE_LIMIT);
    injector.clear();
    assert!(injector.next_deadline().is_none());
}

#[test]
fn without_faults_datagrams_pass_straight_through() {
    let mut injector = FaultInjector::new(0, 0, 0);
    assert!(!injector.enabled());
    assert_eq!(injector.push(&[7, 8], NOW), [vec![7, 8]]);
    assert_eq!(injector.push(&[9], NOW + 1), [vec![9]]);
    assert!(injector.next_deadline().is_none());
}

#[test]
fn a_held_datagram_waits_for_its_deadline() {
    let mut injector = FaultInjector::new(0, threshold(1.0), 0);
    assert!(injector.enabled());
    assert!(injector.push(&[1], NOW).is_empty());
    assert_eq!(injector.next_deadline(), Some(NOW + REORDER_WAIT_NS));
    assert!(injector.drain_due(NOW + REORDER_WAIT_NS - 1).is_empty());
    assert_eq!(injector.drain_due(NOW + REORDER_WAIT_NS), [vec![1]]);
    assert!(injector.next_deadline().is_none());
}

#[test]
fn jittered_datagrams_leave_in_due_order() {
    let mut injector = FaultInjector::new(0, 0, ms(5));
    let mut out = Vec::new();
    for value in 0..50u8 {
        out.extend(injector.push(&[value], NOW));
    }
    let times = injector.due_times();
    assert!(times.windows(2).all(|w| w[0] <= w[1]));
    out.extend(injector.drain_due(NOW + ms(5)));
    assert_eq!(out.len(), 50);
    assert!(injector.next_deadline().is_none());
}
