use osekai_scripts::eta::{Eta, TimeEstimate, BACKLOG_LEN};

#[test]
fn unknown_before_warmup() {
    let mut eta = Eta::new();
    assert_eq!(eta.estimate(10).0, None);
    for i in 0..19u64 {
        eta.tick(i * 1000);
        assert_eq!(eta.estimate(50).0, None);
    }
    assert_eq!(eta.estimate(50).describe(), "N/A");
    eta.tick(19_000);
    // 20 samples spanning 19 s: 19000 * 50 / 20 = 47500 ms
    assert_eq!(eta.estimate(50).0, Some(47_500));
}

#[test]
fn uniform_spacing_estimates_remaining_time() {
    let mut eta = Eta::new();
    for i in 0..21u64 {
        eta.tick(i * 1000);
    }
    // 21 samples spanning 20 s: 20000 * 42 / 21 = 40000 ms
    assert_eq!(eta.estimate(42).0, Some(40_000));
    let e = eta.estimate(100).0.unwrap();
    assert!(e <= 100 * 1000 && 100 * 1000 <= e + 100 * 1000 / 21 + 1);
}

#[test]
fn full_window_uses_oldest_kept_sample() {
    let mut eta = Eta::new();
    for i in 0..(BACKLOG_LEN as u64 + 50) {
        eta.tick(i * 10);
    }
    // samples 50..=249 (times 500..=2490): span 1990 over 200 samples
    assert_eq!(eta.estimate(200).0, Some(1990));
    assert_eq!(eta.get(0), 500);
    assert_eq!(eta.get(199), 2490);
}

#[test]
fn get_before_full_reads_unfilled_slots_as_zero() {
    let mut eta = Eta::new();
    eta.tick(7);
    eta.tick(9);
    assert_eq!(eta.get(0), 0);
    assert_eq!(eta.get(BACKLOG_LEN - 2), 7);
    assert_eq!(eta.get(BACKLOG_LEN - 1), 9);
}

#[test]
fn zero_remaining_is_zero_seconds() {
    let mut eta = Eta::new();
    for i in 0..30u64 {
        eta.tick(i * 5);
    }
    assert_eq!(eta.estimate(0).0, Some(0));
    assert_eq!(eta.estimate(0).describe(), "0s");
}

#[test]
fn estimate_text_forms() {
    assert_eq!(TimeEstimate::new(3_723_000).describe(), "1h2m3s");
    assert_eq!(TimeEstimate::new(3_600_000).describe(), "1h0m0s");
    assert_eq!(TimeEstimate::new(125_999).describe(), "2m5s");
    assert_eq!(TimeEstimate::new(59_999).describe(), "59s");
    assert_eq!(TimeEstimate(None).describe(), "N/A");
}

#[test]
fn estimate_in_seconds() {
    assert_eq!(TimeEstimate::new(1_999).as_seconds(), Some(1));
    assert_eq!(TimeEstimate(None).as_seconds(), None);
}
