use sonora::clock::{correction, play_at, Clock, Nudge, Sample, SAMPLES};

#[test]
fn reads_the_offset_from_a_symmetric_round_trip() {
    let sample = Sample {
        t0: 0,
        t1: 1_010,
        t2: 1_010,
        t3: 20,
    };
    assert_eq!(sample.offset(), 1_000);
    assert_eq!(sample.rtt(), 20);
}

#[test]
fn a_host_processing_delay_does_not_move_the_offset() {
    let sample = Sample {
        t0: 0,
        t1: 1_010,
        t2: 1_110,
        t3: 120,
    };
    assert_eq!(sample.offset(), 1_000);
    assert_eq!(sample.rtt(), 20);
}

#[test]
fn the_least_queued_sample_wins() {
    let mut clock = Clock::new();
    clock.push(Sample {
        t0: 0,
        t1: 1_100,
        t2: 1_100,
        t3: 200,
    });
    clock.push(Sample {
        t0: 0,
        t1: 1_005,
        t2: 1_005,
        t3: 10,
    });
    clock.push(Sample {
        t0: 0,
        t1: 1_050,
        t2: 1_050,
        t3: 100,
    });
    assert_eq!(clock.best().unwrap().rtt(), 10);
    assert_eq!(clock.offset(), 1_000);
}

#[test]
fn it_keeps_only_the_recent_samples() {
    let mut clock = Clock::new();
    for step in 0..SAMPLES as u64 + 4 {
        clock.push(Sample {
            t0: 0,
            t1: 1_000 + step,
            t2: 1_000 + step,
            t3: 2 * step,
        });
    }
    assert_eq!(clock.len(), SAMPLES);
}

#[test]
fn a_sample_index_maps_to_a_play_time() {
    assert_eq!(play_at(1_000, 0, 44_100, 250), 1_250);
    assert_eq!(play_at(1_000, 44_100, 44_100, 250), 2_250);
    assert_eq!(play_at(1_000, 22_050, 44_100, 0), 1_500);
}

#[test]
fn a_tiny_error_is_held() {
    assert!(matches!(correction(0), Nudge::Hold));
    assert!(matches!(correction(1), Nudge::Hold));
    assert!(matches!(correction(-1), Nudge::Hold));
}

#[test]
fn a_small_error_slews_toward_the_host_in_both_directions() {
    assert!(matches!(correction(20), Nudge::Slew(n) if n > 0));
    assert!(matches!(correction(-20), Nudge::Slew(n) if n < 0));
}

#[test]
fn a_large_error_re_anchors_rather_than_slewing() {
    assert!(matches!(correction(500), Nudge::Anchor));
    assert!(matches!(correction(-500), Nudge::Anchor));
}

#[test]
fn an_empty_clock_reads_no_offset() {
    let clock = Clock::new();
    assert_eq!(clock.best(), None);
    assert_eq!(clock.offset(), 0);
    assert_eq!(clock.rtt(), 0);
    assert_eq!(clock.len(), 0);
}

#[test]
fn the_earliest_of_equal_samples_wins() {
    let mut clock = Clock::new();
    let first = Sample { t0: 0, t1: 500, t2: 500, t3: 10 };
    let second = Sample { t0: 0, t1: 900, t2: 900, t3: 10 };
    clock.push(first);
    clock.push(second);
    assert_eq!(clock.best(), Some(first));
    assert_eq!(clock.offset(), 495);
}

#[test]
fn the_window_forgets_the_oldest_sample_first() {
    let mut clock = Clock::new();
    let fast = Sample { t0: 0, t1: 10, t2: 10, t3: 1 };
    clock.push(fast);
    for step in 0..SAMPLES as u64 {
        clock.push(Sample { t0: 0, t1: 100, t2: 100, t3: 50 + step });
    }
    assert_eq!(clock.len(), SAMPLES);
    assert_eq!(clock.rtt(), 50);
}

#[test]
fn a_negative_offset_rounds_toward_zero() {
    let sample = Sample { t0: 100, t1: 0, t2: 1, t3: 100 };
    assert_eq!(sample.offset(), -99);
}

#[test]
fn timestamps_that_run_backwards_saturate_the_round_trip() {
    let sample = Sample { t0: 50, t1: 0, t2: 10, t3: 20 };
    assert_eq!(sample.rtt(), 0);
}

#[test]
fn a_slew_is_twenty_ppm_per_millisecond() {
    assert_eq!(correction(3), Nudge::Slew(60));
    assert_eq!(correction(-99), Nudge::Slew(-1_980));
    assert_eq!(correction(2), Nudge::Hold);
    assert_eq!(correction(100), Nudge::Anchor);
}

#[test]
fn a_zero_rate_counts_as_one_and_a_huge_index_saturates() {
    assert_eq!(play_at(0, 3, 0, 0), 3_000);
    assert_eq!(play_at(5, u64::MAX, 1, 0), u64::MAX);
}
