//! Distributions, budgets, reports, the regression gate and the clock.
use bridge_probes::clock::Anchor;
use bridge_probes::compare::{compare, run};
use bridge_probes::monitor::{
    assess, descriptor_noun, descriptors_listed, resident_bytes, resident_pages, Sample,
    RSS_GROWTH_BUDGET_BYTES,
};
use bridge_probes::report::{
    accept_report, host_kind, Budget, Measurement, Origin, Report, Verdict, SCHEMA,
};
use bridge_probes::stats::{summarize, Summary};
use bridge_probes::{human_bytes, human_ns};

const SEC: u64 = 1_000_000_000;
const WIDE_SEC: u128 = 1_000_000_000;

fn origin() -> Origin {
    Origin {
        os: "linux".to_string(),
        arch: "x86_64".to_string(),
        host: "unidentified machine".to_string(),
        captured_unix_s: 1,
    }
}

#[test]
fn conversion_agrees_with_a_reading_taken_beside_it() {
    let origin = std::time::Instant::now();
    let instant = || origin.elapsed().as_nanos() as u64;
    let shared = 7 * SEC;
    let anchor = Anchor::take(instant(), shared + instant());
    let at = instant();
    let direct = shared + instant();
    let converted = anchor.ns_at(at);
    assert!(
        direct.abs_diff(converted) < 1_000_000,
        "converting an instant taken beside a direct reading disagreed by {} ns",
        direct.abs_diff(converted)
    );
}

#[test]
fn instants_from_before_the_anchor_convert_backwards() {
    let earlier = 100;
    let anchor = Anchor::take(20_000_100, 5 * SEC);
    assert!(
        anchor.ns_at(earlier) < 5 * SEC,
        "an instant from before the anchor must convert to an earlier reading"
    );
    assert_eq!(anchor.ns_at(earlier), 5 * SEC - 20_000_000);
    assert_eq!(anchor.ns_at(20_000_600), 5 * SEC + 500);
    assert_eq!(Anchor::take(1_000, 10).ns_at(0), 0);
}

fn latency_report(p99_ns: u64) -> Report {
    let summary = Summary {
        count: 10_000,
        min: p99_ns / 10,
        p50: p99_ns / 2,
        p90: p99_ns * 9 / 10,
        p99: p99_ns,
        max: p99_ns * 3,
        mean: p99_ns / 2,
    };
    let mut report = Report::new("bench-latency", "synthetic", &origin());
    report.add(Measurement::from_p99(
        "first_byte_latency",
        "ns",
        summary,
        Some(Budget::AtMost(50_000_000)),
    ));
    report.add(Measurement::scalar(
        "aggregate_throughput",
        "lines_per_second",
        100_000,
        None,
    ));
    report
}

#[test]
fn within_the_threshold_passes() {
    let comparison =
        compare(&latency_report(1_000_000), &latency_report(1_150_000)).expect("comparable");
    assert!(comparison.passed());
    assert!(comparison.improvements.is_empty());
}

#[test]
fn past_the_threshold_fails_and_names_the_numbers() {
    let comparison =
        compare(&latency_report(1_000_000), &latency_report(1_300_000)).expect("comparable");
    assert!(!comparison.passed());
    assert!(
        comparison.regressions[0].contains("first_byte_latency"),
        "{:?}",
        comparison.regressions
    );
}

#[test]
fn exactly_the_threshold_passes() {
    let comparison =
        compare(&latency_report(1_000_000), &latency_report(1_200_000)).expect("comparable");
    assert!(comparison.passed());
}

#[test]
fn a_marked_improvement_is_reported_not_silent() {
    let comparison =
        compare(&latency_report(1_000_000), &latency_report(500_000)).expect("comparable");
    assert!(comparison.passed());
    assert!(!comparison.improvements.is_empty());
}

#[test]
fn ungated_numbers_drift_without_failing() {
    let baseline = latency_report(1_000_000);
    let mut current = latency_report(1_000_000);
    current
        .measurements
        .iter_mut()
        .find(|m| m.name == "aggregate_throughput")
        .expect("present")
        .value = 40_000;
    let comparison = compare(&baseline, &current).expect("comparable");
    assert!(comparison.passed(), "throughput does not gate");
    assert!(
        comparison
            .drift
            .iter()
            .any(|d| d.contains("aggregate_throughput")),
        "{:?}",
        comparison.drift
    );
}

#[test]
fn a_gated_measurement_cannot_disappear_silently() {
    let baseline = latency_report(1_000_000);
    let mut current = latency_report(1_000_000);
    current
        .measurements
        .retain(|m| m.name != "first_byte_latency");
    let comparison = compare(&baseline, &current).expect("comparable");
    assert!(!comparison.passed());
    assert!(
        comparison.regressions[0].contains("absent"),
        "{:?}",
        comparison.regressions
    );

    let mut current = latency_report(1_000_000);
    current
        .measurements
        .retain(|m| m.name != "aggregate_throughput");
    let comparison = compare(&baseline, &current).expect("comparable");
    assert!(
        comparison.passed(),
        "an ungated number disappearing is drift"
    );
    assert!(
        comparison
            .drift
            .iter()
            .any(|d| d.contains("no longer measured")),
        "{:?}",
        comparison.drift
    );
}

#[test]
fn a_unit_change_is_refused_not_compared_raw() {
    let baseline = latency_report(1_000_000);
    let mut current = latency_report(1_000_000);
    current
        .measurements
        .iter_mut()
        .find(|m| m.name == "first_byte_latency")
        .expect("present")
        .unit = "ms".to_string();
    let err = compare(&baseline, &current).expect_err("must refuse");
    assert!(err.contains("not comparable"), "unexpected error: {err}");
}

#[test]
fn cross_platform_comparison_is_refused() {
    let baseline = latency_report(1_000_000);
    let mut current = latency_report(1_000_000);
    current.os = "somewhere-else".to_string();
    let err = compare(&baseline, &current).expect_err("must refuse");
    assert!(err.contains("cross-platform"), "unexpected error: {err}");
}

#[test]
fn cross_lane_comparison_is_refused() {
    let baseline = latency_report(1_000_000);
    let mut current = latency_report(1_000_000);
    current.lane = "soak".to_string();
    assert!(compare(&baseline, &current).is_err());
}

#[test]
fn a_run_passes_against_itself() {
    let report = latency_report(1_000_000);
    let comparison = compare(&report, &report).expect("comparable");
    assert!(comparison.passed());
    assert!(comparison.improvements.is_empty());
    assert!(comparison.drift.is_empty());
    for value in [0, u64::MAX / 120 + 1, u64::MAX / 100 + 1, u64::MAX] {
        let report = latency_report(value);
        let comparison = compare(&report, &report).expect("comparable");
        assert!(comparison.passed(), "{value}");
        assert!(comparison.improvements.is_empty() && comparison.drift.is_empty());
    }
    let worse = compare(&latency_report(u64::MAX / 2), &latency_report(u64::MAX)).unwrap();
    assert!(!worse.passed());
}

#[test]
fn the_gate_speaks_in_step_lines() {
    let gate = run(&None, "/base.json", &latency_report(5)).unwrap();
    assert!(gate.passed);
    assert_eq!(
        gate.steps[0].detail,
        "no baseline at /base.json \u{2014} nothing to hold bench-latency against; record one deliberately from a trusted run"
    );
    let gate = run(&Some(latency_report(1_000)), "b", &latency_report(1_000)).unwrap();
    assert!(gate.passed);
    assert_eq!(gate.steps.len(), 1);
    assert_eq!(gate.steps[0].detail, "bench-latency within 20% of its baseline");
    let gate = run(&Some(latency_report(1_000)), "b", &latency_report(2_000)).unwrap();
    assert!(!gate.passed);
    assert!(!gate.steps[0].pass);
    assert!(gate.steps[0].detail.starts_with("regression: first_byte_latency"));
}

#[test]
fn byte_counts_are_rendered_at_a_readable_scale() {
    assert_eq!(human_bytes(512), "512 B");
    assert_eq!(human_bytes(10 * 1024 * 1024), "10.0 MiB");
    assert_eq!(human_bytes(3 * (1 << 30)), "3.0 GiB");
}

#[test]
fn durations_are_rendered_at_a_readable_scale() {
    assert_eq!(human_ns(900), "900 ns");
    assert_eq!(human_ns(1_500), "1.50 µs");
    assert_eq!(human_ns(50_000_000), "50.00 ms");
    assert_eq!(human_ns(1_800_000_000_000), "1800.00 s");
}

/// Every value is rendered as a double divided and formatted would be.
#[test]
fn readable_scales_round_as_doubles_do() {
    let mut n: u64 = 1;
    for step in 0..4_000u64 {
        n = n.wrapping_mul(6_364_136_223_846_793_005).wrapping_add(1_442_695_040_888_963_407);
        let bytes = n >> (step % 64);
        let kib = 1024f64;
        let expected = if bytes < 1024 {
            format!("{bytes} B")
        } else if bytes < 1 << 20 {
            format!("{:.1} KiB", bytes as f64 / kib)
        } else if bytes < 1 << 30 {
            format!("{:.1} MiB", bytes as f64 / (kib * kib))
        } else {
            format!("{:.1} GiB", bytes as f64 / (kib * kib * kib))
        };
        assert_eq!(human_bytes(bytes), expected);
        let ns = bytes;
        let expected = if ns < 1_000 {
            format!("{ns} ns")
        } else if ns < 1_000_000 {
            format!("{:.2} µs", ns as f64 / 1_000.0)
        } else if ns < 1_000_000_000 {
            format!("{:.2} ms", ns as f64 / 1_000_000.0)
        } else {
            format!("{:.2} s", ns as f64 / 1_000_000_000.0)
        };
        assert_eq!(human_ns(ns), expected);
    }
}

fn sample(t_ns: u64, descriptors: u64, rss_bytes: u64) -> Sample {
    Sample { t_ns, descriptors, rss_bytes }
}

#[test]
fn growth_is_measured_from_after_the_warm_up_window() {
    let samples = [
        sample(0, 100, 50_000_000), // startup ramp — must not be the baseline
        sample(60_000_000_000, 20, 10_000_000),
        sample(120_000_000_000, 20, 11_000_000),
    ];
    let assessment = assess(&samples, 60 * WIDE_SEC).expect("a series past the warm-up assesses");
    assert_eq!(assessment.baseline_index, 1);
    assert_eq!(assessment.descriptor_delta, 0);
    assert_eq!(assessment.rss_growth_bytes, 1_000_000);
    assert!(assessment.within_budget());
}

#[test]
fn a_descriptor_that_stays_open_is_a_leak() {
    let samples = [
        sample(60_000_000_000, 20, 10_000_000),
        sample(120_000_000_000, 21, 10_000_000),
    ];
    let assessment = assess(&samples, 60 * WIDE_SEC).expect("assessable");
    assert_eq!(assessment.descriptor_delta, 1);
    assert!(assessment.descriptors_leaked);
    assert!(!assessment.within_budget());
}

#[test]
fn ending_below_the_baseline_is_not_a_leak() {
    let samples = [
        sample(60_000_000_000, 25, 12_000_000),
        sample(120_000_000_000, 20, 10_000_000),
    ];
    let assessment = assess(&samples, 60 * WIDE_SEC).expect("assessable");
    assert_eq!(assessment.descriptor_delta, -5);
    assert!(!assessment.descriptors_leaked);
    assert!(assessment.within_budget());
}

#[test]
fn growth_past_the_budget_fails() {
    let samples = [
        sample(60_000_000_000, 20, 10_000_000),
        sample(
            120_000_000_000,
            20,
            10_000_000 + RSS_GROWTH_BUDGET_BYTES + 1,
        ),
    ];
    let assessment = assess(&samples, 60 * WIDE_SEC).expect("assessable");
    assert!(assessment.rss_over_budget);
    assert!(!assessment.within_budget());
}

#[test]
fn a_spike_that_was_released_still_shows_in_the_peak() {
    let samples = [
        sample(60_000_000_000, 20, 10_000_000),
        sample(90_000_000_000, 20, 900_000_000),
        sample(120_000_000_000, 20, 10_000_000),
    ];
    let assessment = assess(&samples, 60 * WIDE_SEC).expect("assessable");
    assert_eq!(assessment.rss_growth_bytes, 0);
    assert_eq!(assessment.peak_rss_bytes, 900_000_000);
}

#[test]
fn a_run_too_short_to_have_a_steady_state_reports_nothing() {
    assert!(assess(&[sample(0, 20, 10_000_000)], 60 * WIDE_SEC).is_none());
    // A single sample past the window is a baseline with nothing to
    // compare against.
    assert!(assess(
        &[
            sample(0, 20, 10_000_000),
            sample(61_000_000_000, 20, 10_000_000)
        ],
        60 * WIDE_SEC
    )
    .is_none());
}

#[test]
fn memory_statistics_are_read_by_field() {
    assert_eq!(resident_pages("2049 512 300 1 0 99 0\n").unwrap(), 512);
    assert_eq!(resident_pages("  7\t8").unwrap(), 8);
    assert_eq!(
        resident_pages("2049\n").unwrap_err(),
        "/proc/self/statm: no resident field in \"2049\\n\""
    );
    assert_eq!(
        resident_pages("2049 x").unwrap_err(),
        "/proc/self/statm: unreadable resident field: invalid digit found in string"
    );
    assert_eq!(resident_bytes(512, 4096).unwrap(), 2_097_152);
    assert_eq!(
        resident_bytes(512, -1).unwrap_err(),
        "sysconf(_SC_PAGESIZE) gave no usable page size"
    );
    assert_eq!(descriptors_listed(4), 3);
    assert_eq!(descriptors_listed(0), 0);
    assert_eq!(descriptor_noun(true), "open handles");
}

fn summary(p99: u64) -> Summary {
    Summary {
        count: 10_000,
        min: 1,
        p50: p99 / 2,
        p90: p99 - 1,
        p99,
        max: p99 * 4,
        mean: p99 / 2,
    }
}

#[test]
fn a_latency_inside_its_budget_is_met() {
    let m = Measurement::from_p99(
        "first_byte_latency",
        "ns",
        summary(40_000_000),
        Some(Budget::AtMost(50_000_000)),
    );
    assert_eq!(m.verdict, Verdict::Met);
    assert_eq!(m.value, 40_000_000);
    assert_eq!(m.statistic.as_deref(), Some("p99"));
}

#[test]
fn a_latency_over_its_budget_is_exceeded_not_silent() {
    let m = Measurement::from_p99(
        "input_forwarding_latency",
        "ns",
        summary(11_000_000),
        Some(Budget::AtMost(10_000_000)),
    );
    assert_eq!(m.verdict, Verdict::Exceeded);
}

#[test]
fn throughput_budgets_read_the_other_way() {
    let floor = Budget::AtLeast(1000);
    assert!(floor.met_by(1000));
    assert!(floor.met_by(5000));
    assert!(!floor.met_by(999));
    assert!(floor.higher_is_better());
    assert!(!Budget::AtMost(10).higher_is_better());
    assert_eq!(floor.limit(), 1000);
}

#[test]
fn a_measurement_without_a_budget_is_neither_pass_nor_fail() {
    let m = Measurement::scalar("aggregate_throughput", "lines_per_second", 4200, None);
    assert_eq!(m.verdict, Verdict::Unbudgeted);
}

#[test]
fn a_report_from_another_schema_is_refused_rather_than_misread() {
    let mut report = Report::new("soak", "synthetic", &origin());
    report.note("idle periods compressed 4x");
    report.schema = SCHEMA + 1;
    let err = accept_report("/r.json", report).expect_err("a future schema must be refused");
    assert!(err.contains("schema"), "unexpected error: {err}");
    let report = Report::new("bench-latency", "synthetic", &origin());
    let read = accept_report("/r.json", report).expect("this schema must be accepted");
    assert_eq!(read.lane, "bench-latency");
    assert!(read.exceeded().is_empty());
}

#[test]
fn a_machine_is_named_as_far_as_it_says() {
    assert_eq!(host_kind(true, Some("r1"), true), "ci-runner (r1)");
    assert_eq!(host_kind(true, None, false), "ci-runner (unnamed)");
    assert_eq!(host_kind(false, Some("r1"), true), "ci-runner (unidentified)");
    assert_eq!(host_kind(false, None, false), "unidentified machine");
}

/// A distribution whose answers can be read off by hand: 1..=100, so the
/// P99 is 99 and the P50 is 50, under the nearest-rank definition.
#[test]
fn percentiles_match_a_known_distribution() {
    let mut samples: Vec<u64> = (1..=100).collect();
    let summary = summarize(&mut samples).expect("100 samples summarise");
    assert_eq!(summary.count, 100);
    assert_eq!(summary.min, 1);
    assert_eq!(summary.p50, 50);
    assert_eq!(summary.p90, 90);
    assert_eq!(summary.p99, 99);
    assert_eq!(summary.max, 100);
    assert_eq!(summary.mean, 50); // 5050/100 = 50.5, truncated
}

#[test]
fn the_order_samples_arrive_in_does_not_matter() {
    let mut ascending: Vec<u64> = (1..=1000).collect();
    let mut descending: Vec<u64> = (1..=1000).rev().collect();
    assert_eq!(summarize(&mut ascending), summarize(&mut descending));
}

#[test]
fn at_most_one_percent_of_samples_exceed_the_p99() {
    for n in [1usize, 7, 99, 100, 101, 10_000] {
        let mut samples: Vec<u64> = (0..n as u64).collect();
        let summary = summarize(&mut samples).expect("non-empty");
        let above = samples.iter().filter(|s| **s > summary.p99).count();
        assert!(
            above * 100 <= n,
            "n={n}: {above} samples above the P99 is more than 1%"
        );
    }
}

#[test]
fn a_single_sample_is_every_percentile() {
    let summary = summarize(&mut [42]).expect("one sample summarises");
    assert_eq!(
        (summary.min, summary.p50, summary.p99, summary.max),
        (42, 42, 42, 42)
    );
}

#[test]
fn no_samples_is_not_a_zero() {
    assert_eq!(summarize(&mut []), None);
}

#[test]
fn the_mean_does_not_overflow_on_large_samples() {
    let mut samples = vec![u64::MAX; 16];
    let summary = summarize(&mut samples).expect("non-empty");
    assert_eq!(summary.mean, u64::MAX);
}
