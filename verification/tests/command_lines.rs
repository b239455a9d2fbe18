//! The command lines of the probes and their verdicts.
use bridge_probes::args::{
    judge_comparison, judge_endurance, parse_child, parse_compare, parse_endpoint, parse_latency,
    parse_probe, parse_record, parse_replay, parse_soak, parse_standin, parse_throughput,
    EXIT_INTEGRITY, EXIT_REGRESSION, EXIT_RESOURCES, EXIT_RUN_FAILED,
};
use bridge_probes::monitor::{assess, Sample};
use bridge_probes::replay::Mode;

const SEC: u64 = 1_000_000_000;

fn words(line: &str) -> Vec<String> {
    line.split_whitespace().map(|w| w.to_string()).collect()
}

#[test]
fn minutes_and_seconds_compose() {
    let args = parse_soak(
        &words("--minutes 1 --seconds 30 --rate 5 --line-bytes 64 --checksum-every 7 --monitor-out m --monitor-interval-secs 2 --warmup-secs 3 --out r"),
        120,
    )
    .unwrap();
    let options = args.options();
    assert_eq!(options.duration_ns, 90 * u128::from(SEC));
    assert_eq!(options.lines_per_second, 5);
    assert_eq!(options.line_bytes, 64);
    assert_eq!(options.checksum_every, 7);
    assert_eq!(options.monitor_out.as_deref(), Some("m"));
    assert_eq!(options.monitor_interval_ns, 2 * u128::from(SEC));
    assert_eq!(options.warmup_ns, 3 * u128::from(SEC));
    assert_eq!(args.out.as_deref(), Some("r"));
    let plain = parse_soak(&words(""), 120).unwrap().options();
    assert_eq!((plain.duration_ns, plain.line_bytes), (1_800 * u128::from(SEC), 120));
    let long = parse_soak(&words("--seconds 18446744073709551615"), 1).unwrap();
    assert_eq!(long.duration, Some(u128::from(u64::MAX) * 1_000_000_000));
    let slow = parse_soak(&words("--seconds 20000000000 --rate 1"), 1).unwrap().options();
    assert_eq!(slow.lines(), 20_000_000_000);
    let patient = parse_soak(&words("--warmup-secs 18446744074 --monitor-interval-secs 18446744074"), 1)
        .unwrap()
        .options();
    assert_eq!(patient.warmup_ns, 18_446_744_074_000_000_000);
    assert_eq!(patient.monitor_interval_ns, 18_446_744_074_000_000_000);
    let patient = parse_standin(&words("--timeout-secs 18446744074")).unwrap();
    assert_eq!(patient.timeout_ns, 18_446_744_074_000_000_000);
}

#[test]
fn a_misspelled_flag_is_an_error() {
    assert_eq!(parse_soak(&words("--rats 5"), 1).unwrap_err(), "soak: unknown flag --rats");
    assert_eq!(parse_soak(&words("--rate"), 1).unwrap_err(), "--rate needs a value");
    assert_eq!(parse_soak(&words("--rate x"), 1).unwrap_err(), "invalid --rate value: x");
    assert_eq!(
        parse_latency(&words("--x")).unwrap_err(),
        "bench-latency: unknown flag --x"
    );
    assert_eq!(
        parse_throughput(&words("--x"), 1).unwrap_err(),
        "bench-throughput: unknown flag --x"
    );
    assert_eq!(
        parse_child(&words("--x")).unwrap_err(),
        "unknown argument: --x. usage: replay-child --plan <file> [--bytes <file>]"
    );
    let failure = parse_standin(&words("--x")).unwrap_err();
    assert_eq!((failure.step, failure.code), ("args", 2));
    assert_eq!(failure.detail, "unknown standin option: --x");
}

#[test]
fn a_replay_needs_a_fixture() {
    assert_eq!(parse_replay(&words("")).unwrap_err(), "replay needs at least one --fixture");
    assert_eq!(
        parse_replay(&words("--content live")).unwrap_err(),
        "--content is generated or recorded, not live"
    );
    let args = parse_replay(&words(
        "--fixture a --fixture b --content recorded --idle-threshold-ms 250 --idle-divisor 4 --seconds 2",
    ))
    .unwrap();
    assert_eq!(args.fixtures, vec!["a", "b"]);
    let build = args.build(96);
    assert_eq!(build.mode, Mode::Recorded);
    assert_eq!(build.idle_threshold_ns, 250_000_000);
    assert_eq!((build.idle_divisor, build.duration_ns, build.line_bytes), (4, 2 * u128::from(SEC), 96));
}

#[test]
fn the_benches_read_their_options() {
    let latency = parse_latency(&words("--samples 9 --interval-us 8 --discard 7 --load d")).unwrap();
    assert_eq!((latency.samples, latency.interval_us, latency.discard), (9, 8, 7));
    assert_eq!(latency.load, vec!["d"]);
    let throughput = parse_throughput(&words("--lines 3 --sessions 2 --out o"), 80).unwrap();
    assert_eq!((throughput.lines, throughput.sessions, throughput.line_bytes), (3, 2, 80));
    assert_eq!(throughput.out.as_deref(), Some("o"));
}

#[test]
fn the_gate_needs_both_reports() {
    assert_eq!(parse_compare(&words("--current c")).unwrap_err(), "compare needs --baseline");
    assert_eq!(parse_compare(&words("--baseline b")).unwrap_err(), "compare needs --current");
    let (baseline, current) = parse_compare(&words("--current c --baseline b")).unwrap();
    assert_eq!((baseline.as_str(), current.as_str()), ("b", "c"));
    assert_eq!(parse_child(&words("--bytes b")).unwrap_err(), "--plan is required");
    let (plan, bytes) = parse_child(&words("--plan p --bytes b")).unwrap();
    assert_eq!((plan.as_str(), bytes.as_deref()), ("p", Some("b")));
}

#[test]
fn the_live_lanes_read_their_options() {
    let standin = parse_standin(&words("--first-token-ms 5 --timeout-secs 6")).unwrap();
    assert_eq!((standin.first_token_ms, standin.timeout_ns), (5, 6 * u128::from(SEC)));
    let probe = parse_probe(&words("--agent-bin b --model m --capture c --keep-workdir"), "agent").unwrap();
    assert_eq!(probe.claude_bin, "b");
    assert_eq!(probe.model.as_deref(), Some("m"));
    assert_eq!(probe.capture_to.as_deref(), Some("c"));
    assert!(probe.keep_workdir);
    let record = parse_record(&words(
        "--script s --out o --cols 120 --rows 40 --cli-bin b --cli-version v --install i",
    ))
    .unwrap();
    assert_eq!((record.cols, record.rows), (120, 40));
    assert_eq!(record.cli_version.as_deref(), Some("v"));
    assert_eq!(
        parse_record(&words("--out o")).unwrap_err().detail,
        "record needs --script <scenario.json>"
    );
    assert_eq!(
        parse_record(&words("--script s")).unwrap_err().detail,
        "record needs --out <fixture-dir>"
    );
    for bad in ["0", "65536", "wide"] {
        assert_eq!(
            parse_record(&words(&format!("--cols {bad}"))).unwrap_err().detail,
            format!("invalid --cols value: {bad}")
        );
    }
    assert_eq!(parse_endpoint(&words("x --endpoint /s")).unwrap(), "/s");
    assert_eq!(parse_endpoint(&words("--endpoint")).unwrap_err(), "--endpoint needs a value");
    assert_eq!(
        parse_endpoint(&words("x")).unwrap_err(),
        "hook-forward needs --endpoint <path-or-pipe-name>"
    );
}

#[test]
fn corruption_is_blamed_before_resources() {
    let sample = |t_ns, descriptors| Sample { t_ns, descriptors, rss_bytes: 100 };
    let leak = assess(&[sample(0, 5), sample(1, 9)], 0);
    let exit = judge_endurance(false, "2 faults", &leak).unwrap_err();
    assert_eq!(exit.code, EXIT_INTEGRITY);
    assert_eq!(exit.detail, "the stream did not survive intact: 2 faults");
    let exit = judge_endurance(true, "clean", &leak).unwrap_err();
    assert_eq!(exit.code, EXIT_RESOURCES);
    assert_eq!(
        exit.detail,
        "resource budgets missed: descriptor delta 4, resident growth 0 bytes"
    );
    assert!(judge_endurance(true, "clean", &None).is_ok());
    assert!(judge_endurance(true, "clean", &assess(&[sample(0, 9), sample(1, 5)], 0)).is_ok());
    assert!(judge_comparison(&Ok(true)).is_ok());
    assert_eq!(judge_comparison(&Ok(false)).unwrap_err().code, EXIT_REGRESSION);
    assert_eq!(
        judge_comparison(&Err("no".to_string())).unwrap_err().code,
        EXIT_RUN_FAILED
    );
}
