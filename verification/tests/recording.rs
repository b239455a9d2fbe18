//! Record scripts, the step log and the fixture's artifacts.
use bridge_probes::capture::{
    meta_path_for, read_capture, utc_date, CaptureChunk, CaptureLine, CaptureWriter, LineRead,
};
use bridge_probes::firsttoken::FirstTokenClock;
use bridge_probes::hooks::{event_from, Decision};
use bridge_probes::json::{number, place, string, Json};
use bridge_probes::pty::{EndInfo, OutputTracker};
use bridge_probes::record::{
    artifacts_detail, check_script, generic_binary, generic_workdir_note, hook_artifacts,
    input_artifacts, is_printable_label, manifest, outcome_text, pause_slice, record_failure,
    scenario_label, script_detail, script_dir_of, side_channels_detail, stem_of, step_fault,
    step_result, strip_verbatim, wait_hook, workdir_left, yaml_quote, PathPrefix, RecordConfig,
    RecordStep, StepFault, StepLog, ARTIFACT_FILES,
};
use bridge_probes::rig::{HookLog, HookWait, WorkdirFate};
use bridge_probes::script::{key_bytes, parse_script, parse_step, script_of, RecordScript, StepKind};

/// The CLI that the full launch rig hosts.
const LIVE: &str = "agent";

const MS: u64 = 1_000_000;
const SEC: u64 = 1_000_000_000;
const WIDE_SEC: u128 = 1_000_000_000;
const WIDE_MS: u128 = 1_000_000;

fn parse_ok(json: &str) -> RecordScript {
    parse_script(json, "/fixtures", LIVE).expect("script must parse")
}

fn parse_err(json: &str) -> String {
    parse_script(json, "/fixtures", LIVE).expect_err("script must be rejected")
}

fn generic_header() -> &'static str {
    r#""name":"demo","description":"a demo","cli":"fake""#
}

#[test]
fn the_reference_generic_script_parses() {
    let script = parse_ok(&format!(
        r#"{{{},
          "args": ["{{script_dir}}/demo.fake.json"],
          "steps": [
            {{ "wait_text": "ready", "timeout_ms": 5000 }},
            {{ "type_line": "y", "label": "answer-yes" }},
            {{ "press": "ctrl-c" }},
            {{ "pause_ms": 100 }},
            {{ "wait_quiet_ms": 500, "timeout_ms": 10000, "label": "stream-over" }}
          ]
        }}"#,
        generic_header()
    ));
    assert_eq!(script.name, "demo");
    assert!(!script.is_claude(LIVE));
    assert_eq!(
        script.args,
        vec!["/fixtures/demo.fake.json".to_string()],
        "{{script_dir}} must be substituted"
    );
    assert_eq!(script.steps.len(), 5);
    assert_eq!(script.steps[1].label.as_deref(), Some("answer-yes"));
    match &script.steps[2].kind {
        StepKind::Press { key, bytes } => {
            assert_eq!(key, "ctrl-c");
            assert_eq!(bytes, &vec![0x03]);
        }
        _ => panic!("step 3 must be a press"),
    }
}

#[test]
fn claude_only_steps_are_rejected_in_a_generic_script() {
    for step in [
        r#"{ "wait_hook": "Stop", "timeout_ms": 1000 }"#,
        r#"{ "set_decision": "allow" }"#,
    ] {
        let err = parse_err(&format!(r#"{{{}, "steps": [{step}]}}"#, generic_header()));
        assert!(
            err.contains("agent hook channel"),
            "step {step} must be rejected for a generic cli: {err}"
        );
    }
}

#[test]
fn a_claude_script_accepts_hook_steps_and_rejects_args() {
    let script = parse_ok(
        r#"{"name":"turn","description":"one turn","cli":"agent",
            "steps":[
              {"set_decision":"deny"},
              {"type_line":"list files","label":"tool-turn"},
              {"wait_hook":"Stop","timeout_ms":120000}
            ]}"#,
    );
    assert!(script.is_claude(LIVE));
    assert_eq!(script.steps.len(), 3);
    match &script.steps[0].kind {
        StepKind::SetDecision { decision } => assert_eq!(*decision, Decision::Deny),
        other => panic!("{other:?}"),
    }

    let err = parse_err(
        r#"{"name":"turn","description":"one turn","cli":"agent",
            "args":["--whatever"],
            "steps":[{"pause_ms":1}]}"#,
    );
    assert!(err.contains("\"args\""), "unexpected error: {err}");
}

#[test]
fn ambiguous_and_unknown_step_kinds_are_named() {
    let err = parse_err(&format!(
        r#"{{{}, "steps": [{{"type_line":"x","press":"enter"}}]}}"#,
        generic_header()
    ));
    assert!(err.contains("ambiguous"), "unexpected error: {err}");

    let err = parse_err(&format!(
        r#"{{{}, "steps": [{{"explode":true}}]}}"#,
        generic_header()
    ));
    assert!(err.contains("\"explode\""), "unexpected error: {err}");
    let err = parse_err(&format!(r#"{{{}, "steps": [{{}}]}}"#, generic_header()));
    assert!(err.starts_with("step 0: unknown step kind \u{2014} found no fields;"), "{err}");
}

#[test]
fn waits_require_their_timeout() {
    for step in [r#"{"wait_text":"x"}"#, r#"{"wait_quiet_ms":100}"#] {
        let err = parse_err(&format!(r#"{{{}, "steps": [{step}]}}"#, generic_header()));
        assert!(
            err.contains("timeout_ms"),
            "step {step} must demand a timeout: {err}"
        );
    }
}

#[test]
fn unknown_fields_on_a_step_are_rejected() {
    let err = parse_err(&format!(
        r#"{{{}, "steps": [{{"pause_ms":5,"color":"red"}}]}}"#,
        generic_header()
    ));
    assert!(err.contains("\"color\""), "unexpected error: {err}");
    assert_eq!(err, "step 0 (pause_ms): unknown field \"color\"");
}

#[test]
fn names_are_held_to_kebab_case() {
    for bad in ["Demo", "demo scenario", "-demo", "demo-"] {
        let err = parse_err(&format!(
            r#"{{"name":"{bad}","description":"d","cli":"fake","steps":[{{"pause_ms":1}}]}}"#
        ));
        assert!(err.contains("kebab-case"), "{bad} must be rejected: {err}");
    }
}

#[test]
fn descriptions_are_single_line() {
    let err = parse_err(
        r#"{"name":"d","description":"two\nlines","cli":"fake","steps":[{"pause_ms":1}]}"#,
    );
    assert!(err.contains("single line"), "unexpected error: {err}");
}

#[test]
fn key_map_covers_named_keys_and_single_characters() {
    assert_eq!(key_bytes("enter"), Some(b"\r".to_vec()));
    assert_eq!(key_bytes("down"), Some(b"\x1b[B".to_vec()));
    assert_eq!(key_bytes("ctrl-c"), Some(vec![0x03]));
    assert_eq!(key_bytes("2"), Some(b"2".to_vec()));
    assert_eq!(key_bytes("y"), Some(b"y".to_vec()));
    assert_eq!(key_bytes("F1"), None, "multi-char non-names are rejected");
    assert_eq!(key_bytes("é"), None, "non-ASCII keys are rejected");
    assert_eq!(key_bytes(""), None);
    assert_eq!(key_bytes("tab"), Some(b"\t".to_vec()));
    assert_eq!(key_bytes("esc"), Some(vec![0x1b]));
    assert_eq!(key_bytes("space"), Some(b" ".to_vec()));
    assert_eq!(key_bytes(" "), None);
    assert_eq!(key_bytes("backspace"), Some(vec![0x7f]));
    assert_eq!(key_bytes("left"), Some(b"\x1b[D".to_vec()));
}

#[test]
fn unknown_decisions_and_keys_are_rejected_at_parse() {
    let err = parse_err(
        r#"{"name":"d","description":"d","cli":"agent","steps":[{"set_decision":"maybe"}]}"#,
    );
    assert!(err.contains("\"maybe\""), "unexpected error: {err}");

    let err = parse_err(&format!(
        r#"{{{}, "steps": [{{"press":"super-key"}}]}}"#,
        generic_header()
    ));
    assert!(err.contains("\"super-key\""), "unexpected error: {err}");
}

#[test]
fn every_part_of_a_script_has_its_rejection() {
    assert!(parse_err("{").starts_with("invalid JSON: "));
    assert_eq!(parse_err("[]"), "the script must be a JSON object");
    assert!(parse_err(r#"{"zeta":1,"alpha":2}"#).starts_with("unknown top-level field \"alpha\""));
    assert_eq!(parse_err("{}"), "missing \"name\"");
    assert_eq!(parse_err(r#"{"name":7}"#), "\"name\" must be a string");
    assert_eq!(parse_err(r#"{"name":"a"}"#), "missing \"cli\"");
    assert_eq!(
        parse_err(r#"{"name":"a","cli":"b","description":""}"#),
        "\"description\" must be a non-empty string"
    );
    let head = r#""name":"a","cli":"b","description":"c""#;
    assert_eq!(parse_err(&format!("{{{head}}}")), "missing \"steps\"");
    assert_eq!(parse_err(&format!("{{{head},\"steps\":1}}")), "\"steps\" must be an array");
    assert_eq!(parse_err(&format!("{{{head},\"steps\":[]}}")), "\"steps\" must not be empty");
    assert_eq!(
        parse_err(&format!("{{{head},\"args\":1,\"steps\":[]}}")),
        "\"args\" must be an array of strings"
    );
    assert_eq!(
        parse_err(&format!("{{{head},\"args\":[\"x\",2],\"steps\":[]}}")),
        "args[1] must be a string"
    );
    assert_eq!(
        parse_err(&format!("{{{head},\"steps\":[3]}}")),
        "step 0: must be a JSON object"
    );
    assert_eq!(
        parse_err(&format!("{{{head},\"steps\":[{{\"pause_ms\":0}}]}}")),
        "step 0 (pause_ms): \"pause_ms\" must be a positive integer (milliseconds)"
    );
    assert_eq!(
        parse_err(&format!("{{{head},\"steps\":[{{\"pause_ms\":1}},{{\"type_line\":\"\"}}]}}")),
        "step 1 (type_line): \"type_line\" must be a non-empty string"
    );
    assert_eq!(
        parse_err(&format!("{{{head},\"steps\":[{{\"pause_ms\":1,\"label\":\"\"}}]}}")),
        "step 0 (pause_ms): \"label\" must be a non-empty string"
    );
}

#[test]
fn a_value_reads_as_a_script_without_its_text() {
    let step = Json::Object(vec![("pause_ms".to_string(), number(250))]);
    match parse_step(4, &step, false, LIVE).unwrap().kind {
        StepKind::Pause { ms } => assert_eq!(ms, 250),
        other => panic!("{other:?}"),
    }
    assert_eq!(
        script_of(&Json::Null, "/x", LIVE).unwrap_err(),
        "the script must be a JSON object"
    );
}

#[test]
fn yaml_quoting_escapes_controls_not_just_quotes() {
    assert_eq!(yaml_quote("plain 1.2.3"), "\"plain 1.2.3\"");
    assert_eq!(yaml_quote(r#"a "b" \c"#), r#""a \"b\" \\c""#);
    assert_eq!(yaml_quote("2.1.201\n"), "\"2.1.201\\n\"");
    assert_eq!(yaml_quote("a\tb\r"), "\"a\\tb\\r\"");
    assert_eq!(yaml_quote("esc\u{1b}[31m"), "\"esc\\u001B[31m\"");
    assert_eq!(yaml_quote("\u{7f}\u{9f}é"), "\"\\u007F\\u009Fé\"");
}

#[test]
fn provenance_labels_must_be_printable_and_non_empty() {
    assert!(is_printable_label("0.142.5"));
    assert!(is_printable_label("workspace build (cargo)"));
    for bad in ["", "   ", "\t", "1.0\n", "a\u{1b}b"] {
        assert!(!is_printable_label(bad), "{bad:?} must be rejected");
    }
}

#[test]
fn misfiled_scripts_fail_before_any_launch() {
    let script = parse_ok(
        r#"{"name":"roundtrip","description":"d","cli":"fake","steps":[{"pause_ms":1}]}"#,
    );
    // The invoker (the campaign) expects a different CLI: the failure names
    // both sides, before any child is spawned.
    let config = RecordConfig {
        script: "/s/roundtrip.record.json".to_string(),
        out: "/s/out".to_string(),
        expect_cli: Some("agent".to_string()),
        ..RecordConfig::default()
    };
    let name = Some("roundtrip.record.json".to_string());
    let failure = check_script(&config, &name, &script, LIVE).expect_err("a cli mismatch must fail");
    assert_eq!(failure.step, "script");
    assert_eq!(failure.code, 80);
    assert!(
        failure.detail.contains("\"fake\"") && failure.detail.contains("\"agent\""),
        "both names must be stated: {}",
        failure.detail
    );

    // The file stem and the script name disagree: fixture directories derive
    // from the stem and manifests from the name, so divergence is refused up
    // front.
    let config = RecordConfig {
        script: "/s/misnamed.record.json".to_string(),
        out: "/s/out".to_string(),
        ..RecordConfig::default()
    };
    let name = Some("misnamed.record.json".to_string());
    let failure =
        check_script(&config, &name, &script, LIVE).expect_err("a stem/name mismatch must fail");
    assert_eq!(failure.step, "script");
    assert!(
        failure.detail.contains("misnamed") && failure.detail.contains("roundtrip"),
        "both the stem and the name must be stated: {}",
        failure.detail
    );
}

#[test]
fn options_are_held_to_the_profile_they_are_meant_for() {
    let generic =
        parse_ok(r#"{"name":"a","description":"d","cli":"fake","steps":[{"pause_ms":1}]}"#);
    let agent =
        parse_ok(r#"{"name":"a","description":"d","cli":"agent","steps":[{"pause_ms":1}]}"#);
    let mut config = RecordConfig::default();
    let failure = check_script(&config, &None, &generic, LIVE).unwrap_err();
    assert_eq!((failure.step, failure.code), ("args", 2));
    assert!(failure.detail.contains("--cli-version"), "{}", failure.detail);
    assert!(check_script(&config, &None, &agent, LIVE).is_ok());
    config.cli_version = Some("1.0".to_string());
    assert!(check_script(&config, &None, &generic, LIVE).is_ok());
    let failure = check_script(&config, &None, &agent, LIVE).unwrap_err();
    assert!(failure.detail.contains("not accepted for a agent script"), "{}", failure.detail);
    config.model = Some("m".to_string());
    let failure = check_script(&config, &None, &generic, LIVE).unwrap_err();
    assert_eq!(failure.detail, "--model is only meaningful for a agent script");
    assert_eq!(stem_of("x.record.json").as_deref(), Some("x"));
    assert_eq!(stem_of("x.json"), None);
    assert_eq!(scenario_label(&generic), "a: d");
    assert_eq!(
        script_detail(&config, &generic),
        "a \u{2014} cli=fake steps=1 at 80x24 into "
    );
}

#[test]
fn input_artifacts_reproduce_the_capture_bytes_and_boundaries() {
    let t0 = 77;
    let mut writer = CaptureWriter::create(t0);
    let chunks: &[(u64, &[u8])] = &[
        (1_000, b"\x1b[2Jhello "),
        (2_000_000, "w\u{f6}rld".as_bytes()),
        (3_000_000_000, &[0xFF, 0x00]),
    ];
    let mut lines = Vec::new();
    for (t_ns, data) in chunks {
        let line = writer.record(t0 + *t_ns, data);
        let parsed = reparse(&line.to_text());
        lines.push(LineRead { text: line.to_text(), parsed: Ok(parsed) });
    }
    let read = read_capture("capture.ndjson", &lines).expect("the capture must read back");
    let files = input_artifacts(&read);
    assert_eq!(read.len(), 3);
    let expected: Vec<u8> = chunks.iter().flat_map(|(_, d)| d.iter().copied()).collect();
    assert_eq!(files.bytes, expected, "input.bytes must be the exact concatenation");

    let records: Vec<serde_json::Value> = files
        .timing
        .lines()
        .map(|line| serde_json::from_str(line).unwrap())
        .collect();
    assert_eq!(records.len(), 3);
    assert_eq!(records[0]["offset"], 0);
    assert_eq!(records[1]["offset"], chunks[0].1.len() as u64);
    assert_eq!(records[2]["monotonic_ns"], 3_000_000_000u64);
}

fn reparse(text: &str) -> CaptureLine {
    let value: serde_json::Value = serde_json::from_str(text).unwrap();
    CaptureLine {
        t_ns: value["t_ns"].as_u64().unwrap(),
        data: value["data"].as_str().unwrap().to_string(),
    }
}

#[test]
fn capture_roundtrip_preserves_bytes_and_pacing() {
    let t0 = 1_234;
    let mut writer = CaptureWriter::create(t0);
    let chunks: &[(u64, &[u8])] = &[
        (1_000, b"\x1b[2J\x1b[1;1H"),
        (2_500_000, "héllo 🌍".as_bytes()),
        (30_000_000_000, &[0x00, 0xFF, 0x03]), // raw bytes, not UTF-8
    ];
    let mut lines = Vec::new();
    for (t_ns, data) in chunks {
        let text = writer.record(t0 + *t_ns, data).to_text();
        lines.push(LineRead { parsed: Ok(reparse(&text)), text });
    }
    let meta = writer.finish("test-cli 0.0", "linux", 80, 24, "2026-07-10", "unit test");
    assert_eq!(meta.chunks, 3);
    assert_eq!(
        meta.bytes,
        chunks.iter().map(|(_, d)| d.len() as u64).sum::<u64>()
    );

    let read = read_capture("x.ndjson", &lines).unwrap();
    assert_eq!(read.len(), 3);
    for ((t_ns, data), chunk) in chunks.iter().zip(&read) {
        assert_eq!(chunk.t_ns, *t_ns, "pacing must survive the round-trip");
        assert_eq!(chunk.bytes, *data, "bytes must survive the round-trip");
    }
    assert_eq!(meta.cols, 80);
    assert_eq!(meta.captured_on, "2026-07-10");
}

#[test]
fn malformed_capture_lines_are_an_error_not_a_short_replay() {
    let first = "{\"t_ns\": 5, \"data\": \"aGk=\"}";
    let lines = vec![
        LineRead { text: first.to_string(), parsed: Ok(reparse(first)) },
        LineRead {
            text: "not json".to_string(),
            parsed: Err("expected ident at line 1 column 2".to_string()),
        },
    ];
    let err = read_capture("/tmp/malformed.ndjson", &lines).unwrap_err();
    assert!(err.contains(":2:"), "must name the bad line: {err}");
    let bad = vec![LineRead {
        text: "x".to_string(),
        parsed: Ok(CaptureLine { t_ns: 1, data: "!!".to_string() }),
    }];
    let err = read_capture("c", &bad).unwrap_err();
    assert!(err.starts_with("c:1: base64: "), "{err}");
}

#[test]
fn meta_path_sits_next_to_the_capture() {
    assert_eq!(meta_path_for("/tmp/x/capture.ndjson"), "/tmp/x/capture-meta.json");
}

#[test]
fn utc_date_converts_known_timestamps() {
    assert_eq!(utc_date(0), "1970-01-01");
    // 2026-07-10 00:00:00 UTC.
    assert_eq!(utc_date(1_783_641_600), "2026-07-10");
    // Leap-year day: 2024-02-29 12:00:00 UTC.
    assert_eq!(utc_date(1_709_208_000), "2024-02-29");
}

#[test]
fn the_manifest_names_the_session_and_sizes_what_exists() {
    let script = parse_ok(&format!(
        r#"{{{}, "steps": [{{"pause_ms":1}}]}}"#,
        generic_header()
    ));
    let sizes = vec![Some(5), None, Some(3), None, None, None];
    let install = Some("npm some-cli@0.1".to_string());
    let made = manifest(
        &script,
        "0.1 \"quoted\"",
        &install,
        "linux",
        120,
        40,
        "2026-07-10",
        &sizes,
    );
    let text = made.yaml;
    assert!(text.contains("cli: fake"), "{text}");
    assert!(
        text.contains(r#"cli_version: "0.1 \"quoted\"""#),
        "quotes in the version must be escaped: {text}"
    );
    assert!(
        text.contains(r#"install: "npm some-cli@0.1""#),
        "the install mechanism must be recorded: {text}"
    );
    assert!(text.contains("scenario: demo"), "{text}");
    assert!(text.contains("cols: 120"), "{text}");
    assert!(text.contains("rows: 40"), "{text}");
    assert!(text.contains("tier: ci"), "{text}");
    assert!(text.contains("  input.bytes: 5"), "{text}");
    assert!(text.contains("  steps.ndjson: 3"), "{text}");
    assert!(
        !text.contains("transcript.jsonl"),
        "absent artifacts must not be listed: {text}"
    );
    assert_eq!(made.summary, "input.bytes=5B steps.ndjson=3B");

    // No install mechanism supplied: the line is omitted, an honest absence,
    // never a placeholder value.
    let text = manifest(&script, "0.1", &None, "linux", 80, 24, "2026-07-10", &sizes).yaml;
    assert!(!text.contains("install:"), "{text}");
    assert_eq!(
        text,
        "# Captured-session fixture recorded by `interactive-probe record`.\n\
         # Generated file \u{2014} re-recording overwrites it; do not hand-edit.\n\
         cli: fake\ncli_version: \"0.1\"\nscenario: demo\ndescription: \"a demo\"\nos: linux\n\
         cols: 80\nrows: 24\ncaptured_on: 2026-07-10\ntier: ci\nartifacts:\n\
         \x20 input.bytes: 5\n\x20 steps.ndjson: 3\n"
    );
    assert_eq!(ARTIFACT_FILES[6], "manifest.yaml");
}

#[test]
fn the_step_log_carries_seq_time_label_and_outcome() {
    let t0 = 900 * MS;
    let mut log = StepLog::create(t0);
    let first = log.record(
        t0 + 5 * MS,
        350 * MS,
        "type_line",
        &vec![("text".to_string(), string("hello"))],
        Some("prompt"),
        "ok",
    );
    let second = log.record(
        t0 + 400 * MS,
        10 * MS,
        "press",
        &vec![("key".to_string(), string("down"))],
        None,
        "failed: gone",
    );
    let lines: Vec<serde_json::Value> = [&first, &second]
        .iter()
        .map(|line| serde_json::from_str(line).unwrap())
        .collect();
    assert_eq!(lines.len(), 2);
    assert_eq!(lines[0]["seq"], 1);
    assert_eq!(lines[0]["step"], "type_line");
    assert_eq!(lines[0]["label"], "prompt");
    assert_eq!(lines[0]["outcome"], "ok");
    assert_eq!(lines[0]["took_ms"], 350);
    assert_eq!(lines[1]["seq"], 2);
    assert!(lines[1].get("label").is_none());
    assert_eq!(lines[1]["outcome"], "failed: gone");
    assert!(
        lines[1]["t_ns"].as_u64().unwrap() > lines[0]["t_ns"].as_u64().unwrap(),
        "timestamps must be monotonic on the shared clock"
    );
    assert_eq!(
        first,
        "{\"label\":\"prompt\",\"outcome\":\"ok\",\"seq\":1,\"step\":\"type_line\",\"t_ns\":5000000,\"text\":\"hello\",\"took_ms\":350}\n"
    );
}

#[test]
fn a_placed_field_replaces_or_takes_its_place() {
    let mut fields = Vec::new();
    place(&mut fields, "m", number(1));
    place(&mut fields, "a", number(2));
    place(&mut fields, "mm", number(3));
    place(&mut fields, "m", number(4));
    assert_eq!(Json::Object(fields).to_text(), "{\"a\":2,\"m\":4,\"mm\":3}");
}

#[test]
fn every_kind_of_step_logs_its_own_fields() {
    let script = parse_ok(
        r#"{"name":"a","description":"d","cli":"agent","steps":[
            {"type_line":"t"},{"press":"up"},{"wait_quiet_ms":5,"timeout_ms":6},
            {"wait_text":"m","timeout_ms":7},{"wait_hook":"Stop","timeout_ms":8},
            {"set_decision":"none"},{"pause_ms":9,"label":"l"}]}"#,
    );
    let logged: Vec<String> = script
        .steps
        .iter()
        .map(|s| format!("{} {}", s.kind.name(), Json::Object(s.kind.log_fields()).to_text()))
        .collect();
    assert_eq!(
        logged,
        vec![
            "type_line {\"text\":\"t\"}",
            "press {\"key\":\"up\"}",
            "wait_quiet {\"quiet_ms\":5,\"timeout_ms\":6}",
            "wait_text {\"marker\":\"m\",\"timeout_ms\":7}",
            "wait_hook {\"hook\":\"Stop\",\"timeout_ms\":8}",
            "set_decision {\"decision\":\"none\"}",
            "pause {\"ms\":9}",
        ]
    );
    assert_eq!(
        step_result(6, &script.steps[6], 12 * MS, &None).unwrap(),
        "#7 pause (12ms) label=l"
    );
    assert_eq!(step_result(0, &script.steps[0], 0, &None).unwrap(), "#1 type_line (0ms)");
    let failure = step_result(1, &script.steps[1], 0, &Some("gone".to_string())).unwrap_err();
    assert_eq!(failure.code, 83);
    assert_eq!(failure.detail, "step 2 (press): gone");
    assert_eq!(outcome_text(&None), "ok");
    assert_eq!(outcome_text(&Some("x".to_string())), "failed: x");
}

fn quiet_tracker() -> OutputTracker {
    OutputTracker::new(FirstTokenClock::new(0), None)
}

#[test]
fn scripted_hook_waits_consume_hooks_in_order() {
    let mut log = HookLog::new();
    for name in ["Stop", "Notification", "Stop"] {
        log.push(event_from(&format!("{{\"hook_event_name\":\"{name}\"}}"), 1));
    }
    let tracker = quiet_tracker();
    let mut cursor = 0;
    match wait_hook(&log, &tracker, &mut cursor, "Stop", 0, WIDE_SEC, None) {
        HookWait::Seen(0) => {}
        other => panic!("{other:?}"),
    }
    assert_eq!(cursor, 1);
    match wait_hook(&log, &tracker, &mut cursor, "Stop", 0, WIDE_SEC, None) {
        HookWait::Seen(2) => {}
        other => panic!("{other:?}"),
    }
    assert_eq!(cursor, 3);
    match wait_hook(&log, &tracker, &mut cursor, "Stop", 0, WIDE_SEC, None) {
        HookWait::Wait => {}
        other => panic!("{other:?}"),
    }
    let mut cursor = 1;
    match wait_hook(&log, &tracker, &mut cursor, "SessionEnd", SEC, WIDE_SEC, None) {
        HookWait::Fail(text) => assert_eq!(
            text,
            "hook SessionEnd not observed within 1s (unconsumed hooks: [Notification, Stop]); screen tail: ''"
        ),
        other => panic!("{other:?}"),
    }
}

#[test]
fn an_ended_stream_shrinks_a_hook_wait_to_its_grace() {
    let mut tracker = quiet_tracker();
    tracker.note_end(EndInfo {
        reason: "eof".to_string(),
        cursor_queries_answered: 0,
        cursor_reply_error: None,
    });
    let log = HookLog::new();
    let mut cursor = 0;
    match wait_hook(&log, &tracker, &mut cursor, "Stop", 5 * SEC, 120 * WIDE_SEC, Some(SEC)) {
        HookWait::Wait => {}
        other => panic!("{other:?}"),
    }
    match wait_hook(&log, &tracker, &mut cursor, "Stop", 6 * SEC, 120 * WIDE_SEC, Some(2 * SEC)) {
        HookWait::Fail(text) => {
            assert!(text.contains("had already ended (eof)"), "{text}");
            assert!(text.contains("only the 2s in-flight grace"), "{text}");
        }
        other => panic!("{other:?}"),
    }
}

#[test]
fn hooks_are_persisted_verbatim_with_their_times() {
    let mut log = HookLog::new();
    log.push(event_from("{\"hook_event_name\":\"Stop\",\"n\":1}", 150));
    log.push(event_from("bad", 90));
    let files = hook_artifacts(&log, 100);
    assert_eq!(
        files.payloads,
        "{\"hook_event_name\":\"Stop\",\"n\":1}\n{\"hook_event_name\":\"unparseable\",\"raw\":\"bad\"}\n"
    );
    assert_eq!(
        files.timing,
        "{\"line\":1,\"monotonic_ns\":50}\n{\"line\":2,\"monotonic_ns\":0}\n"
    );
    assert_eq!(
        side_channels_detail(2, "/t.jsonl"),
        "2 hook payloads; transcript copied from /t.jsonl"
    );
    assert_eq!(artifacts_detail(9, 2, "x=1B"), "input.bytes=9B over 2 chunks; x=1B");
}

#[test]
fn a_pause_is_cut_into_slices() {
    assert_eq!(pause_slice(0, 250 * WIDE_MS), Some(100 * MS));
    assert_eq!(pause_slice(200 * MS, 250 * WIDE_MS), Some(50 * MS));
    assert_eq!(pause_slice(250 * MS, 250 * WIDE_MS), None);
}

#[test]
fn every_failing_step_of_a_recording_has_its_code() {
    let read = record_failure(RecordStep::ReadScript, "/s.json", "gone");
    assert_eq!((read.step, read.code), ("script", 80));
    assert_eq!(read.detail, "reading /s.json failed: gone");
    let parse = record_failure(RecordStep::ParseScript, "/s.json", "bad");
    assert_eq!(parse.detail, "/s.json: bad");
    let stale = record_failure(RecordStep::Stale, "/o/input.bytes", "busy");
    assert_eq!((stale.step, stale.code), ("output_dir", 81));
    assert_eq!(stale.detail, "removing stale /o/input.bytes failed: busy");
    let exit = record_failure(RecordStep::TypeExit, "", "pipe");
    assert_eq!((exit.step, exit.code), ("exit", 84));
    assert_eq!(exit.detail, "typing /exit failed: pipe");
    let copy = record_failure(RecordStep::Transcript, "/t", "gone");
    assert_eq!((copy.step, copy.code), ("artifacts", 85));
    assert_eq!(
        copy.detail,
        "copying the transcript from /t failed: gone \u{2014} without it the fixture is missing a primary channel"
    );
}

#[test]
fn chunks_read_without_a_file() {
    let chunks = vec![CaptureChunk { t_ns: 4, bytes: b"ab".to_vec() }];
    let files = input_artifacts(&chunks);
    assert_eq!(files.timing, "{\"monotonic_ns\":4,\"offset\":0}\n");
}

#[test]
fn the_script_dir_is_absolute_but_never_verbatim() {
    // The scripts' args append `/name.json` to the directory, and a verbatim
    // (\\?\) path switches off separator normalization.
    let script_dir = |script: &std::path::Path| {
        let parent = script.parent().map(|p| p.to_string_lossy().into_owned());
        let dir = script_dir_of(&parent);
        let absolute = std::path::absolute(&dir).expect("an absolute form");
        strip_verbatim(&absolute.to_string_lossy(), &PathPrefix::Other, &vec![])
    };
    let dir = script_dir(std::path::Path::new(
        "tests/capture-scenarios/fake/roundtrip.record.json",
    ));
    let dir = std::path::Path::new(&dir);
    assert!(dir.is_absolute(), "must be absolute: {}", dir.display());
    assert!(!dir.to_string_lossy().starts_with(r"\\?\"), "{}", dir.display());
    assert!(dir.ends_with("fake"), "unexpected dir: {}", dir.display());

    // A bare file name has no parent directory: the invoker's cwd is
    // the honest expansion.
    let bare = script_dir(std::path::Path::new("script.json"));
    assert!(std::path::Path::new(&bare).is_absolute(), "must be absolute: {bare}");
    assert_eq!(script_dir_of(&None), ".");
    assert_eq!(script_dir_of(&Some(String::new())), ".");
    assert_eq!(script_dir_of(&Some("a/b".to_string())), "a/b");
}

#[test]
fn verbatim_prefixes_are_rebuilt_into_normalizing_forms() {
    let names = |list: &[&str]| list.iter().map(|n| n.to_string()).collect::<Vec<String>>();
    assert_eq!(
        strip_verbatim(
            r"\\?\C:\work\fixtures",
            &PathPrefix::VerbatimDisk { disk: 'C' },
            &names(&["work", "fixtures"])
        ),
        r"C:\work\fixtures"
    );
    assert_eq!(
        strip_verbatim(
            r"\\?\UNC\srv\share\fixtures",
            &PathPrefix::VerbatimUnc { server: "srv".to_string(), share: "share".to_string() },
            &names(&["fixtures"])
        ),
        r"\\srv\share\fixtures"
    );
    // A device-namespace prefix has no normalizing equivalent — it must
    // pass through rather than be mangled.
    assert_eq!(strip_verbatim(r"\\.\COM1", &PathPrefix::Other, &vec![]), r"\\.\COM1");
}

#[test]
fn a_side_file_is_named_after_the_stem() {
    assert_eq!(meta_path_for("capture.ndjson"), "capture-meta.json");
    assert_eq!(meta_path_for("runs/a.b.ndjson"), "runs/a.b-meta.json");
    assert_eq!(meta_path_for("runs/.hidden"), "runs/.hidden-meta.json");
    assert_eq!(meta_path_for("runs/plain"), "runs/plain-meta.json");
    assert_eq!(meta_path_for("runs/"), "runs-meta.json");
    assert_eq!(meta_path_for("/a.ndjson"), "/a-meta.json");
    assert_eq!(meta_path_for("a//b.ndjson"), "a/b-meta.json");
    assert_eq!(meta_path_for("a/./b.ndjson"), "a/b-meta.json");
    assert_eq!(meta_path_for("a//c/../b.ndjson"), "a//c/../b-meta.json");
    assert_eq!(meta_path_for("./a.ndjson"), "./a-meta.json");
    assert_eq!(meta_path_for(".."), "../capture-meta.json");
}

#[test]
fn records_stay_on_one_line() {
    let mut log = StepLog::create(0);
    let fields = vec![("text".to_string(), string("two\nlines\r\n"))];
    let line = log.record(5, 0, "type_line", &fields, Some("a\tlabel"), "failed: x\ny");
    assert_eq!(line.matches('\n').count(), 1);
    assert!(line.ends_with("}\n"), "{line}");
    assert!(line.chars().all(|c| c == '\n' || c >= ' '), "{line}");

    let mut hooks = HookLog::new();
    hooks.push(event_from("{\n  \"hook_event_name\": \"Stop\",\n  \"n\": 1.5\n}", 1));
    hooks.push(event_from("not\njson", 2));
    let files = hook_artifacts(&hooks, 0);
    let payloads: Vec<&str> = files.payloads.lines().collect();
    assert_eq!(payloads[0], "{\"hook_event_name\":\"Stop\",\"n\":1.5}");
    assert_eq!(payloads[1], "{\"hook_event_name\":\"unparseable\",\"raw\":\"not\\njson\"}");
    assert_eq!(payloads.len(), 2);
    assert_eq!(files.timing.lines().count(), 2);
}

#[test]
fn a_match_outlives_later_hooks() {
    let mut log = HookLog::new();
    log.push(event_from("{\"hook_event_name\":\"Stop\"}", 1));
    let (mut early, mut late) = (0, 0);
    let tracker = quiet_tracker();
    assert!(matches!(
        wait_hook(&log, &tracker, &mut early, "Stop", 0, WIDE_SEC, None),
        HookWait::Seen(0)
    ));
    log.push(event_from("{\"hook_event_name\":\"Stop\"}", 2));
    assert!(matches!(
        wait_hook(&log, &tracker, &mut late, "Stop", 0, WIDE_SEC, None),
        HookWait::Seen(0)
    ));
    assert!(matches!(
        wait_hook(&log, &tracker, &mut early, "Stop", 0, WIDE_SEC, None),
        HookWait::Seen(1)
    ));
}

#[test]
fn a_step_that_cannot_be_performed_says_why() {
    assert_eq!(step_fault(StepFault::Type, "gone"), "typing the line failed: gone");
    assert_eq!(step_fault(StepFault::Press, "gone"), "sending the keystroke failed: gone");
    assert_eq!(
        step_fault(StepFault::NoHookChannel, ""),
        "wait_hook has no hook channel on this profile"
    );
    assert_eq!(
        step_fault(StepFault::NoListener, ""),
        "set_decision has no hook listener on this profile"
    );
}

#[test]
fn a_generic_session_accounts_for_its_work_directory() {
    assert_eq!(generic_workdir_note(&WorkdirFate::Kept, "/w"), "; workdir kept at /w");
    assert_eq!(generic_workdir_note(&WorkdirFate::Removed, "/w"), "; workdir removed");
    let left = WorkdirFate::Left { error: "busy".to_string() };
    assert_eq!(
        generic_workdir_note(&left, "/w"),
        "; workdir removal failed, left at /w: busy"
    );
    assert_eq!(workdir_left("/w", "busy"), "workdir removal failed, left at /w: busy");
    let failure = generic_binary(&RecordConfig::default()).unwrap_err();
    assert_eq!((failure.step, failure.code), ("args", 2));
    assert_eq!(
        failure.detail,
        "a generic script needs --cli-bin: there is no default binary for it"
    );
    let config = RecordConfig { cli_bin: Some("sh".to_string()), ..RecordConfig::default() };
    assert_eq!(generic_binary(&config).unwrap(), "sh");
}
