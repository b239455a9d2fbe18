//! The lanes: latency, throughput, soak and replay, and the checks beneath them.
use bridge_probes::lane::{
    accounted_for, descriptor_growth, expected_checkpoints, memory_growth, sustained_rate, Wording,
};
use bridge_probes::latency::{
    accept_marker, first_byte_scenario, forwarding_scenario, FirstByte, Forwarding, MarkerRead,
};
use bridge_probes::lines::{LineSplitter, MAX_LINE_BYTES};
use bridge_probes::monitor::{assess, Sample};
use bridge_probes::plan::{
    assemble_plan, plan_entries, plan_header, BytesFile, EntryLine, GeneratedLine, GeneratedStream,
    NextLine, PlanHeader,
};
use bridge_probes::recorded::RecordedVerifier;
use bridge_probes::replay::{
    build_plan, compress_gap, fixture_dims, timing_records, BuildOptions, Fixture, Mode, TimingLine,
    TimingRecord,
};
use bridge_probes::report::{Origin, Verdict};
use bridge_probes::session::{
    json_string, missing_binary, scenario_file_name, sibling_dir, wait_for_exit, ChildPoll,
    EndWatch, ExitStep, Pump, Step,
};
use bridge_probes::verify::{
    expected_payload, first_difference, payload_matches, truncate, Arrived, Findings, Verifier,
    DETAILED_FAULTS,
};
use bridge_probes::{latency, replay_lane, soak, throughput};

const SEC: u64 = 1_000_000_000;
const WIDE_SEC: u128 = 1_000_000_000;
const LINE_BYTES: usize = 64;

fn origin() -> Origin {
    Origin {
        os: "linux".to_string(),
        arch: "x86_64".to_string(),
        host: "unidentified machine".to_string(),
        captured_unix_s: 1,
    }
}

/// The generator: payload lines and a rolling digest over them.
fn payload_line(seq: u64, bytes: usize) -> String {
    let payload: String = (0..bytes as u64)
        .map(|i| char::from(b'a' + ((seq * 7 + i * 3) % 26) as u8))
        .collect();
    format!("L{seq} {payload}")
}

fn digest_over(lines: u64, bytes: usize) -> u64 {
    let mut digest: u64 = 0xcbf2_9ce4_8422_2325;
    for seq in 0..lines {
        for byte in payload_line(seq, bytes).bytes() {
            digest = (digest ^ u64::from(byte)).wrapping_mul(0x0000_0100_0000_01b3);
        }
    }
    digest
}

fn checksum_line(covered: u64, digest: u64) -> String {
    format!("C{covered} {digest:016x}")
}

/// Read a line as the generator does, against the stream's position.
fn arrived(line: &str, bytes: usize, position: u64) -> Arrived {
    if let Some((head, payload)) = line.split_once(' ') {
        if let Some(Ok(seq)) = head.strip_prefix('L').map(|n| n.parse::<u64>()) {
            return Arrived::Payload {
                seq,
                payload: payload.to_string(),
                expected: payload_line(seq, bytes),
            };
        }
        if let Some(Ok(covered)) = head.strip_prefix('C').map(|n| n.parse::<u64>()) {
            if let Ok(digest) = u64::from_str_radix(payload, 16) {
                return Arrived::Checksum {
                    covered,
                    digest,
                    computed: digest_over(position, bytes),
                };
            }
        }
    }
    Arrived::Unrecognized
}

const BYTES: usize = 16;

/// A well-formed stream of `lines` payload lines with a checksum every
/// `checksum_every`.
fn stream(lines: u64, checksum_every: u64) -> Vec<String> {
    let mut out = Vec::new();
    for seq in 0..lines {
        out.push(payload_line(seq, BYTES));
        if checksum_every > 0 && (seq + 1) % checksum_every == 0 {
            out.push(checksum_line(seq + 1, digest_over(seq + 1, BYTES)));
        }
    }
    out
}

fn verify(lines: &[String], repainting: bool, expected: u64) -> Findings {
    let mut verifier = Verifier::new(repainting);
    for (index, line) in lines.iter().enumerate() {
        assert!(verifier.can_count());
        let line = arrived(line, BYTES, verifier.accounted());
        verifier.feed(&line, index as u64 * 1_000_000);
    }
    verifier.finish(expected)
}

#[test]
fn an_intact_stream_is_clean() {
    let findings = verify(&stream(200, 50), false, 200);
    assert!(findings.clean(), "{}", findings.summary());
    assert_eq!(findings.lines_verified, 200);
    assert_eq!(findings.checksums_verified, 4);
}

#[test]
fn a_lost_line_is_located_in_the_stream_and_in_time() {
    let mut lines = stream(200, 50);
    lines.remove(20); // line 20 never arrives
    let findings = verify(&lines, false, 200);
    assert_eq!(findings.lines_lost, 1);
    assert!(
        findings.detail[0].contains("lines 20..21"),
        "the fault must name the lines: {:?}",
        findings.detail
    );
    assert!(
        findings.detail[0].contains(" ms into the run"),
        "the fault must locate itself in time: {:?}",
        findings.detail
    );
}

#[test]
fn a_lost_line_does_not_poison_every_checksum_after_it() {
    let mut lines = stream(500, 50);
    lines.remove(20);
    let findings = verify(&lines, false, 500);
    assert_eq!(findings.lines_lost, 1);
    assert_eq!(findings.checksum_faults, 0);
    assert_eq!(findings.checksums_verified, 10);
}

#[test]
fn a_changed_byte_is_reported_with_its_offset() {
    let mut lines = stream(100, 0);
    let corrupted = lines[40].clone();
    let mut bytes = corrupted.into_bytes();
    let at = bytes.len() - 3;
    bytes[at] = if bytes[at] == b'a' { b'b' } else { b'a' };
    lines[40] = String::from_utf8(bytes).expect("still ASCII");

    let findings = verify(&lines, false, 100);
    assert_eq!(findings.content_faults, 1);
    assert_eq!(findings.lines_lost, 0);
    let detail = &findings.detail[0];
    assert!(detail.contains("line 40 differs"), "{detail}");
    assert!(
        detail.contains(&format!("byte {}", BYTES - 3)),
        "the fault must name the byte offset: {detail}"
    );
}

#[test]
fn a_truncated_stream_reports_what_never_came() {
    let findings = verify(&stream(100, 0), false, 500);
    assert_eq!(findings.lines_lost, 400);
    assert!(
        findings
            .detail
            .last()
            .unwrap()
            .contains("ended at line 100"),
        "{:?}",
        findings.detail
    );
}

#[test]
fn faults_are_counted_past_the_point_they_stop_being_described() {
    let lines: Vec<String> = stream(1000, 0)
        .into_iter()
        .enumerate()
        .filter(|(index, _)| index % 2 == 0)
        .map(|(_, line)| line)
        .collect();
    let findings = verify(&lines, false, 1000);
    assert_eq!(findings.lines_lost, 500, "half the stream is missing");
    assert_eq!(
        findings.detail.len(),
        DETAILED_FAULTS,
        "the detail must stay bounded while the count does not"
    );
}

#[test]
fn a_repeated_line_is_a_repaint_on_a_rendering_terminal_and_a_fault_on_a_pipe() {
    let mut lines = stream(50, 0);
    lines.insert(10, payload_line(9, BYTES)); // line 9, said twice

    let repainting = verify(&lines, true, 50);
    assert!(repainting.clean(), "{}", repainting.summary());
    assert_eq!(repainting.repaints, 1);

    let piped = verify(&lines, false, 50);
    assert_eq!(piped.content_faults, 1);
    assert!(
        piped.detail[0].contains("does not repeat itself"),
        "{:?}",
        piped.detail
    );
}

#[test]
fn a_cut_short_line_is_a_partial_repaint_on_a_rendering_terminal() {
    let mut lines = stream(50, 0);
    let full = payload_line(20, BYTES);
    lines.insert(20, full[..full.len() - 6].to_string());

    let repainting = verify(&lines, true, 50);
    assert!(repainting.clean(), "{}", repainting.summary());
    assert_eq!(repainting.repaints, 1);
    assert_eq!(repainting.lines_verified, 50, "the full line still arrives");

    // On a pipe the same traffic is two anomalies, and both are owed to
    // the reader: a truncated line arrived, and then a line the stream
    // had already said arrived again.
    let piped = verify(&lines, false, 50);
    assert_eq!(
        piped.content_faults, 2,
        "a byte pipe neither truncates nor repeats"
    );
}

#[test]
fn a_repeated_line_with_different_content_is_a_fault_even_when_repaints_are_allowed() {
    let mut lines = stream(50, 0);
    lines.insert(10, format!("L9 {}", "z".repeat(BYTES)));
    let findings = verify(&lines, true, 50);
    assert_eq!(findings.content_faults, 1);
    assert!(
        findings.detail[0].contains("and differently"),
        "{:?}",
        findings.detail
    );
}

#[test]
fn a_wrong_checksum_is_reported_against_what_actually_arrived() {
    let mut lines = stream(100, 50);
    // The checksum line sits right after line 49.
    lines[50] = checksum_line(50, 0xdead_beef);
    let findings = verify(&lines, false, 100);
    assert_eq!(findings.checksum_faults, 1);
    assert_eq!(findings.lines_lost, 0);
    assert!(
        findings.detail[0].contains("deadbeef"),
        "the fault must quote what the stream claimed: {:?}",
        findings.detail
    );
}

#[test]
fn an_out_of_position_checksum_is_a_fault_on_a_pipe_and_a_repaint_on_a_rendering_terminal() {
    let mut lines = stream(100, 50);
    let duplicate = lines[50].clone(); // the C50 checkpoint, said again
    lines.push(duplicate);

    let repainting = verify(&lines, true, 100);
    assert!(repainting.clean(), "{}", repainting.summary());
    assert_eq!(repainting.repaints, 1);

    let piped = verify(&lines, false, 100);
    assert_eq!(piped.checksum_faults, 1);
    assert!(!piped.clean(), "impossible traffic must not verify clean");
    assert!(
        piped.detail[0].contains("does not repeat or reorder"),
        "{:?}",
        piped.detail
    );
}

#[test]
fn fault_details_truncate_multi_byte_content_without_panicking() {
    // 1 + 3·k byte boundaries: byte 24 falls mid-character.
    let awkward = format!("x{}", "€".repeat(10));
    let cut = truncate(&awkward);
    assert!(cut.contains('…'), "long content must be summarised: {cut}");
    assert!(cut.starts_with("x€"), "the kept prefix survives: {cut}");

    // And end to end: a corrupt line carrying that content must produce
    // a fault, not a panic.
    let mut lines = stream(10, 0);
    lines[5] = format!("L5 {}", "€".repeat(20));
    let findings = verify(&lines, false, 10);
    assert_eq!(findings.content_faults, 1);
}

#[test]
fn terminal_noise_is_neither_a_fault_nor_a_verified_line() {
    let mut lines = stream(20, 0);
    lines.insert(5, "Microsoft Windows [Version 10.0.22621.1]".to_string());
    lines.insert(9, String::new());
    let findings = verify(&lines, false, 20);
    assert!(findings.clean(), "{}", findings.summary());
    assert_eq!(findings.unrecognized, 2);
}

#[test]
fn long_payloads_are_summarised_in_fault_details_not_pasted() {
    let long = "q".repeat(400);
    assert!(truncate(&long).contains("+376 bytes"));
    assert!(truncate("short").len() == 5);
}

#[test]
fn payloads_are_compared_behind_their_number() {
    assert_eq!(expected_payload("L12 ab cd"), "ab cd");
    assert_eq!(expected_payload("L12"), "");
    assert!(payload_matches("L12 ab", "ab"));
    assert!(!payload_matches("L12 ab", "L12 ab"));
    assert_eq!(first_difference("abcd", "abxd"), 2);
    assert_eq!(first_difference("ab", "abcd"), 2);
}

fn collect(chunks: &[&[u8]]) -> Vec<String> {
    let mut splitter = LineSplitter::new();
    let mut lines = Vec::new();
    for chunk in chunks {
        lines.extend(splitter.push(chunk));
    }
    lines.extend(splitter.finish());
    lines
}

#[test]
fn a_line_split_across_chunks_arrives_whole() {
    assert_eq!(
        collect(&[b"L1 ab", b"cd\nL2 ", b"efgh\n"]),
        ["L1 abcd", "L2 efgh"]
    );
}

#[test]
fn several_lines_in_one_chunk_all_arrive() {
    assert_eq!(collect(&[b"a\nb\nc\n"]), ["a", "b", "c"]);
}

#[test]
fn both_terminator_forms_are_one_line_ending() {
    assert_eq!(collect(&[b"crlf\r\nlf\n"]), ["crlf", "lf"]);
}

#[test]
fn an_in_place_overwrite_yields_each_version_of_the_row() {
    assert_eq!(
        collect(&[b"L5 abc\rL5 abcdef\r\n"]),
        ["L5 abc", "L5 abcdef"]
    );
}

#[test]
fn escape_sequences_are_stripped_from_the_line() {
    assert_eq!(
        collect(&[b"\x1b[2J\x1b[1;1HL7 payload\x1b[0m\r\n"]),
        ["L7 payload"]
    );
}

#[test]
fn a_final_line_without_a_terminator_still_arrives() {
    assert_eq!(
        collect(&[b"complete\nunterminated"]),
        ["complete", "unterminated"]
    );
}

#[test]
fn an_empty_stream_yields_nothing() {
    assert!(collect(&[]).is_empty());
    assert!(collect(&[b""]).is_empty());
}

#[test]
fn undecodable_bytes_of_a_line_are_replaced() {
    assert_eq!(collect(&[b"a\xffb\n"]), ["a\u{fffd}b"]);
}

#[test]
fn a_terminal_that_stops_sending_newlines_costs_bounded_memory() {
    let mut splitter = LineSplitter::new();
    let mut emitted = 0usize;
    let chunk = vec![b'x'; 64 * 1024];
    for _ in 0..32 {
        emitted += splitter.push(&chunk).len();
    }
    assert!(emitted >= 1, "the cap must flush rather than accumulate");
    assert!(
        splitter.pending() <= MAX_LINE_BYTES,
        "held {} bytes past the cap",
        splitter.pending()
    );
}

fn accept(line: &str, last: &mut u64) -> MarkerRead {
    accept_marker(line, b'M', last)
}

#[test]
fn a_fresh_marker_parses_and_advances_the_watermark() {
    let mut last = 0;
    assert!(matches!(
        accept("M12345E", &mut last),
        MarkerRead::Fresh(12_345)
    ));
    assert_eq!(last, 12_345);
}

#[test]
fn a_resent_marker_is_a_repaint_not_a_second_sample() {
    let mut last = 0;
    assert!(matches!(accept("M100E", &mut last), MarkerRead::Fresh(_)));
    assert!(matches!(accept("M100E", &mut last), MarkerRead::Repaint));
    assert!(matches!(accept("M99E", &mut last), MarkerRead::Repaint));
}

#[test]
fn a_truncated_marker_is_never_a_smaller_number() {
    // "M123456789E" cut short: without the frame this would parse as
    // 12345 and record a fantastic latency.
    let mut last = 0;
    assert!(matches!(accept("M12345", &mut last), MarkerRead::Repaint));
    assert_eq!(last, 0, "a truncated marker must not advance the watermark");
}

#[test]
fn noise_is_not_a_marker() {
    let mut last = 0;
    for line in ["", "M", "ME", "MxE", "R100E", "ping", "M100Etrailing"] {
        assert!(
            matches!(accept(line, &mut last), MarkerRead::NotAMarker),
            "{line:?} must not be a marker"
        );
    }
}

fn steps_of(json: &str) -> (String, usize) {
    let value: serde_json::Value =
        serde_json::from_str(json).unwrap_or_else(|err| panic!("the scenario must parse: {err}"));
    let name = value["name"].as_str().expect("a name").to_string();
    (name, value["steps"].as_array().expect("steps").len())
}

#[test]
fn the_first_byte_scenario_is_one_the_fake_cli_accepts() {
    let options = latency::Options { samples: 100, marker_interval_us: 500, discard: 10 };
    let json = first_byte_scenario(options.samples + options.discard, options.marker_interval_us);
    assert_eq!(
        json,
        "{\"name\":\"perf-latency-first-byte\",\"steps\":[{\"emit\":\"M{ts}E\\n\",\"channel\":\"stdout\",\"repeat\":110,\"repeat_interval_us\":500},{\"exit\":0}]}"
    );
    assert_eq!(steps_of(&json).1, 2);
}

#[test]
fn the_forwarding_scenario_is_one_the_fake_cli_accepts() {
    let json = forwarding_scenario(3);
    assert!(json.contains("{\"await_stdin\":\"ping\\n\",\"timeout_ms\":30000}"), "{json}");
    assert_eq!(steps_of(&json).1, 7, "3 round trips and an exit");
}

#[test]
fn first_byte_samples_are_collected_until_enough() {
    let mut collected = FirstByte::new();
    let mut watch = EndWatch::new(0);
    collected.note("M100E", 150);
    collected.note("M100E", 160);
    let data = Pump::Data { at_ns: 150, bytes: vec![1] };
    assert!(matches!(collected.step(&mut watch, &data, 150, 2), Step::Continue));
    let quiet = Pump::Quiet { exited: Some(false) };
    assert!(matches!(collected.step(&mut watch, &quiet, 29 * SEC, 2), Step::Continue));
    match collected.step(&mut watch, &quiet, 31 * SEC, 2) {
        Step::Fail(text) => {
            assert_eq!(text, "nothing arrived for 30 s with 1 of 2 markers collected");
        }
        other => panic!("{other:?}"),
    }
    collected.note("M200E", 230);
    assert!(matches!(collected.step(&mut watch, &data, 230, 2), Step::Finish));
    let (samples, repaints) = collected.finish(2, 1).unwrap();
    assert_eq!((samples, repaints), (vec![30], 1));
    assert_eq!(
        FirstByte::new().finish(2, 1).unwrap_err(),
        "the stream ended after 0 of 2 markers"
    );
}

#[test]
fn a_round_is_sampled_from_its_answer() {
    let mut rounds = Forwarding::new();
    let mut watch = EndWatch::new(0);
    let data = Pump::Data { at_ns: 1, bytes: vec![1] };
    rounds.note("ping");
    assert!(matches!(rounds.step(&mut watch, &data, 1, 2), Step::Continue));
    rounds.note("R500E");
    assert!(matches!(rounds.step(&mut watch, &data, 2, 2), Step::Finish));
    rounds.complete_round(480);
    match rounds.step(&mut watch, &Pump::Ended, 3, 2) {
        Step::Fail(text) => assert_eq!(
            text,
            "the child ended at round 1 of 2 \u{2014} a scripted await failed or timed out"
        ),
        other => panic!("{other:?}"),
    }
    let quiet = Pump::Quiet { exited: None };
    match rounds.step(&mut watch, &quiet, 40 * SEC, 2) {
        Step::Fail(text) => {
            assert_eq!(text, "round 1: no answer for 30 s after the input was written");
        }
        other => panic!("{other:?}"),
    }
    assert_eq!(rounds.finish(0), (vec![20], 0));
}

#[test]
fn a_latency_report_needs_both_directions() {
    let options = latency::Options::default();
    let mut outcome = latency::Outcome {
        first_byte_ns: vec![30, 10, 20],
        forwarding_ns: vec![],
        repaints_skipped: 2,
    };
    assert_eq!(
        latency::build_report(&options, &mut outcome, &origin()).unwrap_err(),
        "the input-forwarding lane collected no samples"
    );
    outcome.forwarding_ns = vec![20_000_000];
    let report = latency::build_report(&options, &mut outcome, &origin()).unwrap();
    assert_eq!(report.measurements[0].value, 30);
    assert_eq!(report.measurements[1].verdict, Verdict::Exceeded);
    assert_eq!(report.notes.len(), 2);
}

#[test]
fn json_strings_escape_what_would_break_the_scenario() {
    assert_eq!(json_string("mark {ts}\n"), "\"mark {ts}\\n\"");
    assert_eq!(json_string("say \"hi\"\\"), "\"say \\\"hi\\\"\\\\\"");
    assert_eq!(json_string("\u{1}"), "\"\\u0001\"");
}

#[test]
fn scenario_text_round_trips_through_a_json_parser() {
    let raw = "mark {ts}\n\"quoted\"\t\u{1}";
    let text = format!(
        r#"{{"name":"t","steps":[{{"emit":{},"channel":"stdout"}},{{"exit":0}}]}}"#,
        json_string(raw)
    );
    assert_eq!(steps_of(&text).1, 2);
    let back: String = serde_json::from_str(&json_string(raw)).unwrap();
    assert_eq!(back, raw);
}

#[test]
fn a_run_ends_when_an_exited_child_stays_quiet() {
    let mut watch = EndWatch::new(0);
    assert!(!watch.ended(Some(true), SEC));
    assert!(!watch.ended(Some(true), 3 * SEC - 1));
    assert!(watch.ended(Some(true), 3 * SEC));
    watch.data(3 * SEC);
    assert!(!watch.ended(Some(true), 4 * SEC));
    assert!(!watch.ended(None, 60 * SEC));
    assert_eq!(watch.since_data(5 * SEC), 2 * SEC);
}

#[test]
fn a_child_that_lingers_is_killed() {
    match wait_for_exit(&ChildPoll::Exited { code: 3 }, 1_500_000, WIDE_SEC) {
        ExitStep::Done(text) => assert_eq!(text, "child exited with code 3 after 1 ms"),
        other => panic!("{other:?}"),
    }
    match wait_for_exit(&ChildPoll::Running, 20 * SEC, 20 * WIDE_SEC) {
        ExitStep::Kill(text) => assert_eq!(text, "child still running after 20 s; "),
        other => panic!("{other:?}"),
    }
    assert!(matches!(wait_for_exit(&ChildPoll::Running, 0, WIDE_SEC), ExitStep::Wait));
    match wait_for_exit(&ChildPoll::Failed { error: "x".to_string() }, 0, WIDE_SEC) {
        ExitStep::Done(text) => assert_eq!(text, "child wait failed: x"),
        other => panic!("{other:?}"),
    }
    assert_eq!(scenario_file_name(7, 2, "soak"), "agent-bridge-perf-7-2-soak.json");
}

#[test]
fn the_scenario_asks_for_the_duration_it_was_given() {
    let options = soak::Options {
        duration_ns: 30 * 60 * u128::from(SEC),
        lines_per_second: 1000,
        ..soak::Options::standard(LINE_BYTES)
    };
    assert_eq!(options.lines(), 1_800_000);
    let json = options.scenario_json();
    assert!(json.contains("\"generate\":1800000"), "{json}");
    assert!(
        json.contains("\"line_interval_us\":1000"),
        "1000 lines a second is a line every 1000 µs: {json}"
    );
}

#[test]
fn the_assembled_scenario_is_one_the_fake_cli_accepts() {
    let json = soak::Options::standard(LINE_BYTES).scenario_json();
    assert_eq!(steps_of(&json), ("perf-soak".to_string(), 2));
}

#[test]
fn an_unpaced_run_asks_for_no_interval() {
    let options = soak::Options {
        lines_per_second: 0,
        ..soak::Options::standard(LINE_BYTES)
    };
    assert!(options.scenario_json().contains("\"line_interval_us\":0"));
    assert_eq!(options.lines(), 1, "a rate of zero still asks for a line");
}

#[test]
fn integrity_findings_become_budgets_a_gate_can_read() {
    let outcome = soak::Outcome {
        findings: Findings {
            lines_verified: 1000,
            lines_lost: 3,
            ..Findings::default()
        },
        bytes_read: 73_000,
        chunks_read: 500,
        elapsed_ns: 1_000_000_000,
        monitor: None,
        teardown: "torn down".to_string(),
    };
    let options = soak::Options::standard(LINE_BYTES);
    let report = soak::build_report("soak", "synthetic", &options, &outcome, &origin(), false);
    let lost = report
        .measurements
        .iter()
        .find(|m| m.name == "lines_lost")
        .expect("the report must carry the loss count");
    assert_eq!(lost.value, 3);
    assert_eq!(lost.verdict, Verdict::Exceeded);
    assert_eq!(report.exceeded().len(), 1);
}

#[test]
fn a_soak_is_judged_tick_by_tick() {
    let progress = |now_ns, done| soak::Progress {
        started_ns: 0,
        now_ns,
        duration_ns: 10 * u128::from(SEC),
        accounted: 5,
        expected_lines: 9,
        bytes_read: 2048,
        done,
    };
    let mut watch = EndWatch::new(0);
    let data = Pump::Data { at_ns: 1, bytes: vec![1] };
    let quiet = Pump::Quiet { exited: Some(false) };
    assert!(matches!(soak::step(&mut watch, &data, progress(1, true)), Step::Finish));
    assert!(matches!(soak::step(&mut watch, &data, progress(1, false)), Step::Continue));
    match soak::step(&mut watch, &quiet, progress(31 * SEC, false)) {
        Step::Fail(text) => assert_eq!(
            text,
            "nothing arrived for 30 s, 31 s into the run \u{2014} the stream stalled after 5 lines and 2.0 KiB"
        ),
        other => panic!("{other:?}"),
    }
    match soak::step(&mut watch, &data, progress(70 * SEC + 1, false)) {
        Step::Fail(text) => {
            assert!(text.starts_with("the child was still streaming 60 s past"), "{text}");
            assert!(text.contains("(5 of 9 lines)"), "{text}");
        }
        other => panic!("{other:?}"),
    }
    assert!(matches!(soak::step(&mut watch, &Pump::Ended, progress(1, false)), Step::Finish));
}

fn outcome(rates: &[(u64, u64, u64)]) -> throughput::Outcome {
    // (lines_verified, first_ns, last_ns)
    throughput::Outcome {
        sessions: rates
            .iter()
            .map(|(lines, first, last)| throughput::SessionOutcome {
                findings: Findings {
                    lines_verified: *lines,
                    ..Findings::default()
                },
                bytes_read: lines * 70,
                first_ns: *first,
                last_ns: *last,
            })
            .collect(),
    }
}

#[test]
fn rates_are_lines_over_delivery_time_not_over_process_life() {
    let outcome = outcome(&[(10_000, 5_000_000_000, 6_000_000_000)]);
    // 10 000 lines in the one second between first and last delivery —
    // the five seconds before the first must not dilute it.
    assert_eq!(outcome.sessions[0].lines_per_sec(), 10_000);
}

#[test]
fn the_floor_is_held_against_the_slowest_session() {
    let outcome = outcome(&[
        (10_000, 0, 1_000_000_000),
        (500, 0, 1_000_000_000), // starved
    ]);
    assert_eq!(outcome.slowest_lines_per_sec(), 500);
}

#[test]
fn the_aggregate_spans_first_delivery_to_last() {
    let outcome = outcome(&[
        (10_000, 0, 1_000_000_000),
        (10_000, 500_000_000, 1_500_000_000),
    ]);
    // 20 000 lines across a 1.5 s span.
    assert_eq!(outcome.aggregate_lines_per_sec(), 13_333);
}

/// Rates come out as a double divided and truncated would.
#[test]
fn rates_round_as_doubles_do() {
    let mut n: u64 = 3;
    for step in 0..4_000u64 {
        n = n.wrapping_mul(6_364_136_223_846_793_005).wrapping_add(1_442_695_040_888_963_407);
        let lines = n >> (20 + step % 40);
        let last = (n.rotate_left(17) >> (step % 60)).max(1);
        let outcome = outcome(&[(lines, 0, last)]);
        let seconds = last as f64 / 1_000_000_000.0;
        assert_eq!(
            outcome.sessions[0].lines_per_sec(),
            (lines as f64 / seconds) as u64,
            "{lines} lines in {last} ns"
        );
    }
}

#[test]
fn the_scenario_is_one_the_fake_cli_accepts() {
    let json = throughput::Options::standard(LINE_BYTES).scenario_json();
    assert_eq!(steps_of(&json).0, "perf-throughput");
}

#[test]
fn a_faulty_session_fails_the_integrity_budget() {
    let mut faulty = outcome(&[(10_000, 0, 1_000_000_000)]);
    faulty.sessions[0].findings.lines_lost = 2;
    let report =
        throughput::build_report(&throughput::Options::standard(LINE_BYTES), &faulty, &origin());
    let integrity = report
        .measurements
        .iter()
        .find(|m| m.name == "integrity_faults")
        .expect("the report carries integrity");
    assert_eq!(integrity.verdict, Verdict::Exceeded);
    assert_eq!(faulty.faults(), 2);
}

#[test]
fn a_run_needs_a_session() {
    let options = throughput::Options { sessions: 0, ..throughput::Options::standard(1) };
    assert_eq!(options.check().unwrap_err(), "a run needs at least one session");
    let mut delivery = throughput::Delivery::new();
    assert_eq!(delivery.note(500), 0);
    assert_eq!(delivery.note(800), 300);
    assert_eq!(delivery.final_ns(), 300);
}

fn fixture(chunks: &[(u64, u32)]) -> Fixture {
    let total: u32 = chunks.iter().map(|(_, len)| len).sum();
    Fixture {
        name: "test-80x24".to_string(),
        cols: 80,
        rows: 24,
        chunks: chunks.to_vec(),
        bytes: (0..total).map(|i| (i % 251) as u8).collect(),
    }
}

fn standard() -> BuildOptions {
    BuildOptions::standard(LINE_BYTES)
}

#[test]
fn idle_gaps_are_compressed_and_bursts_are_not() {
    let threshold = 1_000_000_000;
    assert_eq!(compress_gap(500, threshold, 10), 500);
    assert_eq!(compress_gap(threshold, threshold, 10), threshold);
    // 61 s of idle at divisor 10: the second past the threshold survives,
    // the rest shrinks tenfold.
    assert_eq!(
        compress_gap(61_000_000_000, threshold, 10),
        threshold + 6_000_000_000
    );
}

#[test]
fn a_plan_loops_its_fixtures_until_it_covers_the_duration() {
    let fixture = fixture(&[(100_000_000, 10), (200_000_000, 20)]);
    let plan = build_plan(
        &[fixture],
        &BuildOptions { duration_ns: 3 * WIDE_SEC, ..standard() },
    )
    .expect("the plan must build");
    // 300 ms per loop → ten loops for three seconds.
    assert_eq!(plan.entries.len(), 20);
    assert_eq!(plan.scheduled_ns(), 3_000_000_000);
    assert_eq!(plan.total_bytes(), 300);
}

#[test]
fn a_zero_time_playlist_is_refused_not_looped_forever() {
    let err = build_plan(
        &[fixture(&[(0, 10)])],
        &BuildOptions { duration_ns: WIDE_SEC, ..standard() },
    )
    .expect_err("a plan of instantaneous chunks must be refused");
    assert!(err.contains("no time"), "unexpected error: {err}");
}

#[test]
fn a_plan_whose_gap_would_outlast_the_stall_detector_is_refused() {
    let err = build_plan(
        &[fixture(&[(200_000_000_000, 10)])],
        &BuildOptions { duration_ns: WIDE_SEC, idle_divisor: 1, ..standard() },
    )
    .expect_err("a gap past the stall bound must be refused at build time");
    assert!(err.contains("stall"), "unexpected error: {err}");
}

#[test]
fn a_plan_needs_fixtures_and_a_divisor() {
    assert_eq!(
        build_plan(&[], &standard()).unwrap_err(),
        "a replay needs at least one fixture"
    );
    let err = build_plan(
        &[fixture(&[(1, 1)])],
        &BuildOptions { idle_divisor: 0, ..standard() },
    )
    .unwrap_err();
    assert_eq!(err, "the idle divisor must be at least 1");
}

#[test]
fn recorded_plans_carry_the_bytes_in_chunk_order() {
    let fixture = fixture(&[(100_000_000, 3), (100_000_000, 2)]);
    let expected = fixture.bytes.clone();
    let plan = build_plan(
        &[fixture],
        &BuildOptions { mode: Mode::Recorded, duration_ns: 200_000_000, ..standard() },
    )
    .expect("the plan must build");
    assert_eq!(plan.bytes, expected);
    assert_eq!(plan.expected_bytes(&vec![]), expected);
}

#[test]
fn a_recorded_plan_needs_only_the_chunks_it_reaches() {
    let mut short = fixture(&[(100_000_000, 3), (100_000_000, 2)]);
    short.bytes.truncate(3);
    let expected = short.bytes.clone();
    let plan = build_plan(
        &[short],
        &BuildOptions { mode: Mode::Recorded, duration_ns: 100_000_000, ..standard() },
    )
    .expect("the plan must build");
    assert_eq!(plan.bytes, expected);
}

#[test]
fn every_cut_gives_the_same_clean_lines() {
    let stream = b"one\r\n\xfftwo\rthree\n\x1b[31mfour\x1b[0m\n\nlast \xc3";
    let mut seen: Option<Vec<String>> = None;
    for size in [1, 2, 3, 7, stream.len()] {
        let mut splitter = LineSplitter::new();
        let mut lines = Vec::new();
        for chunk in stream.chunks(size) {
            let more = splitter.push(chunk);
            assert!(chunk.contains(&b'\n') || more.is_empty());
            lines.extend(more);
        }
        lines.extend(splitter.finish());
        for line in &lines {
            assert!(!line.is_empty() && !line.contains(['\n', '\r', '\x1b']), "{line:?}");
        }
        assert_eq!(*seen.get_or_insert_with(|| lines.clone()), lines, "cut into {size}");
    }
    assert_eq!(
        seen.unwrap(),
        ["one", "\u{fffd}two", "three", "four", "last \u{fffd}"]
    );
}

#[test]
fn the_generated_stream_is_the_generate_steps_stream() {
    let mut source = GeneratedStream::new(16, 5);
    let mut payloads = 0u64;
    let mut checksums = 0u64;
    for _ in 0..120 {
        match source.next_line() {
            NextLine::Payload { seq } => {
                assert_eq!(seq, payloads);
                payloads += 1;
            }
            NextLine::Checkpoint { covered } => {
                assert_eq!(covered, payloads);
                checksums += 1;
            }
        }
    }
    assert_eq!(payloads, 100, "one checksum line per five payload lines");
    assert_eq!(checksums, 20);
    assert_eq!(source.line_bytes(), 16);
}

fn generated(lines: u64, bytes: usize, every: u64) -> Vec<GeneratedLine> {
    let mut source = GeneratedStream::new(bytes, every);
    (0..lines)
        .map(|_| match source.next_line() {
            NextLine::Payload { seq } => GeneratedLine {
                text: format!("{}\n", payload_line(seq, bytes)),
                checkpoint: false,
            },
            NextLine::Checkpoint { covered } => GeneratedLine {
                text: format!("{}\n", checksum_line(covered, digest_over(covered, bytes))),
                checkpoint: true,
            },
        })
        .collect()
}

#[test]
fn a_generated_plan_never_schedules_its_own_truncation() {
    // 50 bytes of plan volume against 20-byte lines: two complete lines,
    // and the 10-byte shortfall is absorbed rather than delivered as a
    // fragment a verifier would report as a fault.
    let fixture = fixture(&[(100_000_000, 50)]);
    let plan = build_plan(
        &[fixture],
        &BuildOptions {
            mode: Mode::Generated,
            line_bytes: 16,
            checksum_every: 0,
            duration_ns: 100_000_000,
            ..standard()
        },
    )
    .expect("the plan must build");
    let source = generated(4, 16, 0);
    let bytes = plan.expected_bytes(&source);
    assert_eq!(bytes.len(), 40, "two 20-byte lines fit in 50 bytes");
    assert_eq!(*bytes.last().expect("non-empty"), b'\n');
    assert_eq!(plan.expected_payload_lines(&source), 2);
    // The delivered chunks are the same stream, cut at the plan's
    // boundary with the shortfall on the tail chunk.
    let ranges = plan.chunk_ranges(bytes.len());
    assert_eq!(ranges.len(), 1);
    assert_eq!(ranges[0].1, 0..40);
}

#[test]
fn a_plan_round_trips_through_its_files() {
    let fixture = fixture(&[(100_000_000, 3), (100_000_000, 2)]);
    let plan = build_plan(
        &[fixture],
        &BuildOptions { mode: Mode::Recorded, duration_ns: 200_000_000, ..standard() },
    )
    .expect("the plan must build");
    let text = plan.to_text();
    let mut lines = text
        .lines()
        .map(|line| serde_json::from_str::<serde_json::Value>(line).expect("a line of JSON"));
    let header = lines.next().expect("a header");
    assert_eq!(header["mode"].as_str(), Some("recorded"));
    let header = PlanHeader {
        mode: Mode::Recorded,
        line_bytes: header["line_bytes"].as_u64().unwrap() as usize,
        checksum_every: header["checksum_every"].as_u64().unwrap(),
        chunks: header["chunks"].as_u64().unwrap(),
    };
    let entries: Vec<(u64, u32)> = lines
        .map(|e| (e["gap_ns"].as_u64().unwrap(), e["len"].as_u64().unwrap() as u32))
        .collect();
    let file = |bytes: &[u8]| {
        Some(BytesFile { path: "/p.bytes".to_string(), bytes: bytes.to_vec() })
    };

    let read = assemble_plan("/p", header, entries.clone(), file(&plan.bytes))
        .expect("read must succeed");
    assert_eq!(read.mode, Mode::Recorded);
    assert_eq!(read.entries, plan.entries);
    assert_eq!(read.bytes, plan.bytes);
    assert_eq!((read.line_bytes, read.checksum_every), (LINE_BYTES, 1000));

    assert_eq!(
        assemble_plan("/p", header, entries.clone(), None).unwrap_err(),
        "a recorded plan needs its bytes file"
    );
    assert_eq!(
        assemble_plan("/p", header, entries.clone(), file(&plan.bytes[..4])).unwrap_err(),
        "/p.bytes: 4 bytes for a plan of 5"
    );
    assert_eq!(
        assemble_plan("/p", header, entries[..1].to_vec(), file(&plan.bytes)).unwrap_err(),
        "/p: header promises 2 chunks, file carries 1"
    );
}

#[test]
fn a_byte_divergence_is_located_not_just_detected() {
    let mut verifier = RecordedVerifier::new(vec![1, 2, 3, 4, 5]);
    verifier.feed(&[1, 2], 5_000_000);
    verifier.feed(&[3, 9, 5], 12_000_000);
    let findings = verifier.finish();
    assert!(!findings.clean());
    assert_eq!(findings.matched, 3);
    let divergence = findings.divergence.expect("a divergence is reported");
    assert!(divergence.contains("byte 3"), "{divergence}");
    assert!(divergence.contains("12 ms"), "{divergence}");
    assert!(divergence.contains("0x04"), "{divergence}");
    assert!(divergence.contains("0x09"), "{divergence}");
}

#[test]
fn a_short_delivery_is_unclean_even_with_no_divergence() {
    let mut verifier = RecordedVerifier::new(vec![1, 2, 3]);
    verifier.feed(&[1, 2], 0);
    let findings = verifier.finish();
    assert!(findings.divergence.is_none());
    assert!(!findings.clean(), "two of three bytes is not a clean run");
}

#[test]
fn extra_bytes_after_the_plan_are_a_divergence() {
    let mut verifier = RecordedVerifier::new(vec![1, 2]);
    verifier.feed(&[1, 2, 3], 0);
    let findings = verifier.finish();
    assert!(!findings.clean());
    assert!(
        findings.divergence.expect("reported").contains("beyond"),
        "extra bytes must be named as such"
    );
}

#[test]
fn a_fixture_is_named_by_its_dimensions() {
    assert_eq!(fixture_dims("agent-roundtrip-120x40").unwrap(), (120, 40));
    assert_eq!(
        fixture_dims("agent").unwrap_err(),
        "agent: fixture name lacks a -<cols>x<rows> suffix"
    );
    assert_eq!(
        fixture_dims("agent-80x").unwrap_err(),
        "agent-80x: cannot parse dimensions from \"80x\""
    );
    assert!(fixture_dims("agent-80x70000").is_err());
}

#[test]
fn a_fixture_is_taken_up_from_its_timing() {
    let at = |offset, monotonic_ns| TimingRecord { offset, monotonic_ns };
    let loaded = Fixture::load(
        "f-80x24",
        vec![1, 2, 3, 4, 5],
        "/t",
        &vec![at(0, 10), at(2, 25)],
    )
    .unwrap();
    assert_eq!(loaded.chunks, vec![(10, 2), (15, 3)]);
    assert_eq!((loaded.cols, loaded.rows), (80, 24));
    assert_eq!(
        Fixture::load("f-80x24", vec![1], "/t", &vec![]).unwrap_err(),
        "/t: timing must start at offset 0 and cover the stream"
    );
    assert_eq!(
        Fixture::load("f-80x24", vec![1, 2, 3], "/t", &vec![at(0, 10), at(2, 11), at(2, 12)])
            .unwrap_err(),
        "/t: record 2 spans 2..2 outside 0..3 or is empty"
    );
    assert!(Fixture::load("f-80x24", vec![1], "/t", &vec![at(0, 10), at(9, 11)]).is_err());
    assert!(Fixture::load("f-80x24", vec![1, 2], "/t", &vec![at(0, 10), at(1, 9)]).is_err());
}

#[test]
fn a_replay_is_concluded_by_its_content() {
    let mut verifier = RecordedVerifier::new(vec![1, 2]);
    verifier.feed(&[1, 7], 0);
    let conclusion = replay_lane::conclude_recorded(&verifier.finish());
    assert_eq!(conclusion.faults, 1);
    assert_eq!(conclusion.notes[0], "1 of 2 bytes matched byte-for-byte");
    assert_eq!(conclusion.notes.len(), 2);
    assert_eq!(conclusion.measurements[0].verdict, Verdict::Exceeded);

    let findings = Findings { lines_verified: 4, lines_lost: 1, ..Findings::default() };
    let conclusion = replay_lane::conclude_generated(&findings);
    assert_eq!(conclusion.faults, 1);
    let plan = build_plan(
        &[fixture(&[(100_000_000, 50)])],
        &BuildOptions { duration_ns: 100_000_000, ..standard() },
    )
    .unwrap();
    assert_eq!(
        replay_lane::plan_text(&plan),
        "1 chunks, 50 B over 100.00 ms scheduled, sources [\"test-80x24\"], mode generated, idle gaps over 2.00 s divided by 1"
    );
    let outcome = replay_lane::Outcome {
        bytes_read: 40,
        elapsed_ns: 110_000_000,
        scheduled_ns: 100_000_000,
        faults: 1,
        monitor: None,
    };
    let mut report = replay_lane::build_report(&plan, &outcome, conclusion, &origin(), false);
    assert_eq!(report.workload, "bimodal-generated");
    replay_lane::note_load(&mut report, &vec!["d".to_string()]);
    assert_eq!(report.workload, "bimodal-generated+bimodal-load");
    assert_eq!(
        report.notes.last().unwrap(),
        "measured while a generated-content replay of [\"d\"] streamed in a second session"
    );
    assert!(replay_lane::check_mode(Mode::Recorded, true).is_err());
    assert!(replay_lane::check_mode(Mode::Generated, true).is_ok());
    assert_eq!(
        replay_lane::lane_failure("lost", Some("gone")),
        "lost (stopping the resource sampler also failed: gone)"
    );
}

#[test]
fn a_stream_is_accounted_for_with_its_checkpoints() {
    let mut verifier = Verifier::new(false);
    let lines = stream(10, 5);
    for line in &lines[..11] {
        let line = arrived(line, BYTES, verifier.accounted());
        verifier.feed(&line, 0);
    }
    assert_eq!(expected_checkpoints(10, 5), 2);
    assert_eq!(expected_checkpoints(10, 0), 0);
    assert!(!accounted_for(&verifier, 10, 2), "the last checkpoint is still owed");
    let line = arrived(&lines[11], BYTES, verifier.accounted());
    verifier.feed(&line, 0);
    assert!(accounted_for(&verifier, 10, 2));
    assert_eq!(sustained_rate(5, 0), u64::MAX);
    assert_eq!(sustained_rate(0, 0), 0);
    assert_eq!(sustained_rate(3_000, 2 * SEC), 1_500);
}

#[test]
fn resource_growth_is_reported_against_its_budget() {
    let at = |t_ns, descriptors, rss_bytes| Sample { t_ns, descriptors, rss_bytes };
    let a = assess(&[at(0, 5, 100), at(1, 8, 50)], 0).unwrap();
    let descriptors = descriptor_growth(&a, false, Wording::Full);
    assert_eq!(descriptors.value, 3);
    assert_eq!(descriptors.verdict, Verdict::Exceeded);
    let memory = memory_growth(&a, Wording::Short);
    assert_eq!(memory.value, 0);
    assert_eq!(memory.verdict, Verdict::Met);
}

#[test]
fn scenario_files_never_clash() {
    let name = scenario_file_name(12, 3, "soak");
    assert_eq!(name, "agent-bridge-perf-12-3-soak.json");
    assert_ne!(name, scenario_file_name(1, 23, "soak"));
    assert_ne!(name, scenario_file_name(12, 4, "soak"));
    assert_ne!(name, scenario_file_name(12, 3, "replay-plan"));
}

#[test]
fn a_soak_misses_a_budget_exactly_when_it_found_something() {
    let grown = |descriptors| {
        let at = |t_ns, descriptors| Sample { t_ns, descriptors, rss_bytes: 1 };
        assess(&[at(0, 9), at(60 * SEC, 9), at(61 * SEC, descriptors)], 60 * WIDE_SEC)
    };
    let outcome = |content_faults, descriptors| soak::Outcome {
        findings: Findings { lines_verified: 10, content_faults, ..Findings::default() },
        bytes_read: 700,
        chunks_read: 3,
        elapsed_ns: SEC,
        monitor: grown(descriptors),
        teardown: String::new(),
    };
    let missed = |outcome: &soak::Outcome| -> Vec<String> {
        let options = soak::Options::standard(LINE_BYTES);
        let report = soak::build_report("soak", "synthetic", &options, outcome, &origin(), false);
        report.exceeded().iter().map(|m| m.name.clone()).collect()
    };
    assert!(missed(&outcome(0, 9)).is_empty());
    assert_eq!(missed(&outcome(2, 9)), ["content_faults"]);
    assert_eq!(missed(&outcome(0, 10)), ["descriptor_growth"]);
    assert_eq!(missed(&outcome(1, 10)), ["content_faults", "descriptor_growth"]);
}

#[test]
fn a_program_is_found_beside_this_one_and_nowhere_else() {
    assert_eq!(sibling_dir(Some("/t/debug"), false, Some("/t")).unwrap(), "/t/debug");
    assert_eq!(sibling_dir(Some("/t/debug/deps"), true, Some("/t/debug")).unwrap(), "/t/debug");
    assert_eq!(
        sibling_dir(None, false, None).unwrap_err(),
        "current_exe has no parent directory"
    );
    assert_eq!(
        sibling_dir(Some("deps"), true, None).unwrap_err(),
        "the deps directory has no parent"
    );
    assert_eq!(
        missing_binary("/t/fake-cli"),
        "binary not found at /t/fake-cli \u{2014} build the workspace first"
    );
}

#[test]
fn a_malformed_timing_line_is_named() {
    let line = |text: &str, parsed| TimingLine { text: text.to_string(), parsed };
    let record = TimingRecord { offset: 0, monotonic_ns: 7 };
    let read = timing_records("/t", &vec![line("{}", Ok(record)), line("", Err("x".to_string()))]);
    assert_eq!(read.unwrap(), vec![record]);
    let read = timing_records("/t", &vec![line("", Ok(record)), line("?", Err("bad".to_string()))]);
    assert_eq!(read.unwrap_err(), "/t:2: bad");
}

#[test]
fn a_malformed_plan_line_is_named() {
    let line = |text: &str, parsed| EntryLine { text: text.to_string(), parsed };
    let read = plan_entries("/p", &vec![line("{}", Ok((5, 2))), line("", Ok((9, 9)))]);
    assert_eq!(read.unwrap(), vec![(5, 2)]);
    let read = plan_entries("/p", &vec![line("?", Err("bad".to_string()))]);
    assert_eq!(read.unwrap_err(), "/p:2: bad");
    assert_eq!(plan_header("/p", None).unwrap_err(), "/p: empty plan");
    assert_eq!(plan_header("/p", Some(Err("bad".to_string()))).unwrap_err(), "/p: header: bad");
    let header =
        PlanHeader { mode: Mode::Generated, line_bytes: 8, checksum_every: 3, chunks: 1 };
    assert_eq!(plan_header("/p", Some(Ok(header))).unwrap().line_bytes, 8);
}
