//! The output tracker, the cursor-query scan, and the wait, kill and teardown
//! decisions.
use bridge_probes::capture::CaptureWriter;
use bridge_probes::firsttoken::FirstTokenClock;
use bridge_probes::reports::{count_reports, wait_for_report, ReportStep};
use bridge_probes::pty::{
    alloc_failure, close_timeout, cursor_reply, force_kill, read_buffer_bytes, read_step,
    strip_ansi, teardown, wait_child, AllocFault, DrainEvent, EndInfo, KillEvent, KillMove,
    KillState, OutputTracker, Poll, QueryScan, QuietStep, QuietWatch, ReadOutcome, ReadStep,
    ReaderEvent, ReapStep, WaitStep, RECENT_WINDOW_BYTES,
};

const MS: u64 = 1_000_000;
const SEC: u64 = 1_000_000_000;
const WIDE_SEC: u128 = 1_000_000_000;
const WIDE_MS: u128 = 1_000_000;

fn data(at: u64, bytes: &[u8]) -> ReaderEvent {
    ReaderEvent::Data { at, bytes: bytes.to_vec() }
}

fn end(reason: &str) -> ReaderEvent {
    ReaderEvent::End(EndInfo {
        reason: reason.to_string(),
        cursor_queries_answered: 0,
        cursor_reply_error: None,
    })
}

fn tracker() -> OutputTracker {
    OutputTracker::new(FirstTokenClock::new(0), None)
}

fn absorb(tracker: &mut OutputTracker, event: ReaderEvent) -> Result<(), String> {
    match event {
        ReaderEvent::Data { at, bytes } => {
            tracker.note_chunk(at, &bytes);
            tracker.absorb(&bytes)
        }
        ReaderEvent::End(info) => {
            tracker.note_end(info);
            Ok(())
        }
    }
}

/// Look, take the next event, look again, as a waiting probe does. Silence
/// passes the whole timeout.
fn wait_for_text(
    tracker: &mut OutputTracker,
    events: Vec<ReaderEvent>,
    what: &str,
    needle: &str,
    timeout: u128,
) -> Result<(), String> {
    let mut events = events.into_iter();
    let mut waited = 0;
    loop {
        match tracker.wait_for_text(what, needle, waited, timeout) {
            WaitStep::Ready => return Ok(()),
            WaitStep::Fail(text) => return Err(text),
            WaitStep::Wait => match events.next() {
                Some(event) => absorb(tracker, event)?,
                None => waited = timeout as u64,
            },
        }
    }
}

#[test]
fn strip_ansi_removes_csi_and_osc_sequences() {
    let decorated = "\x1b[2J\x1b[1;1H\x1b]0;title\x07hi\x1b[0m";
    assert_eq!(strip_ansi(decorated), "hi");
}

#[test]
fn strip_ansi_survives_a_stray_esc_inside_an_osc_payload() {
    assert_eq!(strip_ansi("\x1b]0;t\x1b\x07hi"), "hi");
    assert_eq!(strip_ansi("\x1b]0;title\x1b\\hi"), "hi");
}

#[test]
fn plain_text_has_nothing_to_strip() {
    assert_eq!(strip_ansi("héllo\r\nworld"), "héllo\r\nworld");
    assert_eq!(strip_ansi("a\x1bcb"), "ab");
    assert_eq!(strip_ansi("cut\x1b[3"), "cut");
}

#[test]
fn wait_for_text_finds_marker_split_across_chunks() {
    let mut tracker = tracker();
    let events = vec![data(1, b"BAN"), data(2, b"NER")];
    wait_for_text(&mut tracker, events, "banner", "BANNER", 5 * WIDE_SEC)
        .expect("split marker must be found");
}

#[test]
fn wait_for_text_reports_stream_end_not_a_hang() {
    let mut tracker = tracker();
    let err =
        wait_for_text(&mut tracker, vec![end("eof")], "banner", "BANNER", 5 * WIDE_SEC).unwrap_err();
    assert!(err.contains("ended (eof)"), "unexpected error: {err}");
    assert_eq!(err, "stream ended (eof) before banner; tail: ''");
}

#[test]
fn wait_for_text_times_out_on_a_silent_stream() {
    let mut tracker = tracker();
    let err =
        wait_for_text(&mut tracker, Vec::new(), "banner", "BANNER", 20 * WIDE_MS).unwrap_err();
    assert!(err.contains("within"), "unexpected error: {err}");
    assert_eq!(err, "banner not observed within 20ms; tail: ''");
}

#[test]
fn an_absorbed_end_of_stream_survives_into_teardown() {
    let mut tracker = tracker();
    absorb(&mut tracker, end("eof")).unwrap();
    assert_eq!(tracker.stream_ended(), Some("eof"));

    let (_, end) = tracker.into_teardown_parts();
    assert!(end.is_some(), "teardown must inherit the absorbed end");
    let detail = teardown(&DrainEvent::Ended(end.unwrap()), 3, 5 * WIDE_SEC)
        .expect("the end is there")
        .expect("teardown must succeed on an already-ended stream");
    assert!(detail.contains("eof"), "unexpected detail: {detail}");
    assert_eq!(
        detail,
        "master closed in 3ms; reader end: eof; cursor-position queries answered: 0"
    );
}

#[test]
fn an_ended_stream_is_reported_not_mistaken_for_silence() {
    let mut tracker = tracker();
    absorb(&mut tracker, end("read error: EIO")).unwrap();
    let err = tracker
        .ensure_live("the interrupt to take effect")
        .unwrap_err();
    assert!(err.contains("EIO"), "the end reason must survive: {err}");
    assert!(
        err.contains("the process is gone"),
        "a dead child must not read as quiet: {err}"
    );
}

#[test]
fn the_output_window_stays_bounded_across_a_long_stream() {
    let mut tracker = tracker();
    let chunk = "x".repeat(8 * 1024);
    for i in 0..40 {
        absorb(&mut tracker, data(i, chunk.as_bytes())).unwrap();
    }
    absorb(&mut tracker, data(41, b"THE-LATEST-MARKER")).unwrap();

    assert_eq!(tracker.chunks_seen(), 41, "every chunk must still be seen");
    assert!(
        tracker.recent().len() <= RECENT_WINDOW_BYTES + chunk.len(),
        "the window grew to {} bytes",
        tracker.recent().len()
    );
    assert_eq!(tracker.recent().len(), RECENT_WINDOW_BYTES);
    assert!(
        tracker.screen_tail(64).contains("THE-LATEST-MARKER"),
        "the newest output must survive trimming"
    );
}

#[test]
fn trimming_the_window_never_splits_a_codepoint() {
    let mut tracker = tracker();
    // Multi-byte throughout, so a naive byte cut would land mid-codepoint.
    let chunk = "é".repeat(8 * 1024);
    for i in 0..12 {
        absorb(&mut tracker, data(i, chunk.as_bytes())).unwrap();
    }
    assert!(tracker.recent().chars().all(|c| c == 'é'));
    // An odd byte in front puts the cut inside a character.
    let mut odd = OutputTracker::new(FirstTokenClock::new(0), None);
    absorb(&mut odd, data(0, b"x")).unwrap();
    for i in 0..12 {
        absorb(&mut odd, data(i, chunk.as_bytes())).unwrap();
    }
    assert!(odd.recent().chars().all(|c| c == 'é'));
    assert_eq!(odd.recent().len(), RECENT_WINDOW_BYTES);
}

#[test]
fn screen_tail_is_ansi_stripped_and_char_bounded() {
    let mut tracker = tracker();
    absorb(&mut tracker, data(1, b"\x1b[2Jhello world")).unwrap();
    assert_eq!(tracker.screen_tail(5), "world");
    assert_eq!(tracker.screen_tail(500), "hello world");
    assert_eq!(tracker.screen_tail(0), "");
    assert_eq!(tracker.visible_text(), "hello world");
}

/// Read a stream in pieces, answering queries, as a reader thread does.
fn read_all(pieces: &[&[u8]]) -> (Vec<u8>, u64, Vec<u8>, EndInfo) {
    let mut scan = QueryScan::new();
    let mut data = Vec::new();
    let mut written = Vec::new();
    let mut chunks = 0;
    for piece in pieces {
        match read_step(&ReadOutcome::Bytes(piece.len())) {
            ReadStep::Deliver => {}
            other => panic!("a read with bytes is delivered, not {other:?}"),
        }
        for _ in 0..scan.scan(piece) {
            written.extend(cursor_reply());
            scan.note_reply(None);
        }
        data.extend_from_slice(piece);
        chunks += 1;
    }
    let reason = match read_step(&ReadOutcome::Bytes(0)) {
        ReadStep::End(reason) => reason,
        other => panic!("an empty read ends the stream, not {other:?}"),
    };
    (data, chunks, written, scan.end(&reason))
}

#[test]
fn cursor_position_query_is_answered_even_when_split_across_reads() {
    let (_, _, written, info) = read_all(&[b"boot \x1b[", b"6n rest"]);
    assert_eq!(info.cursor_queries_answered, 1);
    assert_eq!(written.as_slice(), b"\x1b[1;1R");
    assert_eq!(info.reason, "eof");
    assert_eq!(info.cursor_reply_error, None);
}

#[test]
fn a_one_byte_buffer_still_delivers_everything_and_answers_the_query() {
    let payload = b"pre \x1b[6n post".to_vec();
    let pieces: Vec<&[u8]> = payload.chunks(read_buffer_bytes(1)).collect();
    let (data, chunks, written, info) = read_all(&pieces);
    assert_eq!(data, payload, "no byte may be lost to the tiny buffer");
    assert_eq!(chunks, payload.len() as u64, "one chunk per byte");
    assert_eq!(info.cursor_queries_answered, 1);
    assert_eq!(written.as_slice(), b"\x1b[1;1R");
    assert_eq!(read_buffer_bytes(0), 1);
    assert_eq!(read_buffer_bytes(8192), 8192);
}

#[test]
fn every_cut_of_a_stream_finds_the_same_queries() {
    let stream = b"\x1b[6n\x1b[6\x1b[6nxx\x1b[6n";
    for cut in 0..=stream.len() {
        let mut scan = QueryScan::new();
        let found = scan.scan(&stream[..cut]) + scan.scan(&stream[cut..]);
        assert_eq!(found, 3, "cut at {cut}");
    }
}

#[test]
fn only_delivered_replies_are_counted_and_the_first_failure_is_kept() {
    let mut scan = QueryScan::new();
    scan.note_reply(Some("first"));
    scan.note_reply(None);
    scan.note_reply(Some("second"));
    let info = scan.end("eof");
    assert_eq!(info.cursor_queries_answered, 1);
    assert_eq!(info.cursor_reply_error.as_deref(), Some("first"));
    let detail = teardown(&DrainEvent::Ended(info), 0, WIDE_SEC).unwrap().unwrap();
    assert!(detail.ends_with("; cursor-reply write failed: first"), "{detail}");
}

#[test]
fn an_interrupted_read_ends_nothing_and_a_failed_one_does() {
    match read_step(&ReadOutcome::Interrupted) {
        ReadStep::Resume => {}
        other => panic!("{other:?}"),
    }
    match read_step(&ReadOutcome::Failed { error: "EIO".to_string() }) {
        ReadStep::End(reason) => assert_eq!(reason, "read error: EIO"),
        other => panic!("{other:?}"),
    }
}

#[test]
fn a_first_chunk_is_awaited_by_arrival_not_by_text() {
    let mut tracker = tracker();
    match tracker.wait_for_first_chunk(0, 2 * WIDE_SEC) {
        WaitStep::Wait => {}
        other => panic!("{other:?}"),
    }
    match tracker.wait_for_first_chunk(2 * SEC, 2 * WIDE_SEC) {
        WaitStep::Fail(text) => assert_eq!(text, "no output byte within 2000ms of spawn"),
        other => panic!("{other:?}"),
    }
    absorb(&mut tracker, data(7 * MS, &[0xC3])).unwrap();
    match tracker.wait_for_first_chunk(2 * SEC, 2 * WIDE_SEC) {
        WaitStep::Ready => {}
        other => panic!("{other:?}"),
    }
    assert_eq!(tracker.first_token().launch_latency(), Some(7 * MS));
    let mut dead = OutputTracker::new(FirstTokenClock::new(0), None);
    absorb(&mut dead, end("eof")).unwrap();
    match dead.wait_for_first_chunk(0, WIDE_SEC) {
        WaitStep::Fail(text) => assert_eq!(text, "stream ended (eof) before any output byte"),
        other => panic!("{other:?}"),
    }
}

#[test]
fn undecodable_output_is_an_error_and_a_capture_still_records_it() {
    let mut tracker =
        OutputTracker::new(FirstTokenClock::new(10), Some(CaptureWriter::create(10)));
    let line = tracker.note_chunk(25, b"\xFF").expect("a capture is running");
    assert_eq!(line.t_ns, 15);
    assert_eq!(line.data, "/w==");
    let err = tracker.absorb(b"\xFF").unwrap_err();
    assert_eq!(err, "output contained bytes that can never be valid UTF-8");
    assert!(tracker.absorb(b"later").is_err(), "what never was UTF-8 stays an error");
    assert_eq!(tracker.recent(), "");
    assert_eq!(tracker.chunks_seen(), 1);
    let (capture, end) = tracker.into_teardown_parts();
    assert!(end.is_none());
    let meta = capture.unwrap().finish("v", "os", 80, 24, "2026-07-10", "s");
    assert_eq!((meta.chunks, meta.bytes), (1, 1));
}

#[test]
fn a_marker_is_looked_for_under_its_decoration() {
    let mut tracker = tracker();
    absorb(&mut tracker, data(1, b"re\x1b[31mady")).unwrap();
    match tracker.wait_for_text("x", "ready", 0, WIDE_SEC) {
        WaitStep::Wait => {}
        other => panic!("{other:?}"),
    }
    match tracker.wait_for_marker("ready", 0, WIDE_SEC) {
        WaitStep::Ready => {}
        other => panic!("{other:?}"),
    }
    match tracker.wait_for_marker("steady", SEC, WIDE_SEC) {
        WaitStep::Fail(text) => {
            assert_eq!(text, "text marker 'steady' not observed within 1000ms; tail: 'ready'");
        }
        other => panic!("{other:?}"),
    }
}

#[test]
fn silence_is_measured_from_the_last_chunk() {
    let mut tracker = tracker();
    let mut watch = QuietWatch::new(0, tracker.chunks_seen());
    absorb(&mut tracker, data(90 * MS, b"tick")).unwrap();
    match watch.look(&tracker, 100 * MS, 500 * WIDE_MS, 20 * WIDE_SEC) {
        QuietStep::Wait => {}
        other => panic!("{other:?}"),
    }
    match watch.look(&tracker, 599 * MS, 500 * WIDE_MS, 20 * WIDE_SEC) {
        QuietStep::Wait => {}
        other => panic!("{other:?}"),
    }
    match watch.look(&tracker, 600 * MS, 500 * WIDE_MS, 20 * WIDE_SEC) {
        QuietStep::Quiet { elapsed_ns } => assert_eq!(elapsed_ns, 600 * MS),
        other => panic!("{other:?}"),
    }
    let mut noisy = QuietWatch::new(0, 0);
    match noisy.look(&tracker, 20 * SEC, 500 * WIDE_MS, 20 * WIDE_SEC) {
        QuietStep::Fail(text) => assert_eq!(
            text,
            "output never went quiet for 500ms within 20s \u{2014} it is still streaming"
        ),
        other => panic!("{other:?}"),
    }
    absorb(&mut tracker, end("eof")).unwrap();
    match noisy.look(&tracker, 60 * SEC, 500 * WIDE_MS, 20 * WIDE_SEC) {
        QuietStep::Fail(text) => assert!(text.contains("the process is gone"), "{text}"),
        other => panic!("{other:?}"),
    }
}

#[test]
fn a_wait_for_a_child_reports_its_code_and_kills_only_on_overrun() {
    match wait_child(&Poll::Exited { code: 0 }, 42 * MS, WIDE_SEC) {
        ReapStep::Clean(text) => assert_eq!(text, "child exited cleanly in 42ms"),
        other => panic!("{other:?}"),
    }
    match wait_child(&Poll::Exited { code: 3 }, 0, WIDE_SEC) {
        ReapStep::Fail(text) => assert_eq!(text, "child exited with code 3"),
        other => panic!("{other:?}"),
    }
    match wait_child(&Poll::Running, SEC - 1, WIDE_SEC) {
        ReapStep::Wait => {}
        other => panic!("{other:?}"),
    }
    match wait_child(&Poll::Running, SEC, WIDE_SEC) {
        ReapStep::Kill(text) => {
            assert_eq!(text, "child still running after 1s of try_wait polling; ");
        }
        other => panic!("{other:?}"),
    }
    match wait_child(&Poll::Failed { error: "no".to_string() }, 0, WIDE_SEC) {
        ReapStep::Fail(text) => assert_eq!(text, "child wait failed: no"),
        other => panic!("{other:?}"),
    }
}

fn kill_with(events: Vec<KillEvent>) -> String {
    let mut state = KillState::Check;
    for event in events {
        match force_kill(state, &event) {
            KillMove::Next(next) => state = next,
            KillMove::Done(text) => return text,
        }
    }
    panic!("the kill never finished: {state:?}");
}

#[test]
fn a_kill_is_reported_only_as_far_as_it_was_confirmed() {
    assert_eq!(
        kill_with(vec![KillEvent::Polled(Poll::Exited { code: 7 })]),
        "child had already exited (code 7)"
    );
    assert_eq!(
        kill_with(vec![
            KillEvent::Polled(Poll::Running),
            KillEvent::Signalled { error: None },
            KillEvent::Polled(Poll::Running),
            KillEvent::Polled(Poll::Exited { code: 1 }),
        ]),
        "killed and reaped (exit code 1)"
    );
    assert_eq!(
        kill_with(vec![
            KillEvent::Polled(Poll::Running),
            KillEvent::Signalled { error: Some("denied".to_string()) },
        ]),
        "kill failed: denied"
    );
    assert_eq!(
        kill_with(vec![
            KillEvent::Polled(Poll::Failed { error: "unreadable".to_string() }),
            KillEvent::Signalled { error: Some("denied".to_string()) },
        ]),
        "checking whether the child was alive failed (unreadable) and the precautionary kill also failed: denied"
    );
    assert_eq!(
        kill_with(vec![
            KillEvent::Polled(Poll::Failed { error: "unreadable".to_string() }),
            KillEvent::Signalled { error: None },
            KillEvent::Polled(Poll::Failed { error: "gone".to_string() }),
        ]),
        "killed, but the reap failed: gone"
    );
    assert_eq!(
        kill_with(vec![
            KillEvent::Polled(Poll::Running),
            KillEvent::Signalled { error: None },
            KillEvent::GraceOver,
        ]),
        "kill issued, but the child was not reaped within 2s"
    );
}

#[test]
fn a_teardown_names_what_did_not_happen() {
    assert!(teardown(&DrainEvent::Data, 0, WIDE_SEC).is_none());
    assert_eq!(
        teardown(&DrainEvent::TimedOut, 0, 10 * WIDE_SEC).unwrap().unwrap_err(),
        "the reader did not reach end-of-stream within 10s of closing the master"
    );
    assert_eq!(
        teardown(&DrainEvent::Disconnected, 0, WIDE_SEC).unwrap().unwrap_err(),
        "reader thread ended without reporting end-of-stream"
    );
    assert_eq!(
        close_timeout(10 * WIDE_SEC, false),
        "closing the pty master did not complete within 10s"
    );
    assert!(close_timeout(10 * WIDE_SEC, true).ends_with("(microsoft/terminal#1810)"));
    assert_eq!(
        alloc_failure(&AllocFault::Failed { error: "no ptys".to_string() }, WIDE_SEC, false),
        "pty allocation failed: no ptys"
    );
    assert_eq!(
        alloc_failure(&AllocFault::TimedOut, 5 * WIDE_SEC, false),
        "pty allocation did not complete within 5s"
    );
    assert!(alloc_failure(&AllocFault::TimedOut, 5 * WIDE_SEC, true).contains("ConPTY hang"));
    assert_eq!(
        alloc_failure(&AllocFault::Died, WIDE_SEC, true),
        "pty allocation thread died without a result"
    );
}

/// A report line of the fixture: `probe-child event=<event> <field>=<value>..`.
fn reports_in(text: &str) -> Vec<Vec<(String, String)>> {
    text.lines()
        .filter_map(|line| line.trim().strip_prefix("probe-child "))
        .map(|rest| {
            rest.split_whitespace()
                .filter_map(|field| field.split_once('='))
                .map(|(name, value)| (name.to_string(), value.to_string()))
                .collect()
        })
        .collect()
}

fn asked(text: &str, name: &str, value: &str) -> Vec<bool> {
    reports_in(text)
        .iter()
        .map(|report| report.iter().any(|(n, v)| n == name && v == value))
        .collect()
}

fn tracker_with(chunks: &[&str]) -> OutputTracker {
    let mut tracker = OutputTracker::new(FirstTokenClock::new(0), None);
    for chunk in chunks {
        tracker.note_chunk(1, chunk.as_bytes());
        tracker.absorb(chunk.as_bytes()).unwrap();
    }
    tracker
}

#[test]
fn reports_are_found_under_ansi_decoration_and_split_chunks() {
    let tracker = tracker_with(&[
        "\x1b[2J\x1b[1;1Hprobe-child event=ready mode=raw pg",
        "id=42 isig=off\r\n",
    ]);
    let seen = asked(&tracker.visible_text(), "event", "ready");
    match wait_for_report(&tracker, "ready", &seen, 0, 5_000_000_000) {
        ReportStep::Found(at) => {
            let ready = &reports_in(&tracker.visible_text())[at];
            assert!(ready.contains(&("pgid".to_string(), "42".to_string())));
            assert!(ready.contains(&("isig".to_string(), "off".to_string())));
        }
        other => panic!("{other:?}"),
    }
}

#[test]
fn a_missing_report_times_out_instead_of_hanging() {
    let tracker = tracker_with(&[]);
    let what = "the fixture's quit report";
    assert!(matches!(
        wait_for_report(&tracker, what, &vec![], 19_000_000, 20_000_000),
        ReportStep::Wait
    ));
    match wait_for_report(&tracker, what, &vec![false], 20_000_000, 20_000_000) {
        ReportStep::Fail(err) => {
            assert!(err.contains("within"), "unexpected error: {err}");
            assert!(err.contains("quit report"), "the awaited thing must be named: {err}");
        }
        other => panic!("{other:?}"),
    }
}

#[test]
fn counting_matches_only_the_asked_for_reports() {
    let tracker = tracker_with(&[
        "probe-child event=byte hex=0x03\r\n",
        "probe-child event=byte hex=0x1b\r\n",
        "probe-child event=interrupt count=1 via=sigint-handler\r\n",
        "unrelated terminal noise\r\n",
    ]);
    let text = tracker.visible_text();
    assert_eq!(count_reports(&asked(&text, "event", "byte")), 2);
    assert_eq!(count_reports(&asked(&text, "hex", "0x03")), 1);
    assert_eq!(count_reports(&asked(&text, "event", "interrupt")), 1);
}
