//! The launch rig, the child's environment, the four-point and cleanup lanes,
//! and post-exit inspection.
use bridge_probes::binary::{
    explicit_binary, find_on_path, reject_batch_shim, version_answer, version_step,
    version_timeout, PathHit, VersionPoll, VersionStep,
};
use bridge_probes::cleanup::{
    advance as cleanup_advance, console_host_check, containable_pid, empty_group_detail, fail,
    step_name, termination_detail, CleanupEvent, CleanupMove, CleanupStep,
};
use bridge_probes::environ::{
    child_env_defaults, compose_child_env, eq_ignoring_case, forbidden_env_name, is_carried,
    verify_env_hygiene, Platform,
};
use bridge_probes::firsttoken::FirstTokenClock;
use bridge_probes::fourpoint::{
    check_approval_parity, check_interrupt, check_transcript, conclude, hooks_fire, judge_turn,
    tool_prompt, venue, InterruptEvent, InterruptMove, InterruptStep, ParityEvent, ParityMove,
    ParityStep, PointOutcome,
};
use bridge_probes::hooks::{event_from, Decision};
use bridge_probes::inspect::{
    await_baseline, await_group_empty, await_job_empty, channel_kind, console_hosts,
    group_has_members, new_console_hosts, process_alive, standing_in, surviving_members,
    BaselineLook, CensusEntry, EmptyLook, GroupAnswer, GroupStanding, SignalAnswer,
};
use bridge_probes::launch::{
    launch_failure, must_kill, names_for, next_launch_step, recording_names, session_names,
    spawn_detail, LaunchStep, Profile,
};
use bridge_probes::pty::{EndInfo, OutputTracker};
use bridge_probes::rig::{
    advertised_transcript, check_session_id, finish_outcome, first_token_failure,
    is_permission_notification, launch_args, live_failure, prompt_turn_detail, probe_report,
    screen_shows_dialog, shows_dialog, start_look, start_timeout, transcript_look, GrowthLook,
    HookFilter, HookLog, HookWait, LiveStep, ProbeConfig, StartLook, Turn,
};
use bridge_probes::Failure;

/// The CLI that the live lanes launch.
const LIVE: &str = "agent";

const MS: u64 = 1_000_000;
const SEC: u64 = 1_000_000_000;
const WIDE_SEC: u128 = 1_000_000_000;
const WIDE_MS: u128 = 1_000_000;

fn posix() -> Platform {
    Platform { windows: false, macos: false }
}

fn parent(vars: &[(&str, &str)]) -> Vec<(String, String)> {
    vars.iter()
        .map(|(k, v)| (k.to_string(), v.to_string()))
        .collect()
}

fn ended(reason: &str) -> EndInfo {
    EndInfo {
        reason: reason.to_string(),
        cursor_queries_answered: 0,
        cursor_reply_error: None,
    }
}

fn tracker_showing(text: &str) -> OutputTracker {
    let mut tracker = OutputTracker::new(FirstTokenClock::new(0), None);
    tracker.note_chunk(1, text.as_bytes());
    tracker.absorb(text.as_bytes()).unwrap();
    tracker
}

#[test]
fn env_hygiene_strips_claude_markers() {
    let composed = compose_child_env(
        80,
        24,
        &parent(&[
            ("HOME", "/home/u"),
            ("PATH", "/usr/bin"),
            ("CLAUDE_CODE_CHILD_SESSION", "1"),
            ("CLAUDECODE", "1"),
            ("CLAUDE_CODE_ENTRYPOINT", "cli"),
            ("CMUX_SOCKET", "/tmp/cmux.sock"),
            ("NODE_OPTIONS", "--require /shim.js"),
            ("LD_PRELOAD", "/evil.so"),
            ("SOME_RANDOM_VAR", "x"),
        ]),
        posix(),
    );
    let names: Vec<&str> = composed.iter().map(|(k, _)| k.as_str()).collect();
    for stripped in [
        "CLAUDE_CODE_CHILD_SESSION",
        "CLAUDECODE",
        "CLAUDE_CODE_ENTRYPOINT",
        "CMUX_SOCKET",
        "NODE_OPTIONS",
        "LD_PRELOAD",
        "SOME_RANDOM_VAR",
    ] {
        assert!(!names.contains(&stripped), "{stripped} must be stripped");
    }
    for carried in ["HOME", "PATH"] {
        assert!(names.contains(&carried), "{carried} must be carried");
    }
}

#[test]
fn composed_env_carries_the_terminal_defaults() {
    let composed = compose_child_env(120, 40, &parent(&[("HOME", "/home/u")]), posix());
    let get = |key: &str| {
        composed
            .iter()
            .find(|(k, _)| k == key)
            .map(|(_, v)| v.as_str())
            .unwrap_or_else(|| panic!("missing env default: {key}"))
    };
    assert_eq!(get("TERM"), "xterm-256color");
    assert_eq!(get("COLUMNS"), "120");
    assert_eq!(get("LINES"), "40");
    assert_eq!(get("COLORTERM"), "truecolor");
    assert!(get("LC_ALL").ends_with("UTF-8"), "LC_ALL must force UTF-8");
    assert_eq!(get("LANG"), get("LC_ALL"));
    assert_eq!(child_env_defaults(80, 24, true)[1].1, "en_US.UTF-8");
    assert_eq!(child_env_defaults(80, 24, false)[1].1, "C.UTF-8");
}

#[test]
fn auth_variables_survive_composition() {
    let composed = compose_child_env(
        80,
        24,
        &parent(&[
            ("CLAUDE_CONFIG_DIR", "/home/u/.agent-personal"),
            ("ANTHROPIC_API_KEY", "sk-test"),
        ]),
        posix(),
    );
    let names: Vec<&str> = composed.iter().map(|(k, _)| k.as_str()).collect();
    assert!(names.contains(&"CLAUDE_CONFIG_DIR"));
    assert!(names.contains(&"ANTHROPIC_API_KEY"));
}

#[test]
fn forbidden_markers_do_not_catch_the_config_dir() {
    assert!(!forbidden_env_name("CLAUDE_CONFIG_DIR"));
    assert!(forbidden_env_name("CLAUDE_CODE_CHILD_SESSION"));
    assert!(forbidden_env_name("CLAUDECODE"));
    assert!(forbidden_env_name("CMUX_ANYTHING"));
    assert!(forbidden_env_name("NODE_OPTIONS"));
}

#[test]
fn defaults_win_over_carried_parent_values() {
    let composed = compose_child_env(80, 24, &parent(&[("HOME", "/home/u")]), posix());
    let terms: Vec<&(String, String)> = composed.iter().filter(|(k, _)| k == "TERM").collect();
    assert_eq!(terms.len(), 1);
}

#[test]
fn names_are_case_insensitive_on_windows_alone() {
    assert!(is_carried("Path", true));
    assert!(!is_carried("Path", false));
    assert!(is_carried("SystemRoot", true));
    assert!(!is_carried("SYSTEMROOT", false));
    assert!(eq_ignoring_case("ComSpec", "COMSPEC"));
    assert!(!eq_ignoring_case("É", "é"));
}

#[test]
fn a_read_back_environment_is_held_to_the_markers() {
    assert_eq!(
        verify_env_hygiene(42, b"HOME=/h\0PATH=/usr/bin\0\0TERM=x=y\0").unwrap(),
        "/proc/42/environ read directly: 3 variables, no nested-session markers (CLAUDE_CODE_*, CLAUDECODE, CMUX_*, NODE_OPTIONS all absent)"
    );
    assert_eq!(
        verify_env_hygiene(42, b"A=1\0CLAUDECODE=1\0CMUX_X=\0NODE_OPTIONS").unwrap_err(),
        "child environment carries forbidden markers: CLAUDECODE, CMUX_X, NODE_OPTIONS \u{2014} the spawn path leaked them past the composed allowlist"
    );
}

#[test]
fn an_explicit_path_must_name_an_executable_file() {
    let err = explicit_binary("/tmp", true, false, &None, false, LIVE).unwrap_err();
    assert!(err.contains("is a directory"), "unexpected error: {err}");
    let err = explicit_binary("/tmp/no", false, false, &None, false, LIVE).unwrap_err();
    assert!(err.contains("does not exist"), "unexpected error: {err}");
    assert!(explicit_binary("/bin/x", false, true, &None, false, LIVE).is_ok());
}

#[test]
fn a_bare_name_is_looked_up_on_path() {
    let nothing = || PathHit { exe: None, plain: None, cmd: None, bat: None };
    let err = find_on_path("agent-bridge-no-such-binary", &Some(vec![nothing(), nothing()]), false, LIVE)
        .unwrap_err();
    assert!(err.contains("not found on PATH"), "unexpected error: {err}");
    assert_eq!(find_on_path("x", &None, false, LIVE).unwrap_err(), "PATH is not set");
    let hit = PathHit { plain: Some("/b/x".to_string()), ..nothing() };
    assert_eq!(find_on_path("x", &Some(vec![nothing(), hit]), false, LIVE).unwrap(), "/b/x");
    let shim = PathHit { cmd: Some("C:\\npm\\x.cmd".to_string()), ..nothing() };
    let err = find_on_path("x", &Some(vec![shim]), true, LIVE).unwrap_err();
    assert!(err.contains("is a batch shim"), "{err}");
    let exe = PathHit {
        exe: Some("C:\\x.exe".to_string()),
        plain: Some("C:\\x".to_string()),
        ..nothing()
    };
    assert_eq!(find_on_path("x", &Some(vec![exe]), true, LIVE).unwrap(), "C:\\x.exe");
}

#[test]
fn a_batch_shim_is_refused_wherever_it_comes_from() {
    let ext = |e: &str| Some(e.to_string());
    assert!(reject_batch_shim(r"C:\npm\agent.CMD", &ext("CMD"), true, LIVE).is_err());
    assert!(reject_batch_shim(r"C:\npm\agent.bat", &ext("bat"), true, LIVE).is_err());
    assert!(reject_batch_shim(r"C:\bin\agent.exe", &ext("exe"), true, LIVE).is_ok());
    assert!(reject_batch_shim("/x/agent.bat", &ext("bat"), false, LIVE).is_ok());
}

#[test]
fn a_version_query_is_polled_and_judged() {
    match version_step("agent", &VersionPoll::Running, 20 * SEC) {
        VersionStep::Kill => {}
        other => panic!("{other:?}"),
    }
    match version_step("agent", &VersionPoll::Running, 19 * SEC) {
        VersionStep::Wait => {}
        other => panic!("{other:?}"),
    }
    match version_step("agent", &VersionPoll::Failed { error: "no".to_string() }, 0) {
        VersionStep::Fail(text) => {
            assert_eq!(text, "waiting on `agent --version` failed: no");
        }
        other => panic!("{other:?}"),
    }
    assert_eq!(
        version_timeout("agent", true),
        "`agent --version` did not answer within 20s; it was killed and reaped"
    );
    assert_eq!(version_answer("c", true, "", b" 2.1.0 \n", b"").unwrap(), "2.1.0");
    assert_eq!(
        version_answer("c", false, "exit status: 1", b"", b"boom\n").unwrap_err(),
        "`c --version` exited with exit status: 1: boom"
    );
}

fn log_of(lines: &[&str]) -> HookLog {
    let mut log = HookLog::new();
    for line in lines {
        log.push(event_from(line, 1));
    }
    log
}

#[test]
fn a_hook_is_awaited_from_its_mark_on() {
    let log = log_of(&[
        "{\"hook_event_name\":\"Notification\",\"message\":\"idle\"}",
        "{\"hook_event_name\":\"Notification\",\"message\":\"needs your Permission\"}",
        "{\"hook_event_name\":\"Stop\"}",
    ]);
    let tracker = tracker_showing("abc");
    match log.wait_for_hook(&tracker, "Notification", HookFilter::Any, 0, 0, WIDE_SEC) {
        HookWait::Seen(0) => {}
        other => panic!("{other:?}"),
    }
    match log.wait_for_hook(&tracker, "Notification", HookFilter::Permission, 0, 0, WIDE_SEC) {
        HookWait::Seen(1) => {}
        other => panic!("{other:?}"),
    }
    match log.wait_for_hook(&tracker, "Notification", HookFilter::Any, 2, 0, WIDE_SEC) {
        HookWait::Wait => {}
        other => panic!("{other:?}"),
    }
    match log.wait_for_hook(&tracker, "SessionEnd", HookFilter::Any, 1, SEC, WIDE_SEC) {
        HookWait::Fail(text) => assert_eq!(
            text,
            "hook SessionEnd not observed within 1s (hooks seen since mark: [Notification, Stop]); screen tail: 'abc'"
        ),
        other => panic!("{other:?}"),
    }
    assert!(is_permission_notification(&log.event(1).payload));
    assert!(!is_permission_notification(&log.event(0).payload));
    assert_eq!(log.hooks_since(2).len(), 1);
    assert_eq!(log.hooks_since(2)[0].0, "Stop");
}

#[test]
fn the_latest_session_start_names_the_transcript() {
    let log = log_of(&[
        "{\"hook_event_name\":\"SessionStart\",\"transcript_path\":\"/a\"}",
        "{\"hook_event_name\":\"Stop\"}",
        "{\"hook_event_name\":\"SessionStart\",\"transcript_path\":\"/b\"}",
        "{\"hook_event_name\":\"SessionEnd\"}",
    ]);
    assert_eq!(log.latest_transcript("/fallback"), "/b");
    assert_eq!(log_of(&[]).latest_transcript("/fallback"), "/fallback");
    let bare = log_of(&["{\"hook_event_name\":\"SessionStart\"}"]);
    assert_eq!(bare.latest_transcript("/fallback"), "/fallback");
}

#[test]
fn a_dialog_is_answered_again_but_not_forever() {
    assert!(shows_dialog("do you trust this folder?"));
    assert!(!shows_dialog("streaming"));
    let tracker = tracker_showing("\x1b[2JDo you TRUST the files?");
    assert!(screen_shows_dialog(&tracker));
    let log = log_of(&[]);
    match start_look(&log, &tracker, 0, None, true) {
        StartLook::Press => {}
        other => panic!("{other:?}"),
    }
    match start_look(&log, &tracker, 1, Some(3 * SEC), true) {
        StartLook::Watch => {}
        other => panic!("{other:?}"),
    }
    match start_look(&log, &tracker, 4, Some(4 * SEC), true) {
        StartLook::Press => {}
        other => panic!("{other:?}"),
    }
    match start_look(&log, &tracker, 5, Some(60 * SEC), true) {
        StartLook::Watch => {}
        other => panic!("{other:?}"),
    }
    let started = log_of(&["{\"hook_event_name\":\"SessionStart\"}"]);
    match start_look(&started, &tracker, 0, None, true) {
        StartLook::Started(0) => {}
        other => panic!("{other:?}"),
    }
    let mut dead = tracker_showing("x");
    dead.note_end(ended("eof"));
    match start_look(&log, &dead, 0, None, false) {
        StartLook::Fail(failure) => {
            assert_eq!((failure.step, failure.code), ("session_start", 35));
            assert!(failure.detail.contains("the SessionStart hook"), "{}", failure.detail);
        }
        other => panic!("{other:?}"),
    }
    assert!(start_timeout(&tracker, 2, 59 * SEC).is_none());
    let failure = start_timeout(&tracker, 2, 60 * SEC).unwrap();
    assert!(
        failure.detail.starts_with("SessionStart hook not observed within 60s (2 Enter(s) sent"),
        "{}",
        failure.detail
    );
}

#[test]
fn a_started_session_is_held_to_its_id_and_transcript() {
    let start = event_from(
        "{\"hook_event_name\":\"SessionStart\",\"session_id\":\"abc\",\"transcript_path\":\"/t\"}",
        1,
    )
    .payload;
    assert!(check_session_id(&start, "abc").is_ok());
    let failure = check_session_id(&start, "xyz").unwrap_err();
    assert_eq!(failure.detail, "SessionStart carries session_id abc, but the launch preset xyz");
    assert_eq!(advertised_transcript(&start).unwrap(), "/t");
    let bare = event_from("{\"session_id\":1}", 1).payload;
    assert!(check_session_id(&bare, "abc").unwrap_err().detail.contains("<missing>"));
    let failure = advertised_transcript(&bare).unwrap_err();
    assert_eq!(failure.code, 37);
    assert_eq!(
        failure.detail,
        "SessionStart payload carries no transcript_path: {\"session_id\":1}"
    );
}

#[test]
fn a_transcript_that_does_not_grow_is_a_dead_channel() {
    let tracker = tracker_showing("x");
    match transcript_look(&tracker, "/t", 10, 11, 0) {
        GrowthLook::Grown => {}
        other => panic!("{other:?}"),
    }
    match transcript_look(&tracker, "/t", 10, 10, 14 * SEC) {
        GrowthLook::Wait => {}
        other => panic!("{other:?}"),
    }
    match transcript_look(&tracker, "/t", 10, 10, 15 * SEC) {
        GrowthLook::Fail(text) => assert!(text.contains("did not grow past 10 bytes within 15s")),
        other => panic!("{other:?}"),
    }
    assert!(matches!(
        check_transcript(&tracker, "/t", 10, 20, 0, false),
        Some(PointOutcome::Green(_))
    ));
    match check_transcript(&tracker, "/t", 10, 3, 15 * SEC, true) {
        Some(PointOutcome::Red(text)) => assert_eq!(
            text,
            "/t did not grow past 10 bytes \u{2014} the content channel is dead under ConPTY"
        ),
        other => panic!("{other:?}"),
    }
}

#[test]
fn the_launch_line_presets_the_session() {
    assert_eq!(
        launch_args("id", "/s.json", &Some("m".to_string())),
        vec!["--session-id", "id", "--settings", "/s.json", "--model", "m"]
    );
    assert_eq!(launch_args("id", "/s.json", &None).len(), 4);
    let config = ProbeConfig::standard(LIVE);
    assert_eq!((config.claude_bin.as_str(), config.first_token_ms), ("agent", 2_000));
}

#[test]
fn turns_report_their_hooks() {
    let turn = Turn {
        duration: 1_500 * MS,
        hooks: log_of(&["{\"hook_event_name\":\"Stop\"}"]).hooks_since(0),
    };
    assert_eq!(turn.hook_names(), vec!["Stop"]);
    assert!(prompt_turn_detail(&turn, Some(20 * MS)).starts_with(
        "turn completed in 1500ms (Stop observed); first output after Enter in 20ms"
    ));
    assert_eq!(
        probe_report("2.1", "id", None, Some(3 * MS), 9 * MS, true, 1),
        "cli=2.1 session=id first_token_launch=unmeasured first_output_after_submit=3ms turn_ms=9 trust_dialog=true cursor_queries_answered=1"
    );
    assert!(first_token_failure("late", 0)
        .detail
        .starts_with("late; cursor-position queries answered so far: 0"));
    assert_eq!(live_failure(LiveStep::TypeExit, "x").detail, "typing /exit failed: x");
    assert_eq!(live_failure(LiveStep::Teardown, "x").code, 43);
}

#[test]
fn a_shutdown_failure_is_never_masked_by_cleanup() {
    let fail = |code| Err(Failure::new("s", code, "d"));
    assert_eq!(finish_outcome(fail(40), fail(43)).unwrap_err().code, 40);
    assert_eq!(finish_outcome(Ok(()), fail(43)).unwrap_err().code, 43);
    assert!(finish_outcome(Ok(()), Ok(())).is_ok());
}

#[test]
fn a_launch_is_known_by_a_fresh_identifier() {
    let a = session_names();
    let b = session_names();
    assert_ne!(a.id, b.id);
    assert_eq!(a.id.len(), 36);
    assert_eq!(a.short_id, a.id[..8]);
    assert_eq!(a.workdir, format!("agent-bridge-interactive-probe-{}", a.short_id));
    assert!(recording_names().workdir.starts_with("agent-bridge-record-"));
    let named = names_for("0123456789".to_string(), "p");
    assert_eq!(named.capture, "agent-bridge-capture-01234567.ndjson");
}

#[test]
fn a_failed_launch_kills_the_child_that_nothing_owns() {
    let mut step = LaunchStep::Resolve;
    let mut steps = 0;
    let mut kills = 0;
    while step != LaunchStep::Done {
        kills += usize::from(must_kill(step));
        step = next_launch_step(Profile::Live, step);
        steps += 1;
    }
    assert_eq!((steps, kills), (11, 3));
    let failure =
        launch_failure(Profile::Live, LaunchStep::Reader, "", "no fd", "killed and reaped (exit code 1)");
    assert_eq!((failure.step, failure.code), ("spawn", 33));
    assert_eq!(
        failure.detail,
        "cloning the reader failed: no fd; the child was killed and reaped (exit code 1)"
    );
    let failure = launch_failure(Profile::Generic, LaunchStep::Directory, "/w", "full", "-");
    assert_eq!((failure.step, failure.code), ("spawn", 82));
    assert_eq!(failure.detail, "creating /w failed: full");
    assert_eq!(
        spawn_detail("/b", None, "id", "/c"),
        "spawned `/b` pid=unknown session-id=id; capturing to /c"
    );
}

fn names(list: &[&str]) -> Vec<String> {
    list.iter().map(|s| s.to_string()).collect()
}

#[test]
fn decisions_are_judged_by_event_shape() {
    let both = names(&["PreToolUse", "PostToolUse", "Stop"]);
    let pre = names(&["PreToolUse", "Stop"]);
    assert_eq!(
        judge_turn(Decision::Allow, &both, 7 * MS).unwrap(),
        "Allow \u{2192} [PreToolUse, PostToolUse, Stop] in 7ms"
    );
    assert!(judge_turn(Decision::Allow, &pre, 0).unwrap_err().contains("never executed"));
    assert!(judge_turn(Decision::Deny, &pre, 0).is_ok());
    assert!(judge_turn(Decision::Deny, &both, 0).unwrap_err().contains("executed anyway"));
    assert!(judge_turn(Decision::Deny, &names(&["Stop"]), 0)
        .unwrap_err()
        .starts_with("Deny: no PreToolUse hook fired"));
    assert_eq!(tool_prompt("t"), "Run this shell command and nothing else: echo t");
}

#[test]
fn an_approval_check_runs_all_three_decisions() {
    let mut notes = Vec::new();
    let done = |list: &[&str]| ParityEvent::Done { names: names(list), duration_ns: 5 * MS };
    let steps = vec![
        (ParityStep::Allow, done(&["PreToolUse", "PostToolUse"])),
        (ParityStep::Deny, done(&["PreToolUse"])),
        (ParityStep::Ask, ParityEvent::Performed),
        (ParityStep::Notice, done(&["PreToolUse", "Notification"])),
        (ParityStep::Dismiss, ParityEvent::Performed),
    ];
    for (step, event) in &steps {
        match check_approval_parity(*step, event, &mut notes, false) {
            ParityMove::Next(_) => {}
            other => panic!("{step:?}: {other:?}"),
        }
    }
    let noisy = ParityEvent::Failed { error: "still streaming".to_string() };
    match check_approval_parity(ParityStep::Settle, &noisy, &mut notes, false) {
        ParityMove::Done(PointOutcome::Green(text)) => {
            assert!(text.contains("over the unix domain socket"), "{text}");
            assert!(text.ends_with("ask: session still noisy after Escape (still streaming)"));
        }
        other => panic!("{other:?}"),
    }
    let mut notes = Vec::new();
    match check_approval_parity(ParityStep::Notice, &done(&["PostToolUse"]), &mut notes, true) {
        ParityMove::Done(PointOutcome::Red(text)) => {
            assert!(text.starts_with("ask: PostToolUse fired"), "{text}");
        }
        other => panic!("{other:?}"),
    }
    // An event that does not answer a step judges nothing.
    for step in [ParityStep::Allow, ParityStep::Deny, ParityStep::Notice] {
        match check_approval_parity(step, &ParityEvent::Performed, &mut notes, true) {
            ParityMove::Next(next) => assert_eq!(next, step),
            other => panic!("{other:?}"),
        }
    }
    assert!(notes.is_empty());
    match check_approval_parity(ParityStep::Dismiss, &noisy, &mut notes, true) {
        ParityMove::Done(outcome) => {
            assert_eq!(outcome.status(), "red");
            assert_eq!(outcome.detail(), "ask: dismissing the dialog failed: still streaming");
        }
        other => panic!("{other:?}"),
    }
}

#[test]
fn an_interrupt_must_stop_the_stream_and_spare_the_session() {
    let moves = vec![
        (InterruptStep::Submit, InterruptEvent::Performed),
        (InterruptStep::WarmUp, InterruptEvent::Streamed { chunks: 12 }),
        (InterruptStep::Interrupt { streamed: 12 }, InterruptEvent::Performed),
        (InterruptStep::Quiet { streamed: 12 }, InterruptEvent::Took { ns: 1_700 * MS }),
    ];
    for (step, event) in &moves {
        match check_interrupt(*step, event) {
            InterruptMove::Next(_) => {}
            other => panic!("{step:?}: {other:?}"),
        }
    }
    let last = InterruptStep::FollowUp { streamed: 12, quiet_ms: 1_700 };
    match check_interrupt(last, &InterruptEvent::Took { ns: 900 * MS }) {
        InterruptMove::Done(PointOutcome::Green(text)) => {
            assert!(text.starts_with("12 chunks streamed, then the Ctrl+C byte (0x03)"), "{text}");
            assert!(text.ends_with("answered a follow-up in 900ms"), "{text}");
        }
        other => panic!("{other:?}"),
    }
    match check_interrupt(InterruptStep::WarmUp, &InterruptEvent::Streamed { chunks: 0 }) {
        InterruptMove::Done(PointOutcome::Red(text)) => assert!(text.contains("2500ms"), "{text}"),
        other => panic!("{other:?}"),
    }
    match check_interrupt(last, &InterruptEvent::Failed { error: "gone".to_string() }) {
        InterruptMove::Done(PointOutcome::Red(text)) => assert!(text.contains("did not survive")),
        other => panic!("{other:?}"),
    }
}

#[test]
fn red_points_own_the_exit_code() {
    let green = || PointOutcome::Green("g".to_string());
    let red = || PointOutcome::Red("r".to_string());
    let failure = conclude(
        &vec![green(), red(), green(), red()],
        Err(Failure::new("teardown", 43, "d")),
        false,
    )
    .unwrap_err();
    assert_eq!((failure.step, failure.code), ("four_point", 50));
    assert_eq!(
        failure.detail,
        "point(s) [2, 4] red under tty \u{2014} recorded as findings above, not waived"
    );
    let all = vec![green(), green(), green(), green()];
    assert_eq!(
        conclude(&all, Ok(()), true).unwrap(),
        "all four points green under ConPTY over the named pipe"
    );
    assert_eq!(conclude(&all, Err(Failure::new("exit", 40, "d")), true).unwrap_err().code, 40);
    assert_eq!(hooks_fire(0, false).status(), "red");
    assert_eq!(
        hooks_fire(3, false).detail(),
        "3 hook payload(s) reached the listener over the unix domain socket under tty (incl. SessionStart)"
    );
    assert!(venue(false, "linux").contains("os=linux \u{2014} this is the POSIX baseline"));
}

#[test]
fn await_baseline_reports_a_leak_instead_of_settling() {
    // A held channel must fail the settle with the delta named, not pass
    // or hang.
    match await_baseline(false, 13, 10, 0, 79 * MS, 80 * WIDE_MS) {
        BaselineLook::Wait => {}
        other => panic!("{other:?}"),
    }
    match await_baseline(false, 13, 10, 0, 80 * MS, 80 * WIDE_MS) {
        BaselineLook::Leak(text) => {
            assert!(text.contains("delta +3"), "the delta must be named: {text}");
        }
        other => panic!("{other:?}"),
    }
    match await_baseline(true, 9, 10, 0, 5 * MS, 80 * WIDE_MS) {
        BaselineLook::Settled(text) => {
            assert_eq!(text, "handle_delta=0 (baseline 10, now 9, settled in 5ms)");
        }
        other => panic!("{other:?}"),
    }
    assert_eq!(channel_kind(false), "fd");
}

#[test]
fn a_declared_residue_is_reported_not_silently_absorbed() {
    // One held channel inside a declared residue of one settles — but
    // the detail must say the residue was consumed, never plain delta=0.
    match await_baseline(false, 11, 10, 1, 5 * MS, 80 * WIDE_MS) {
        BaselineLook::Settled(detail) => {
            assert!(!detail.contains("delta=0"), "{detail}");
            assert!(
                detail.contains("declared platform residue"),
                "the residue must be named: {detail}"
            );
        }
        other => panic!("{other:?}"),
    }
}

#[test]
fn the_scan_finds_a_planted_member_and_its_departure() {
    let (pgid, pid) = (7, 100);
    assert_eq!(standing_in(pgid, GroupAnswer::Group(7)), GroupStanding::Member);
    assert_eq!(surviving_members(pgid, &vec![(pid, GroupAnswer::Group(7))]), vec![pid]);
    assert!(process_alive(&SignalAnswer::Delivered));
    assert!(group_has_members(pgid, &SignalAnswer::Delivered).unwrap());

    assert_eq!(standing_in(pgid, GroupAnswer::NoSuchProcess), GroupStanding::Gone);
    assert!(surviving_members(pgid, &vec![(pid, GroupAnswer::NoSuchProcess)]).is_empty());
    assert!(!process_alive(&SignalAnswer::NoSuchProcess));
    assert!(!group_has_members(pgid, &SignalAnswer::NoSuchProcess).unwrap());
    assert!(group_has_members(pgid, &SignalAnswer::NotPermitted).unwrap());
    assert!(process_alive(&SignalAnswer::NotPermitted));
    assert_eq!(
        group_has_members(7, &SignalAnswer::Failed { error: "EINVAL".to_string() }).unwrap_err(),
        "kill(-7, 0) failed: EINVAL"
    );
}

#[test]
fn a_process_in_another_group_reads_as_outside() {
    // Some systems answer for a process in another session, others refuse:
    // both spell "outside".
    for answer in [GroupAnswer::Group(1), GroupAnswer::Refused] {
        assert!(matches!(standing_in(7, answer), GroupStanding::Outside { .. }));
        assert!(surviving_members(7, &vec![(1, answer)]).is_empty());
    }
    assert_eq!(standing_in(7, GroupAnswer::Group(8)), GroupStanding::Outside { pgid: Some(8) });
    assert_eq!(standing_in(7, GroupAnswer::Refused), GroupStanding::Outside { pgid: None });
}

#[test]
fn an_empty_group_awaits_immediately() {
    match await_group_empty(7, &SignalAnswer::NoSuchProcess, 30 * MS, 5 * WIDE_SEC) {
        EmptyLook::Empty { ms } => assert!(ms < 5_000),
        other => panic!("{other:?}"),
    }
    match await_group_empty(7, &SignalAnswer::Delivered, SEC, WIDE_SEC) {
        EmptyLook::Fail(text) => {
            assert_eq!(text, "process group 7 still has members after 1000ms");
        }
        other => panic!("{other:?}"),
    }
    match await_job_empty(&vec![4, 5], SEC, WIDE_SEC) {
        EmptyLook::Fail(text) => assert_eq!(text, "the job still holds [4, 5] after 1000ms"),
        other => panic!("{other:?}"),
    }
}

#[test]
fn console_hosts_are_counted_by_parent_and_name() {
    let entry = |pid, parent, name: &str| CensusEntry { pid, parent, name: name.to_string() };
    let census = vec![
        entry(1, 50, "ConHost.exe"),
        entry(2, 51, "conhost.exe"),
        entry(3, 50, "OpenConsole.exe"),
        entry(4, 50, "cmd.exe"),
    ];
    assert_eq!(console_hosts(&census, 50), vec![1, 3]);
    assert_eq!(new_console_hosts(&vec![1, 3, 9], &vec![1]), vec![3, 9]);
    let failure = console_host_check(&Some(vec![3])).unwrap_err();
    assert_eq!(failure.code, 75);
    assert!(failure.detail.ends_with("[3]"), "{}", failure.detail);
    assert_eq!(console_host_check(&Some(vec![])).unwrap().0, "pass");
    assert_eq!(console_host_check(&None).unwrap().0, "skip");
}

#[test]
fn a_lingering_process_is_a_finding() {
    let failure = fail(CleanupStep::Termination, "child still running");
    assert_eq!((failure.step, failure.code), ("termination", 73));
    assert!(failure.detail.contains("by more than 60s"), "{}", failure.detail);
    assert_eq!(fail(CleanupStep::TypeExit, "pipe").detail, "typing /exit failed: pipe");
    assert_eq!(fail(CleanupStep::TreeEmpty, "x").code, 74);
    assert_eq!(containable_pid(Some(12)).unwrap(), 12);
    assert_eq!(containable_pid(None).unwrap_err().detail, "the spawned child reports no pid");
    assert_eq!(
        containable_pid(Some(3_000_000_000)).unwrap_err().detail,
        "pid 3000000000 does not fit i32"
    );
    assert_eq!(
        termination_detail("child exited cleanly in 5ms", 40 * MS),
        "child exited cleanly in 5ms; exit_after_session_end_ms=40"
    );
    assert_eq!(
        empty_group_detail(9, 3),
        "group_survivors=0 \u{2014} kill(-9, 0) reports an empty process group 3ms after teardown"
    );
}

#[test]
fn a_cleanup_runs_its_steps_in_order_and_never_leaves_its_session() {
    let reported = |detail: &str| CleanupEvent::Reported { detail: detail.to_string() };
    let events = vec![
        CleanupEvent::Performed,
        CleanupEvent::Performed,
        reported("bound"),
        CleanupEvent::Performed,
        reported("turned"),
        CleanupEvent::Performed,
        CleanupEvent::Performed,
        reported("left"),
        CleanupEvent::Performed,
        reported("empty"),
        CleanupEvent::Hosts { leaked: None },
    ];
    let mut step = CleanupStep::Census;
    let mut said = Vec::new();
    let mut abandoned = Vec::new();
    for event in events {
        match cleanup_advance(step, CleanupEvent::Failed { error: "no".to_string() }) {
            CleanupMove::Fail { abandon, .. } => abandoned.push(abandon),
            other => panic!("{other:?}"),
        }
        match cleanup_advance(step, event) {
            CleanupMove::Next { step: next, report } => {
                if let Some((status, _)) = report {
                    said.push(format!("{} {status}", step_name(step)));
                }
                assert_ne!(next, step);
                step = next;
            }
            other => panic!("{other:?}"),
        }
    }
    assert_eq!(step, CleanupStep::Done);
    assert_eq!(
        said,
        [
            "contain pass",
            "prompt_turn pass",
            "exit_command pass",
            "termination pass",
            "tree_empty pass",
            "console_host skip",
        ]
    );
    assert_eq!(
        abandoned,
        [false, false, true, true, true, true, true, true, false, false, false]
    );
    match cleanup_advance(CleanupStep::ConsoleHost, CleanupEvent::Hosts { leaked: Some(vec![7]) }) {
        CleanupMove::Fail { failure, abandon: false } => assert_eq!(failure.code, 75),
        other => panic!("{other:?}"),
    }
    match cleanup_advance(CleanupStep::Contain, CleanupEvent::Performed) {
        CleanupMove::Next { step, report: None } => assert_eq!(step, CleanupStep::Contain),
        other => panic!("{other:?}"),
    }
    match cleanup_advance(
        CleanupStep::Establish,
        CleanupEvent::Refused { failure: bridge_probes::Failure::new("first_token", 34, "late") },
    ) {
        CleanupMove::Fail { failure, abandon: true } => assert_eq!(failure.code, 34),
        other => panic!("{other:?}"),
    }
}

#[test]
fn a_binary_with_a_directory_is_explicit() {
    assert_eq!(bridge_probes::binary::lookup(1), bridge_probes::binary::Lookup::Search);
    assert_eq!(bridge_probes::binary::lookup(2), bridge_probes::binary::Lookup::Explicit);
}

#[test]
fn a_shutdown_warning_comes_only_beside_a_red_point() {
    let warning = bridge_probes::fourpoint::shutdown_warning;
    let red = vec![PointOutcome::Red("r".to_string())];
    let green = vec![PointOutcome::Green("g".to_string())];
    let failed = Err(bridge_probes::Failure::new("exit", 40, "stuck"));
    assert_eq!(warning(&red, &failed), Some("stuck"));
    assert_eq!(warning(&green, &failed), None);
    assert_eq!(warning(&red, &Ok(())), None);
}
