//! The recording lane: what a scripted session is checked for before it starts,
//! what it logs, and the fixture that it leaves.
//!
//! Times are readings of one monotonic clock, in nanoseconds.
use vstd::prelude::*;
use vstd::string::*;

use crate::ansi::stripped;
use crate::capture::{views, CaptureChunk, ChunkView};
use crate::failure::{Failure, COLS, ROWS};
use crate::hooks::HookEventView;
use crate::json::{
    compact, field_in, fields_view, flat, flat_fields, flat_numbers, in_key_order,
    law_a_placed_field_is_found, law_a_value_is_one_line, lemma_placed_is_flat, number, place,
    placed, string, Json, JsonView,
};
use crate::pty::{last_chars, OutputTracker};
use crate::report::{lemma_texts_push, optional_text, texts};
use crate::rig::{
    event_names, first_awaited, none_awaited, HookFilter, HookLog, HookWait, WorkdirFate,
};
use crate::script::{DriverStep, KindView, RecordScript, ScriptView, StepKind};
use crate::session::{elapsed, hex_value, json_read, json_unescape};
use crate::text::{
    all_space, any_control, begins_with, chars_of, code_of, controls, decimal, has_control, hex,
    hex_digit, is_blank, is_control, join, joined, lemma_decimal_digits, occurs_at, push_hex,
    push_u128, push_u64, push_usize, same_text, text_of,
};
use crate::total::{
    is_line, lemma_is_line, lemma_line_feeds_add, lemma_one_line_feed, lemma_sum_same,
    line_feeds, sum,
};

verus! {

/// The working format of a capture, converted once the session is down.
pub const CAPTURE_INTERMEDIATE: &'static str = "capture.ndjson";

/// The side file of the working format.
pub const CAPTURE_META: &'static str = "capture-meta.json";

/// Every file that a recording may leave in the fixture directory.
pub const ARTIFACT_FILES: [&'static str; 7] = [
    "input.bytes",
    "input.timing.ndjson",
    "steps.ndjson",
    "hook-payloads.ndjson",
    "hook-payloads.timing.ndjson",
    "transcript.jsonl",
    "manifest.yaml",
];

/// How long the epilogue gives the child to be gone.
pub const EPILOGUE_TIMEOUT: u128 = 20_000_000_000;

/// How long a hook may still be in flight once the stream has ended.
pub const ENDED_STREAM_GRACE: u64 = 2_000_000_000;

/// What a recording is configured with.
#[derive(Debug)]
pub struct RecordConfig {
    pub script: String,
    pub out: String,
    pub cols: u16,
    pub rows: u16,
    /// The child binary. Required for a generic script.
    pub cli_bin: Option<String>,
    /// The version label of a generic fixture.
    pub cli_version: Option<String>,
    pub model: Option<String>,
    /// How the recorded CLI was installed.
    pub install: Option<String>,
    /// The CLI that the invoker believes the script records.
    pub expect_cli: Option<String>,
    pub first_token_ms: u64,
    pub keep_workdir: bool,
}

impl Default for RecordConfig {
    fn default() -> (c: Self)
        ensures
            c.script@ == Seq::<char>::empty(),
            c.out@ == Seq::<char>::empty(),
            c.cols == COLS,
            c.rows == ROWS,
            c.cli_bin is None,
            c.cli_version is None,
            c.model is None,
            c.install is None,
            c.expect_cli is None,
            c.first_token_ms == 2_000,
            !c.keep_workdir,
    {
        RecordConfig {
            script: String::new(),
            out: String::new(),
            cols: COLS,
            rows: ROWS,
            cli_bin: None,
            cli_version: None,
            model: None,
            install: None,
            expect_cli: None,
            first_token_ms: 2_000,
            keep_workdir: false,
        }
    }
}

/// The name that a step is logged under.
pub open spec fn step_name(kind: KindView) -> Seq<char> {
    match kind {
        KindView::TypeLine { .. } => "type_line"@,
        KindView::Press { .. } => "press"@,
        KindView::WaitQuiet { .. } => "wait_quiet"@,
        KindView::WaitText { .. } => "wait_text"@,
        KindView::WaitHook { .. } => "wait_hook"@,
        KindView::SetDecision { .. } => "set_decision"@,
        KindView::Pause { .. } => "pause"@,
    }
}

/// A number as a logged value.
pub open spec fn logged(n: u64) -> JsonView {
    JsonView::Number(decimal(n as nat), Some(n))
}

/// The fields of a step's record that its kind brings.
pub open spec fn log_fields_view(kind: KindView) -> Seq<(Seq<char>, JsonView)> {
    match kind {
        KindView::TypeLine { text } => seq![("text"@, JsonView::Text(text))],
        KindView::Press { key, .. } => seq![("key"@, JsonView::Text(key))],
        KindView::WaitQuiet { quiet_ms, timeout_ms } => seq![
            ("quiet_ms"@, logged(quiet_ms)),
            ("timeout_ms"@, logged(timeout_ms)),
        ],
        KindView::WaitText { marker, timeout_ms } => seq![
            ("marker"@, JsonView::Text(marker)),
            ("timeout_ms"@, logged(timeout_ms)),
        ],
        KindView::WaitHook { hook, timeout_ms } => seq![
            ("hook"@, JsonView::Text(hook)),
            ("timeout_ms"@, logged(timeout_ms)),
        ],
        KindView::SetDecision { decision } => seq![("decision"@, JsonView::Text(decision.word()))],
        KindView::Pause { ms } => seq![("ms"@, logged(ms))],
    }
}

impl StepKind {
    /// The name that a step is logged under.
    pub fn name(&self) -> (name: &'static str)
        ensures
            name@ == step_name(self@),
    {
        match self {
            StepKind::TypeLine { .. } => "type_line",
            StepKind::Press { .. } => "press",
            StepKind::WaitQuiet { .. } => "wait_quiet",
            StepKind::WaitText { .. } => "wait_text",
            StepKind::WaitHook { .. } => "wait_hook",
            StepKind::SetDecision { .. } => "set_decision",
            StepKind::Pause { .. } => "pause",
        }
    }

    /// The fields of a step's record that its kind brings.
    pub fn log_fields(&self) -> (fields: Vec<(String, Json)>)
        ensures
            fields_view(fields@) == log_fields_view(self@),
    {
        let mut fields: Vec<(String, Json)> = Vec::new();
        match self {
            StepKind::TypeLine { text } => {
                fields.push(("text".to_owned(), string(text.as_str())));
            },
            StepKind::Press { key, .. } => {
                fields.push(("key".to_owned(), string(key.as_str())));
            },
            StepKind::WaitQuiet { quiet_ms, timeout_ms } => {
                fields.push(("quiet_ms".to_owned(), number(*quiet_ms)));
                fields.push(("timeout_ms".to_owned(), number(*timeout_ms)));
            },
            StepKind::WaitText { marker, timeout_ms } => {
                fields.push(("marker".to_owned(), string(marker.as_str())));
                fields.push(("timeout_ms".to_owned(), number(*timeout_ms)));
            },
            StepKind::WaitHook { hook, timeout_ms } => {
                fields.push(("hook".to_owned(), string(hook.as_str())));
                fields.push(("timeout_ms".to_owned(), number(*timeout_ms)));
            },
            StepKind::SetDecision { decision } => {
                fields.push(("decision".to_owned(), string((*decision).as_str())));
            },
            StepKind::Pause { ms } => {
                fields.push(("ms".to_owned(), number(*ms)));
            },
        }
        assert(fields_view(fields@) =~= log_fields_view(self@));
        fields
    }
}

/// Fields with the first `n` of others put into place.
pub open spec fn all_placed(
    base: Seq<(Seq<char>, JsonView)>,
    more: Seq<(Seq<char>, JsonView)>,
    n: nat,
) -> Seq<(Seq<char>, JsonView)>
    decreases n,
{
    if n == 0 || n > more.len() {
        base
    } else {
        placed(all_placed(base, more, (n - 1) as nat), more[n - 1].0, more[n - 1].1)
    }
}

/// The fields of a step's record, in key order.
pub open spec fn record_fields(
    seq: u64,
    t_ns: u64,
    step: Seq<char>,
    fields: Seq<(Seq<char>, JsonView)>,
    label: Option<Seq<char>>,
    outcome: Seq<char>,
    took_ms: u64,
) -> Seq<(Seq<char>, JsonView)> {
    let empty = Seq::<(Seq<char>, JsonView)>::empty();
    let head = placed(
        placed(placed(empty, "seq"@, logged(seq)), "t_ns"@, logged(t_ns)),
        "step"@,
        JsonView::Text(step),
    );
    let body = all_placed(head, fields, fields.len());
    let labelled = match label {
        Some(label) => placed(body, "label"@, JsonView::Text(label)),
        None => body,
    };
    placed(placed(labelled, "outcome"@, JsonView::Text(outcome)), "took_ms"@, logged(took_ms))
}

/// Putting a field into place adds at most one.
proof fn lemma_placed_len(fields: Seq<(Seq<char>, JsonView)>, key: Seq<char>, value: JsonView)
    ensures
        placed(fields, key, value).len() <= fields.len() + 1,
    decreases fields.len(),
{
    if fields.len() > 0 {
        lemma_placed_len(fields.drop_first(), key, value);
    }
}

fn put(fields: &mut Vec<(String, Json)>, key: &str, value: Json)
    requires
        old(fields)@.len() < usize::MAX,
    ensures
        fields_view(final(fields)@) == placed(fields_view(old(fields)@), key@, value@),
        final(fields)@.len() <= old(fields)@.len() + 1,
{
    proof {
        lemma_placed_len(fields_view(fields@), key@, value@);
    }
    place(fields, key, value);
    assert(fields_view(fields@).len() == fields@.len());
}

/// The log of a session's steps: one line for each, in order.
#[derive(Debug)]
pub struct StepLog {
    seq: u64,
    t0: u64,
}

impl StepLog {
    /// How many records were made.
    pub closed spec fn count(&self) -> u64 {
        self.seq
    }

    /// When the session was spawned.
    pub closed spec fn spawned(&self) -> u64 {
        self.t0
    }

    /// A log of a session spawned at `t0`.
    pub fn create(t0: u64) -> (log: Self)
        ensures
            log.count() == 0,
            log.spawned() == t0,
    {
        StepLog { seq: 0, t0 }
    }

    /// The line that records a step.
    pub fn record(
        &mut self,
        started: u64,
        took_ns: u64,
        step: &str,
        fields: &Vec<(String, Json)>,
        label: Option<&str>,
        outcome: &str,
    ) -> (line: String)
        requires
            old(self).count() < u64::MAX,
            fields@.len() < usize::MAX - 8,
        ensures
            final(self).count() == old(self).count() + 1,
            final(self).spawned() == old(self).spawned(),
            line@ == compact(
                JsonView::Object(
                    record_fields(
                        final(self).count(),
                        elapsed(old(self).spawned(), started) as u64,
                        step@,
                        fields_view(fields@),
                        match label {
                            Some(label) => Some(label@),
                            None => None,
                        },
                        outcome@,
                        took_ns / 1_000_000,
                    ),
                ),
            ) + "\n"@,
    {
        self.seq = self.seq + 1;
        let t_ns: u64 = started.saturating_sub(self.t0);
        let mut line: Vec<(String, Json)> = Vec::new();
        assert(fields_view(line@) =~= Seq::<(Seq<char>, JsonView)>::empty());
        put(&mut line, "seq", number(self.seq));
        put(&mut line, "t_ns", number(t_ns));
        put(&mut line, "step", string(step));
        let ghost head = fields_view(line@);
        let ghost more = fields_view(fields@);
        let mut i: usize = 0;
        while i < fields.len()
            invariant
                more == fields_view(fields@),
                fields@.len() < usize::MAX - 8,
                i <= fields@.len(),
                line@.len() <= 3 + i,
                fields_view(line@) == all_placed(head, more, i as nat),
            decreases fields@.len() - i,
        {
            let (key, value) = &fields[i];
            put(&mut line, key.as_str(), value.duplicate());
            i += 1;
        }
        match label {
            Some(label) => {
                put(&mut line, "label", string(label));
            },
            None => {},
        }
        put(&mut line, "outcome", string(outcome));
        put(&mut line, "took_ms", number(took_ns / 1_000_000));
        let mut text = Json::Object(line).to_text();
        text.append("\n");
        text
    }
}

/// A step's record stands on one line, whatever its texts hold.
pub proof fn law_a_step_record_is_one_line(
    seq: u64,
    t_ns: u64,
    step: Seq<char>,
    fields: Seq<(Seq<char>, JsonView)>,
    label: Option<Seq<char>>,
    outcome: Seq<char>,
    took_ms: u64,
)
    requires
        flat_fields(fields),
    ensures
        flat(
            compact(
                JsonView::Object(record_fields(seq, t_ns, step, fields, label, outcome, took_ms)),
            ),
        ),
{
    let empty = Seq::<(Seq<char>, JsonView)>::empty();
    lemma_logged_is_flat(seq);
    lemma_logged_is_flat(t_ns);
    lemma_logged_is_flat(took_ms);
    lemma_placed_is_flat(empty, "seq"@, logged(seq));
    let one = placed(empty, "seq"@, logged(seq));
    lemma_placed_is_flat(one, "t_ns"@, logged(t_ns));
    let two = placed(one, "t_ns"@, logged(t_ns));
    lemma_placed_is_flat(two, "step"@, JsonView::Text(step));
    let head = placed(two, "step"@, JsonView::Text(step));
    lemma_all_placed_is_flat(head, fields, fields.len());
    let body = all_placed(head, fields, fields.len());
    let labelled = match label {
        Some(label) => {
            lemma_placed_is_flat(body, "label"@, JsonView::Text(label));
            placed(body, "label"@, JsonView::Text(label))
        },
        None => body,
    };
    lemma_placed_is_flat(labelled, "outcome"@, JsonView::Text(outcome));
    lemma_placed_is_flat(
        placed(labelled, "outcome"@, JsonView::Text(outcome)),
        "took_ms"@,
        logged(took_ms),
    );
    law_a_value_is_one_line(
        JsonView::Object(record_fields(seq, t_ns, step, fields, label, outcome, took_ms)),
    );
}

/// What a step's kind brings into its record stands on one line.
pub proof fn law_a_kind_is_logged_on_one_line(kind: KindView)
    ensures
        flat_fields(log_fields_view(kind)),
{
    match kind {
        KindView::WaitQuiet { quiet_ms, timeout_ms } => {
            lemma_logged_is_flat(quiet_ms);
            lemma_logged_is_flat(timeout_ms);
        },
        KindView::WaitText { timeout_ms, .. } => {
            lemma_logged_is_flat(timeout_ms);
        },
        KindView::WaitHook { timeout_ms, .. } => {
            lemma_logged_is_flat(timeout_ms);
        },
        KindView::Pause { ms } => {
            lemma_logged_is_flat(ms);
        },
        _ => {},
    }
}

proof fn lemma_logged_is_flat(n: u64)
    ensures
        flat_numbers(logged(n)),
{
    lemma_decimal_digits(n as nat);
}

proof fn lemma_all_placed_is_flat(
    base: Seq<(Seq<char>, JsonView)>,
    more: Seq<(Seq<char>, JsonView)>,
    n: nat,
)
    requires
        flat_fields(base),
        flat_fields(more),
    ensures
        flat_fields(all_placed(base, more, n)),
    decreases n,
{
    if 0 < n <= more.len() {
        lemma_all_placed_is_flat(base, more, (n - 1) as nat);
        lemma_placed_is_flat(
            all_placed(base, more, (n - 1) as nat),
            more[n - 1].0,
            more[n - 1].1,
        );
    }
}

/// What a step came to, as its record says.
pub open spec fn outcome_view(error: Option<Seq<char>>) -> Seq<char> {
    match error {
        None => "ok"@,
        Some(detail) => "failed: "@ + detail,
    }
}

/// What a step came to, as its record says.
pub fn outcome_text(error: &Option<String>) -> (text: String)
    ensures
        text@ == outcome_view(optional_text(*error)),
{
    match error {
        None => "ok".to_owned(),
        Some(detail) => {
            let mut text = "failed: ".to_owned();
            text.append(detail.as_str());
            text
        },
    }
}

/// Why a step could not be performed, beyond a wait that failed.
#[derive(Clone, Copy, PartialEq, Eq, Debug, Structural)]
pub enum StepFault {
    /// The line could not be typed.
    Type,
    /// The keystroke could not be sent.
    Press,
    /// The profile has no hook channel to wait on.
    NoHookChannel,
    /// The profile has no listener to arm.
    NoListener,
}

/// What is said of a step that could not be performed.
pub fn step_fault(fault: StepFault, error: &str) -> (text: String)
    ensures
        text@ == match fault {
            StepFault::Type => "typing the line failed: "@ + error@,
            StepFault::Press => "sending the keystroke failed: "@ + error@,
            StepFault::NoHookChannel => "wait_hook has no hook channel on this profile"@,
            StepFault::NoListener => "set_decision has no hook listener on this profile"@,
        },
{
    match fault {
        StepFault::Type => {
            let mut text = "typing the line failed: ".to_owned();
            text.append(error);
            text
        },
        StepFault::Press => {
            let mut text = "sending the keystroke failed: ".to_owned();
            text.append(error);
            text
        },
        StepFault::NoHookChannel => "wait_hook has no hook channel on this profile".to_owned(),
        StepFault::NoListener => "set_decision has no hook listener on this profile".to_owned(),
    }
}

/// What a performed step comes to, by its number from one: the detail of its
/// step line, or the failure that ends the session.
pub fn step_result(index: usize, step: &DriverStep, took_ns: u64, error: &Option<String>) -> (r:
    Result<String, Failure>)
    requires
        index < usize::MAX,
    ensures
        match *error {
            None => r matches Ok(text) && text@ == "#"@ + decimal((index + 1) as nat) + " "@
                + step_name(step@.kind) + " ("@ + decimal((took_ns / 1_000_000) as nat) + "ms)"@
                + match step@.label {
                Some(label) => " label="@ + label,
                None => Seq::empty(),
            },
            Some(detail) => r matches Err(failure) && failure.says(
                "step"@,
                83,
                "step "@ + decimal((index + 1) as nat) + " ("@ + step_name(step@.kind) + "): "@
                    + detail@,
            ),
        },
{
    match error {
        None => {
            let mut text = "#".to_owned();
            push_usize(&mut text, index + 1);
            text.append(" ");
            text.append(step.kind.name());
            text.append(" (");
            push_u64(&mut text, took_ns / 1_000_000);
            text.append("ms)");
            let ghost head = text@;
            match &step.label {
                Some(label) => {
                    text.append(" label=");
                    text.append(label.as_str());
                    assert(text@ =~= head + (" label="@ + label@));
                },
                None => {
                    assert(text@ =~= head + Seq::<char>::empty());
                },
            }
            Ok(text)
        },
        Some(detail) => {
            let mut text = "step ".to_owned();
            push_usize(&mut text, index + 1);
            text.append(" (");
            text.append(step.kind.name());
            text.append("): ");
            text.append(detail.as_str());
            Err(Failure::new("step", 83, text.as_str()))
        },
    }
}

/// One look in a scripted wait for a hook, which consumes hooks in order of
/// arrival: the cursor moves just past the hook that was matched.
///
/// A hook can still be in flight when the output stream ends, but a child that
/// is gone will never send another: an ended stream shrinks the wait to a short
/// grace. `since_ended_ns` is the time since the end was first seen.
pub fn wait_hook(
    log: &HookLog,
    tracker: &OutputTracker,
    cursor: &mut usize,
    name: &str,
    waited_ns: u64,
    timeout_ns: u128,
    since_ended_ns: Option<u64>,
) -> (w: HookWait)
    requires
        *old(cursor) <= log@.len(),
    ensures
        *final(cursor) <= log@.len(),
        ({
            let from = *old(cursor) as int;
            let over = waited_ns >= timeout_ns || (since_ended_ns matches Some(ns) && ns
                >= ENDED_STREAM_GRACE);
            match w {
                HookWait::Seen(at) => first_awaited(log@, from, name@, HookFilter::Any, at as int)
                    && *final(cursor) == at + 1,
                HookWait::Wait => none_awaited(log@, from, name@, HookFilter::Any) && !over
                    && *final(cursor) == *old(cursor),
                HookWait::Fail(text) => {
                    &&& none_awaited(log@, from, name@, HookFilter::Any)
                    &&& over
                    &&& *final(cursor) == *old(cursor)
                    &&& text@ == "hook "@ + name@ + " not observed within "@ + decimal(
                        (timeout_ns / 1_000_000_000) as nat,
                    ) + "s (unconsumed hooks: ["@ + joined(event_names(log@.skip(from)), ", "@)
                        + "])"@ + grace_note(tracker.ended()) + "; screen tail: '"@ + last_chars(
                        stripped(tracker.window()),
                        200,
                    ) + "'"@
                },
            }
        }),
{
    let observed: usize = log.mark();
    match log.find(name, HookFilter::Any, *cursor) {
        Some(at) => {
            assert(at < observed);
            *cursor = at + 1;
            return HookWait::Seen(at);
        },
        None => {},
    }
    let over = waited_ns as u128 >= timeout_ns || match since_ended_ns {
        Some(ns) => ns >= ENDED_STREAM_GRACE,
        None => false,
    };
    if !over {
        return HookWait::Wait;
    }
    let mut text = "hook ".to_owned();
    text.append(name);
    text.append(" not observed within ");
    push_u128(&mut text, timeout_ns / 1_000_000_000);
    text.append("s (unconsumed hooks: [");
    text.append(join(&log.names_since(*cursor), ", ").as_str());
    text.append("])");
    let ghost head = text@;
    match tracker.stream_ended() {
        Some(reason) => {
            text.append(" \u{2014} the output stream had already ended (");
            text.append(reason);
            text.append("); the process is gone, and only the ");
            push_u64(&mut text, ENDED_STREAM_GRACE / 1_000_000_000);
            text.append("s in-flight grace was waited");
            assert(text@ =~= head + grace_note(tracker.ended()));
        },
        None => {
            assert(text@ =~= head + grace_note(tracker.ended()));
        },
    }
    text.append("; screen tail: '");
    text.append(tracker.screen_tail(200).as_str());
    text.append("'");
    HookWait::Fail(text)
}

/// What a wait for a hook says of a stream that had ended.
pub open spec fn grace_note(ended: Option<Seq<char>>) -> Seq<char> {
    match ended {
        Some(reason) => " \u{2014} the output stream had already ended ("@ + reason
            + "); the process is gone, and only the "@ + decimal(2)
            + "s in-flight grace was waited"@,
        None => Seq::empty(),
    }
}

/// How long the next slice of a pause lasts; none once it is over.
pub fn pause_slice(elapsed_ns: u64, pause_ns: u128) -> (slice: Option<u64>)
    ensures
        match slice {
            Some(ns) => elapsed_ns < pause_ns && ns == if pause_ns - elapsed_ns < 100_000_000 {
                pause_ns - elapsed_ns
            } else {
                100_000_000
            },
            None => elapsed_ns >= pause_ns,
        },
{
    if elapsed_ns as u128 >= pause_ns {
        None
    } else if pause_ns - (elapsed_ns as u128) < 100_000_000 {
        Some((pause_ns - elapsed_ns as u128) as u64)
    } else {
        Some(100_000_000)
    }
}

/// The bytes of a list of recorded reads, in order.
pub open spec fn all_bytes(chunks: Seq<ChunkView>) -> Seq<u8>
    decreases chunks.len(),
{
    if chunks.len() == 0 {
        Seq::empty()
    } else {
        all_bytes(chunks.drop_last()) + chunks.last().bytes
    }
}

/// The record of a read boundary.
pub open spec fn boundary_line(offset: nat, t_ns: u64) -> Seq<char> {
    "{\"monotonic_ns\":"@ + decimal(t_ns as nat) + ",\"offset\":"@ + decimal(offset) + "}\n"@
}

/// The records of the read boundaries, in order: where each read began, and
/// when it came.
pub open spec fn boundaries(chunks: Seq<ChunkView>) -> Seq<char>
    decreases chunks.len(),
{
    if chunks.len() == 0 {
        Seq::empty()
    } else {
        boundaries(chunks.drop_last()) + boundary_line(
            all_bytes(chunks.drop_last()).len(),
            chunks.last().t_ns,
        )
    }
}

/// The two files that a capture is converted into.
#[derive(Debug)]
pub struct InputArtifacts {
    pub bytes: Vec<u8>,
    pub timing: String,
}

/// Convert a capture: the raw stream, and one record for each read boundary.
pub fn input_artifacts(chunks: &Vec<CaptureChunk>) -> (files: InputArtifacts)
    ensures
        files.bytes@ == all_bytes(views(chunks@)),
        files.timing@ == boundaries(views(chunks@)),
{
    let ghost all = views(chunks@);
    let mut bytes: Vec<u8> = Vec::new();
    let mut timing = String::new();
    let mut i: usize = 0;
    assert(all.take(0) =~= Seq::empty());
    while i < chunks.len()
        invariant
            all == views(chunks@),
            i <= chunks@.len(),
            bytes@ == all_bytes(all.take(i as int)),
            timing@ == boundaries(all.take(i as int)),
        decreases chunks@.len() - i,
    {
        assert(all.take(i + 1).drop_last() =~= all.take(i as int));
        let ghost before = timing@;
        let chunk = &chunks[i];
        assert(all[i as int] == chunk@);
        timing.append("{\"monotonic_ns\":");
        push_u64(&mut timing, chunk.t_ns);
        timing.append(",\"offset\":");
        push_usize(&mut timing, bytes.len());
        timing.append("}\n");
        bytes.extend_from_slice(chunk.bytes.as_slice());
        i += 1;
        assert(timing@ =~= before + boundary_line(
            all_bytes(all.take(i - 1)).len(),
            all[i - 1].t_ns,
        ));
    }
    assert(all.take(i as int) =~= all);
    InputArtifacts { bytes, timing }
}

/// The converted pair reproduces the capture: between one boundary and the next
/// stand exactly the bytes of that read.
pub proof fn law_boundaries_cut_the_stream_into_its_reads(chunks: Seq<ChunkView>, i: int)
    requires
        0 <= i < chunks.len(),
    ensures
        all_bytes(chunks.take(i)).len() + chunks[i].bytes.len() == all_bytes(
            chunks.take(i + 1),
        ).len(),
        all_bytes(chunks.take(i + 1)).len() <= all_bytes(chunks).len(),
        all_bytes(chunks).subrange(
            all_bytes(chunks.take(i)).len() as int,
            all_bytes(chunks.take(i + 1)).len() as int,
        ) == chunks[i].bytes,
    decreases chunks.len(),
{
    assert(chunks.take(i + 1).drop_last() =~= chunks.take(i));
    let start = all_bytes(chunks.take(i)).len() as int;
    let end = all_bytes(chunks.take(i + 1)).len() as int;
    if i + 1 == chunks.len() {
        assert(chunks.take(i + 1) =~= chunks);
        assert(all_bytes(chunks).subrange(start, end) =~= chunks[i].bytes);
    } else {
        let less = chunks.drop_last();
        law_boundaries_cut_the_stream_into_its_reads(less, i);
        assert(less.take(i) =~= chunks.take(i));
        assert(less.take(i + 1) =~= chunks.take(i + 1));
        assert(all_bytes(chunks).subrange(start, end) =~= all_bytes(less).subrange(start, end));
    }
}

/// The payloads of hook events, one line each.
pub open spec fn payload_lines(events: Seq<HookEventView>) -> Seq<char>
    decreases events.len(),
{
    if events.len() == 0 {
        Seq::empty()
    } else {
        payload_lines(events.drop_last()) + (compact(events.last().payload) + "\n"@)
    }
}

/// The times of hook events, one record for each payload line.
pub open spec fn payload_times(events: Seq<HookEventView>, t0: u64) -> Seq<char>
    decreases events.len(),
{
    if events.len() == 0 {
        Seq::empty()
    } else {
        payload_times(events.drop_last(), t0) + ("{\"line\":"@ + decimal(events.len())
            + ",\"monotonic_ns\":"@ + decimal(elapsed(t0, events.last().at) as nat) + "}\n"@)
    }
}

/// The two files that hold a session's hooks.
#[derive(Debug)]
pub struct HookArtifacts {
    pub payloads: String,
    pub timing: String,
}

/// Persist the hooks: payloads one to a line, and a record for each that ties
/// its line to the shared clock.
pub fn hook_artifacts(log: &HookLog, t0: u64) -> (files: HookArtifacts)
    ensures
        files.payloads@ == payload_lines(log@),
        files.timing@ == payload_times(log@, t0),
{
    let n: usize = log.mark();
    let mut payloads = String::new();
    let mut timing = String::new();
    let mut i: usize = 0;
    assert(log@.take(0) =~= Seq::empty());
    while i < n
        invariant
            n == log@.len(),
            i <= n,
            payloads@ == payload_lines(log@.take(i as int)),
            timing@ == payload_times(log@.take(i as int), t0),
        decreases n - i,
    {
        assert(log@.take(i + 1).drop_last() =~= log@.take(i as int));
        let ghost said = payloads@;
        let ghost timed = timing@;
        let event = log.event(i);
        payloads.append(event.payload.to_text().as_str());
        payloads.append("\n");
        timing.append("{\"line\":");
        push_usize(&mut timing, i + 1);
        timing.append(",\"monotonic_ns\":");
        push_u64(&mut timing, event.at.saturating_sub(t0));
        timing.append("}\n");
        i += 1;
        assert(payloads@ =~= said + (compact(log@[i - 1].payload) + "\n"@));
        assert(timing@ =~= timed + ("{\"line\":"@ + decimal(i as nat) + ",\"monotonic_ns\":"@
            + decimal(elapsed(t0, log@[i - 1].at) as nat) + "}\n"@));
    }
    assert(log@.take(i as int) =~= log@);
    HookArtifacts { payloads, timing }
}

/// How many lines end in a text.
pub open spec fn line_ends(s: Seq<char>) -> nat
    decreases s.len(),
{
    if s.len() == 0 {
        0
    } else {
        line_ends(s.drop_last()) + if s.last() == '\n' {
            1nat
        } else {
            0nat
        }
    }
}

/// The line of number `i` in each of the two files belongs to hook `i`: before
/// it stand as many lines as hooks came before, the first file has the payload
/// in it, and both hold what they held as more hooks follow.
pub proof fn law_each_hook_has_its_line(events: Seq<HookEventView>, t0: u64, i: int)
    requires
        0 <= i < events.len(),
        forall|j: int| 0 <= j < events.len() ==> flat_numbers((#[trigger] events[j]).payload),
    ensures
        line_ends(payload_lines(events.take(i))) == i,
        line_ends(payload_times(events.take(i), t0)) == i,
        flat(compact(events[i].payload)),
        payload_lines(events.take(i + 1)) == payload_lines(events.take(i)) + compact(
            events[i].payload,
        ) + "\n"@,
        payload_lines(events).take(payload_lines(events.take(i + 1)).len() as int)
            == payload_lines(events.take(i + 1)),
        payload_times(events, t0).take(payload_times(events.take(i + 1), t0).len() as int)
            == payload_times(events.take(i + 1), t0),
{
    law_a_value_is_one_line(events[i].payload);
    lemma_hook_lines(events.take(i), t0);
    assert(events.take(i + 1).drop_last() =~= events.take(i));
    lemma_hook_files_grow(events, t0, i + 1);
}

proof fn lemma_hook_lines(events: Seq<HookEventView>, t0: u64)
    requires
        forall|j: int| 0 <= j < events.len() ==> flat_numbers((#[trigger] events[j]).payload),
    ensures
        line_ends(payload_lines(events)) == events.len(),
        line_ends(payload_times(events, t0)) == events.len(),
    decreases events.len(),
{
    if events.len() > 0 {
        let last = events.last();
        let before = events.drop_last();
        assert forall|j: int| 0 <= j < before.len() implies flat_numbers(
            (#[trigger] before[j]).payload,
        ) by {
            assert(before[j] == events[j]);
        }
        lemma_hook_lines(before, t0);
        law_a_value_is_one_line(last.payload);
        lemma_one_line(payload_lines(before), compact(last.payload));
        let number = decimal(events.len());
        let time = decimal(elapsed(t0, last.at) as nat);
        lemma_decimal_digits(events.len());
        lemma_decimal_digits(elapsed(t0, last.at) as nat);
        reveal_strlit("{\"line\":");
        reveal_strlit(",\"monotonic_ns\":");
        reveal_strlit("}\n");
        reveal_strlit("\n");
        let content = "{\"line\":"@ + number + ",\"monotonic_ns\":"@ + time + seq!['}'];
        assert("{\"line\":"@ + number + ",\"monotonic_ns\":"@ + time + "}\n"@ =~= content + "\n"@);
        assert(flat(content));
        lemma_one_line(payload_times(before, t0), content);
    }
}

/// A line on top of others makes one line more.
proof fn lemma_one_line(before: Seq<char>, content: Seq<char>)
    requires
        flat(content),
    ensures
        line_ends(before + (content + "\n"@)) == line_ends(before) + 1,
{
    reveal_strlit("\n");
    assert((before + (content + "\n"@)).drop_last() =~= before + content);
    lemma_flat_ends_no_line(before, content);
}

proof fn lemma_flat_ends_no_line(before: Seq<char>, content: Seq<char>)
    requires
        flat(content),
    ensures
        line_ends(before + content) == line_ends(before),
    decreases content.len(),
{
    if content.len() == 0 {
        assert(before + content =~= before);
    } else {
        assert((before + content).drop_last() =~= before + content.drop_last());
        assert(' ' <= content[content.len() - 1]);
        lemma_flat_ends_no_line(before, content.drop_last());
    }
}

/// Both hook files keep what they hold as more hooks follow.
proof fn lemma_hook_files_grow(events: Seq<HookEventView>, t0: u64, n: int)
    requires
        0 <= n <= events.len(),
    ensures
        payload_lines(events.take(n)).len() <= payload_lines(events).len(),
        payload_lines(events).take(payload_lines(events.take(n)).len() as int) == payload_lines(
            events.take(n),
        ),
        payload_times(events.take(n), t0).len() <= payload_times(events, t0).len(),
        payload_times(events, t0).take(payload_times(events.take(n), t0).len() as int)
            == payload_times(events.take(n), t0),
    decreases events.len(),
{
    if n == events.len() {
        assert(events.take(n) =~= events);
        assert(payload_lines(events).take(payload_lines(events).len() as int) =~= payload_lines(
            events,
        ));
        assert(payload_times(events, t0).take(payload_times(events, t0).len() as int)
            =~= payload_times(events, t0));
    } else {
        let before = events.drop_last();
        lemma_hook_files_grow(before, t0, n);
        assert(before.take(n) =~= events.take(n));
        assert(payload_lines(events).take(payload_lines(events.take(n)).len() as int)
            =~= payload_lines(before).take(payload_lines(events.take(n)).len() as int));
        assert(payload_times(events, t0).take(payload_times(events.take(n), t0).len() as int)
            =~= payload_times(before, t0).take(payload_times(events.take(n), t0).len() as int));
    }
}

/// How a character stands inside a quoted manifest value.
pub open spec fn yaml_escape(c: char) -> Seq<char> {
    if c == '\\' {
        seq!['\\', '\\']
    } else if c == '"' {
        seq!['\\', '"']
    } else if c == '\n' {
        seq!['\\', 'n']
    } else if c == '\r' {
        seq!['\\', 'r']
    } else if c == '\t' {
        seq!['\\', 't']
    } else if is_control(c) {
        seq!['\\', 'u'] + hex(c as nat, 4, true)
    } else {
        seq![c]
    }
}

/// How a text stands inside a quoted manifest value.
pub open spec fn yaml_body(s: Seq<char>) -> Seq<char>
    decreases s.len(),
{
    if s.len() == 0 {
        Seq::empty()
    } else {
        yaml_body(s.drop_last()) + yaml_escape(s.last())
    }
}

/// A quoted manifest value.
pub open spec fn yaml_quoted(s: Seq<char>) -> Seq<char> {
    seq!['"'] + yaml_body(s) + seq!['"']
}

/// Quote a text for the manifest. A stray line break or escape in it can neither
/// break the manifest's structure nor reach it as a raw control character.
pub fn yaml_quote(value: &str) -> (quoted: String)
    ensures
        quoted@ == yaml_quoted(value@),
{
    let chars = chars_of(value);
    let mut out = String::new();
    out.push('"');
    let mut i: usize = 0;
    assert(chars@.take(0) =~= Seq::empty());
    assert(out@ =~= seq!['"'] + yaml_body(chars@.take(0)));
    while i < chars.len()
        invariant
            chars@ == value@,
            i <= chars@.len(),
            out@ == seq!['"'] + yaml_body(chars@.take(i as int)),
        decreases chars@.len() - i,
    {
        assert(chars@.take(i + 1).drop_last() =~= chars@.take(i as int));
        let ghost before = out@;
        let c: char = chars[i];
        if c == '\\' {
            out.push('\\');
            out.push('\\');
        } else if c == '"' {
            out.push('\\');
            out.push('"');
        } else if c == '\n' {
            out.push('\\');
            out.push('n');
        } else if c == '\r' {
            out.push('\\');
            out.push('r');
        } else if c == '\t' {
            out.push('\\');
            out.push('t');
        } else if controls(c) {
            out.push('\\');
            out.push('u');
            push_hex(&mut out, code_of(c) as u64, 4, true);
        } else {
            out.push(c);
        }
        i += 1;
        assert(out@ =~= before + yaml_escape(c));
        assert(out@ =~= seq!['"'] + yaml_body(chars@.take(i as int)));
    }
    assert(chars@.take(i as int) =~= chars@);
    out.push('"');
    assert(out@ =~= yaml_quoted(value@));
    out
}

/// No control character of a value reaches the manifest raw.
pub proof fn law_no_control_reaches_the_manifest(s: Seq<char>)
    ensures
        !has_control(yaml_quoted(s)),
{
    lemma_body_has_no_control(s);
    let quoted = yaml_quoted(s);
    let body = yaml_body(s);
    assert forall|i: int| 0 <= i < quoted.len() implies !is_control(#[trigger] quoted[i]) by {
        if 0 < i < quoted.len() - 1 {
            assert(quoted[i] == body[i - 1]);
            assert(!is_control(body[i - 1]));
        }
    }
}

proof fn lemma_body_has_no_control(s: Seq<char>)
    ensures
        forall|i: int| 0 <= i < yaml_body(s).len() ==> !is_control(#[trigger] yaml_body(s)[i]),
    decreases s.len(),
{
    if s.len() > 0 {
        let c = s.last();
        let before = yaml_body(s.drop_last());
        let more = yaml_escape(c);
        lemma_body_has_no_control(s.drop_last());
        lemma_hex_has_no_control(c as nat, 4);
        assert forall|i: int| 0 <= i < yaml_body(s).len() implies !is_control(
            #[trigger] yaml_body(s)[i],
        ) by {
            if i < before.len() {
                assert(yaml_body(s)[i] == before[i]);
            } else {
                let j = i - before.len();
                assert(yaml_body(s)[i] == more[j]);
                if j >= 2 && is_control(c) {
                    assert(more[j] == hex(c as nat, 4, true)[j - 2]);
                }
            }
        }
    }
}

proof fn lemma_hex_has_no_control(n: nat, width: nat)
    ensures
        hex(n, width, true).len() == width,
        forall|i: int| 0 <= i < width ==> !is_control(#[trigger] hex(n, width, true)[i]),
    decreases width,
{
    if width > 0 {
        lemma_hex_has_no_control(n / 16, (width - 1) as nat);
        let head = hex(n / 16, (width - 1) as nat, true);
        assert forall|i: int| 0 <= i < width implies !is_control(
            #[trigger] hex(n, width, true)[i],
        ) by {
            if i < width - 1 {
                assert(hex(n, width, true)[i] == head[i]);
            } else {
                assert(hex(n, width, true)[i] == hex_digit(n % 16, true));
            }
        }
    }
}

/// A manifest value reads back as the text it was made from, by the grammar of
/// JSON strings, which that of double-quoted YAML extends.
pub proof fn law_a_manifest_value_reads_back(s: Seq<char>)
    ensures
        yaml_quoted(s).len() >= 2,
        yaml_quoted(s)[0] == '"',
        yaml_quoted(s).last() == '"',
        json_read(yaml_quoted(s).subrange(1, yaml_quoted(s).len() - 1)) == Some(s),
{
    assert(yaml_quoted(s).subrange(1, yaml_quoted(s).len() - 1) =~= yaml_body(s));
    lemma_yaml_reads(s, Seq::empty(), Seq::empty());
    assert(yaml_body(s) + Seq::<char>::empty() =~= yaml_body(s));
    assert(s + Seq::<char>::empty() =~= s);
}

proof fn lemma_yaml_reads(s: Seq<char>, tail: Seq<char>, read: Seq<char>)
    requires
        json_read(tail) == Some(read),
    ensures
        json_read(yaml_body(s) + tail) == Some(s + read),
    decreases s.len(),
{
    if s.len() == 0 {
        assert(yaml_body(s) + tail =~= tail);
        assert(s + read =~= read);
    } else {
        let c = s.last();
        let more = yaml_escape(c) + tail;
        lemma_yaml_reads_one(c, tail, read);
        lemma_yaml_reads(s.drop_last(), more, seq![c] + read);
        assert(yaml_body(s) + tail =~= yaml_body(s.drop_last()) + more);
        assert(s.drop_last() + (seq![c] + read) =~= s + read);
    }
}

proof fn lemma_yaml_reads_one(c: char, tail: Seq<char>, read: Seq<char>)
    requires
        json_read(tail) == Some(read),
    ensures
        json_read(yaml_escape(c) + tail) == Some(seq![c] + read),
{
    let t = yaml_escape(c) + tail;
    if c == '"' || c == '\\' || c == '\n' || c == '\r' || c == '\t' {
        assert(t[0] == '\\');
        assert(t.skip(2) =~= tail);
    } else if is_control(c) {
        let n = c as nat;
        assert(n < 0xa0);
        reveal_with_fuel(hex, 5);
        let digits = hex(n, 4, true);
        assert(digits =~= seq![
            hex_digit(n / 16 / 16 / 16 % 16, true),
            hex_digit(n / 16 / 16 % 16, true),
            hex_digit(n / 16 % 16, true),
            hex_digit(n % 16, true),
        ]);
        assert(t[0] == '\\' && t[1] == 'u');
        assert(t[2] == digits[0] && t[3] == digits[1] && t[4] == digits[2] && t[5] == digits[3]);
        assert(hex_value(t[2]) == Some(0nat));
        assert(hex_value(t[3]) == Some(0nat));
        assert(hex_value(t[4]) == Some(n / 16));
        assert(hex_value(t[5]) == Some(n % 16));
        assert(json_unescape(t) == Some((c, 6int)));
        assert(t.skip(6) =~= tail);
    } else {
        assert(t[0] == c);
        assert(t.drop_first() =~= tail);
    }
}

/// The manifest's lines on the first `n` artifacts: the size of each that exists.
pub open spec fn size_lines(sizes: Seq<Option<u64>>, n: nat) -> Seq<char>
    decreases n,
{
    if n == 0 {
        Seq::empty()
    } else {
        match sizes[n - 1] {
            Some(len) => size_lines(sizes, (n - 1) as nat) + ("  "@ + ARTIFACT_FILES@[n - 1]@
                + ": "@ + decimal(len as nat) + "\n"@),
            None => size_lines(sizes, (n - 1) as nat),
        }
    }
}

/// The sizes of the first `n` artifacts that exist, as a step line shows them.
pub open spec fn size_notes(sizes: Seq<Option<u64>>, n: nat) -> Seq<Seq<char>>
    decreases n,
{
    if n == 0 {
        Seq::empty()
    } else {
        match sizes[n - 1] {
            Some(len) => size_notes(sizes, (n - 1) as nat).push(
                ARTIFACT_FILES@[n - 1]@ + "="@ + decimal(len as nat) + "B"@,
            ),
            None => size_notes(sizes, (n - 1) as nat),
        }
    }
}

/// The manifest's line on how the CLI was installed; none where nobody said.
pub open spec fn install_line(install: Option<Seq<char>>) -> Seq<char> {
    match install {
        Some(install) => "install: "@ + yaml_quoted(install) + "\n"@,
        None => Seq::empty(),
    }
}

/// The manifest of a fixture.
pub open spec fn manifest_text(
    script: ScriptView,
    cli_version: Seq<char>,
    install: Option<Seq<char>>,
    os: Seq<char>,
    cols: u16,
    rows: u16,
    captured_on: Seq<char>,
    sizes: Seq<Option<u64>>,
) -> Seq<char> {
    "# Captured-session fixture recorded by `interactive-probe record`.\n# Generated file \u{2014} re-recording overwrites it; do not hand-edit.\ncli: "@
        + script.cli + "\ncli_version: "@ + yaml_quoted(cli_version) + "\n"@ + install_line(install)
        + "scenario: "@ + script.name + "\ndescription: "@ + yaml_quoted(script.description)
        + "\nos: "@ + os + "\ncols: "@ + decimal(cols as nat) + "\nrows: "@ + decimal(rows as nat)
        + "\ncaptured_on: "@ + captured_on + "\ntier: ci\nartifacts:\n"@ + size_lines(sizes, 6)
}

/// A manifest and what its step line says.
#[derive(Debug)]
pub struct Manifest {
    pub yaml: String,
    pub summary: String,
}

/// The manifest of a fixture: what was recorded, and the size of each artifact
/// that exists. `sizes` holds the sizes in the order of `ARTIFACT_FILES`, less
/// the manifest itself.
pub fn manifest(
    script: &RecordScript,
    cli_version: &str,
    install: &Option<String>,
    os: &str,
    cols: u16,
    rows: u16,
    captured_on: &str,
    sizes: &Vec<Option<u64>>,
) -> (m: Manifest)
    requires
        sizes@.len() == 6,
    ensures
        m.yaml@ == manifest_text(
            script@,
            cli_version@,
            optional_text(*install),
            os@,
            cols,
            rows,
            captured_on@,
            sizes@,
        ),
        m.summary@ == joined(size_notes(sizes@, 6), " "@),
{
    let mut yaml =
        "# Captured-session fixture recorded by `interactive-probe record`.\n# Generated file \u{2014} re-recording overwrites it; do not hand-edit.\ncli: ".to_owned();
    yaml.append(script.cli.as_str());
    yaml.append("\ncli_version: ");
    yaml.append(yaml_quote(cli_version).as_str());
    yaml.append("\n");
    let ghost head = yaml@;
    match install {
        Some(install) => {
            yaml.append("install: ");
            yaml.append(yaml_quote(install.as_str()).as_str());
            yaml.append("\n");
            assert(yaml@ =~= head + ("install: "@ + yaml_quoted(install@) + "\n"@));
        },
        None => {
            assert(yaml@ =~= head + Seq::<char>::empty());
        },
    }
    yaml.append("scenario: ");
    yaml.append(script.name.as_str());
    yaml.append("\ndescription: ");
    yaml.append(yaml_quote(script.description.as_str()).as_str());
    yaml.append("\nos: ");
    yaml.append(os);
    yaml.append("\ncols: ");
    push_u64(&mut yaml, cols as u64);
    yaml.append("\nrows: ");
    push_u64(&mut yaml, rows as u64);
    yaml.append("\ncaptured_on: ");
    yaml.append(captured_on);
    yaml.append("\ntier: ci\nartifacts:\n");
    let ghost top = yaml@;
    let mut notes: Vec<String> = Vec::new();
    let names = ARTIFACT_FILES;
    let mut i: usize = 0;
    assert(yaml@ =~= top + size_lines(sizes@, 0));
    assert(texts(notes@) =~= size_notes(sizes@, 0));
    while i < 6
        invariant
            sizes@.len() == 6,
            names@ == ARTIFACT_FILES@,
            i <= 6,
            yaml@ == top + size_lines(sizes@, i as nat),
            texts(notes@) == size_notes(sizes@, i as nat),
        decreases 6 - i,
    {
        broadcast use lemma_texts_push;

        let ghost before = yaml@;
        match sizes[i] {
            Some(len) => {
                let name = names[i];
                yaml.append("  ");
                yaml.append(name);
                yaml.append(": ");
                push_u64(&mut yaml, len);
                yaml.append("\n");
                let mut note = name.to_owned();
                note.append("=");
                push_u64(&mut note, len);
                note.append("B");
                notes.push(note);
                assert(yaml@ =~= before + ("  "@ + name@ + ": "@ + decimal(len as nat) + "\n"@));
                assert(yaml@ =~= top + (size_lines(sizes@, i as nat) + ("  "@ + name@ + ": "@
                    + decimal(len as nat) + "\n"@)));
            },
            None => {},
        }
        i += 1;
    }
    Manifest { yaml, summary: join(&notes, " ") }
}

/// Whether a value is fit to stand as provenance in the manifest: not blank, and
/// free of control characters.
pub open spec fn printable_label(value: Seq<char>) -> bool {
    !all_space(value) && !has_control(value)
}

/// Whether a value is fit to stand as provenance in the manifest.
pub fn is_printable_label(value: &str) -> (yes: bool)
    ensures
        yes == printable_label(value@),
{
    !is_blank(value) && !any_control(value)
}

/// What a capture labels its session with.
pub fn scenario_label(script: &RecordScript) -> (label: String)
    ensures
        label@ == script.name@ + ": "@ + script.description@,
{
    let mut label = script.name.clone();
    label.append(": ");
    label.append(script.description.as_str());
    label
}

/// The stem of a record script's file name; none where it is no record script.
pub open spec fn script_stem(file_name: Seq<char>) -> Option<Seq<char>> {
    let suffix = ".record.json"@;
    if occurs_at(file_name, suffix, file_name.len() - suffix.len()) {
        Some(file_name.take(file_name.len() - suffix.len()))
    } else {
        None
    }
}

/// The stem of a record script's file name.
pub fn stem_of(file_name: &str) -> (stem: Option<String>)
    ensures
        optional_text(stem) == script_stem(file_name@),
{
    let chars = chars_of(file_name);
    let suffix = chars_of(".record.json");
    if chars.len() < suffix.len() {
        return None;
    }
    let at: usize = chars.len() - suffix.len();
    if !crate::text::is_at(chars.as_slice(), suffix.as_slice(), at) {
        return None;
    }
    let head = vstd::slice::slice_subrange(chars.as_slice(), 0, at);
    assert(head@ =~= file_name@.take(at as int));
    Some(text_of(head))
}

/// The directory of a script as it was named; the current one where the name
/// holds none.
pub open spec fn named_dir(parent: Option<Seq<char>>) -> Seq<char> {
    match parent {
        Some(dir) => if dir.len() > 0 {
            dir
        } else {
            "."@
        },
        None => "."@,
    }
}

/// The directory of a script, before it is made absolute.
pub fn script_dir_of(parent: &Option<String>) -> (dir: String)
    ensures
        dir@ == named_dir(optional_text(*parent)),
{
    match parent {
        Some(dir) => {
            if chars_of(dir.as_str()).len() > 0 {
                dir.as_str().to_owned()
            } else {
                ".".to_owned()
            }
        },
        None => ".".to_owned(),
    }
}

/// The prefix of a Windows path, as far as it matters here.
#[derive(Debug)]
pub enum PathPrefix {
    /// `\\?\C:`
    VerbatimDisk { disk: char },
    /// `\\?\UNC\server\share`
    VerbatimUnc { server: String, share: String },
    /// Any other prefix, or none.
    Other,
}

/// What a verbatim prefix is rebuilt into; none where the path stays as it is.
pub open spec fn plain_root(prefix: PathPrefix) -> Option<Seq<char>> {
    match prefix {
        PathPrefix::VerbatimDisk { disk } => Some(seq![disk] + ":\\"@),
        PathPrefix::VerbatimUnc { server, share } => Some(
            "\\\\"@ + server@ + "\\"@ + share@ + "\\"@,
        ),
        PathPrefix::Other => None,
    }
}

/// Whether a path ends in a separator.
pub open spec fn ends_separated(path: Seq<char>) -> bool {
    path.len() > 0 && (path.last() == '\\' || path.last() == '/')
}

/// A root with names under it.
pub open spec fn under(root: Seq<char>, names: Seq<Seq<char>>) -> Seq<char>
    decreases names.len(),
{
    if names.len() == 0 {
        root
    } else {
        let dir = under(root, names.drop_last());
        (if ends_separated(dir) {
            dir
        } else {
            dir + "\\"@
        }) + names.last()
    }
}

/// Rebuild a verbatim path into the form that normalizes separators. `path` is
/// the whole of it; `prefix` and `names` are what it is made of, the names being
/// those below the root.
pub fn strip_verbatim(path: &str, prefix: &PathPrefix, names: &Vec<String>) -> (stripped: String)
    ensures
        stripped@ == match plain_root(*prefix) {
            Some(root) => under(root, texts(names@)),
            None => path@,
        },
{
    let mut text = match prefix {
        PathPrefix::VerbatimDisk { disk } => {
            let mut root = String::new();
            root.push(*disk);
            assert(root@ =~= seq![*disk]);
            root.append(":\\");
            root
        },
        PathPrefix::VerbatimUnc { server, share } => {
            let mut root = "\\\\".to_owned();
            root.append(server.as_str());
            root.append("\\");
            root.append(share.as_str());
            root.append("\\");
            root
        },
        PathPrefix::Other => {
            return path.to_owned();
        },
    };
    let ghost root = text@;
    let mut i: usize = 0;
    assert(texts(names@).take(0) =~= Seq::<Seq<char>>::empty());
    while i < names.len()
        invariant
            i <= names@.len(),
            text@ == under(root, texts(names@).take(i as int)),
        decreases names@.len() - i,
    {
        assert(texts(names@).take(i + 1).drop_last() =~= texts(names@).take(i as int));
        let chars = chars_of(text.as_str());
        let n: usize = chars.len();
        if n == 0 || (chars[n - 1] != '\\' && chars[n - 1] != '/') {
            text.append("\\");
        }
        text.append(names[i].as_str());
        i += 1;
    }
    assert(texts(names@).take(i as int) =~= texts(names@));
    text
}

/// A root stays at the front of what is built under it.
proof fn lemma_under_keeps_the_root(root: Seq<char>, names: Seq<Seq<char>>)
    ensures
        under(root, names).len() >= root.len(),
        under(root, names).take(root.len() as int) == root,
    decreases names.len(),
{
    if names.len() == 0 {
        assert(root.take(root.len() as int) =~= root);
    } else {
        lemma_under_keeps_the_root(root, names.drop_last());
        let dir = under(root, names.drop_last());
        assert(under(root, names).take(root.len() as int) =~= dir.take(root.len() as int));
    }
}

/// A verbatim prefix never survives: the rebuilt path does not start with
/// `\\?\`, unless its server is itself named so.
pub proof fn law_a_rebuilt_path_is_never_verbatim(prefix: PathPrefix, names: Seq<Seq<char>>)
    requires
        plain_root(prefix) is Some,
        prefix matches PathPrefix::VerbatimUnc { server, .. } ==> server@.len() == 0 || server@[0]
            != '?',
    ensures
        !occurs_at(under(plain_root(prefix)->0, names), "\\\\?\\"@, 0),
{
    reveal_strlit("\\\\?\\");
    reveal_strlit("\\\\");
    reveal_strlit("\\");
    reveal_strlit(":\\");
    let root = plain_root(prefix)->0;
    let path = under(root, names);
    lemma_under_keeps_the_root(root, names);
    let verbatim = "\\\\?\\"@;
    assert(root.len() >= 3);
    assert(path[1] == root[1] && path[2] == root[2]) by {
        assert(path.take(root.len() as int)[1] == path[1]);
        assert(path.take(root.len() as int)[2] == path[2]);
    }
    if occurs_at(path, verbatim, 0) {
        assert(path[1] == verbatim[1] && path[2] == verbatim[2]);
    }
}

/// Why a script is not recorded, by its name, its CLI and the configuration;
/// none where nothing stands against it. What is wrong is reported in this
/// order: the invoker expects another CLI; the file's stem and the script's
/// name disagree; an option is not meant for the script's profile.
pub open spec fn script_fault(
    script: ScriptView,
    file: Seq<char>,
    file_name: Option<Seq<char>>,
    expect_cli: Option<Seq<char>>,
    cli_version: Option<Seq<char>>,
    model: Option<Seq<char>>,
    live: Seq<char>,
) -> Option<(Seq<char>, int, Seq<char>)> {
    let stem = match file_name {
        Some(name) => script_stem(name),
        None => None,
    };
    if expect_cli is Some && script.cli != expect_cli->Some_0 {
        Some(
            (
                "script"@,
                80,
                file + ": the script records cli \""@ + script.cli
                    + "\", but the invoker expects \""@ + expect_cli->Some_0 + "\""@,
            ),
        )
    } else if stem is Some && stem->Some_0 != script.name {
        Some(
            (
                "script"@,
                80,
                file + ": the file stem \""@ + stem->Some_0 + "\" and the script name \""@
                    + script.name
                    + "\" disagree \u{2014} the campaign derives fixture directories from the stem and the manifest from the name, and they must not diverge"@,
            ),
        )
    } else if script.cli == live {
        if cli_version is Some {
            Some(
                (
                    "args"@,
                    2,
                    "--cli-version is not accepted for a "@ + live
                        + " script: the manifest reports what `"@ + live + " --version` answers"@,
                ),
            )
        } else {
            None
        }
    } else if !(cli_version is Some && printable_label(cli_version->Some_0)) {
        Some(
            (
                "args"@,
                2,
                "a generic script needs a non-empty, single-line --cli-version: the fixture manifest must name what it recorded"@,
            ),
        )
    } else if model is Some {
        Some(("args"@, 2, "--model is only meaningful for a "@ + live + " script"@))
    } else {
        None
    }
}

/// Check a script against its file's name and the configuration, before
/// anything is launched or written. `live` names the CLI that the full launch rig
/// hosts.
pub fn check_script(
    config: &RecordConfig,
    file_name: &Option<String>,
    script: &RecordScript,
    live: &str,
) -> (r: Result<(), Failure>)
    ensures
        match (
            r,
            script_fault(
                script@,
                config.script@,
                optional_text(*file_name),
                optional_text(config.expect_cli),
                optional_text(config.cli_version),
                optional_text(config.model),
                live@,
            ),
        ) {
            (Ok(()), None) => true,
            (Err(failure), Some((step, code, detail))) => failure.says(step, code, detail),
            _ => false,
        },
{
    match &config.expect_cli {
        Some(expected) => {
            if !same_text(script.cli.as_str(), expected.as_str()) {
                let mut text = config.script.clone();
                text.append(": the script records cli \"");
                text.append(script.cli.as_str());
                text.append("\", but the invoker expects \"");
                text.append(expected.as_str());
                text.append("\"");
                return Err(Failure::new("script", 80, text.as_str()));
            }
        },
        None => {},
    }
    let stem = match file_name {
        Some(name) => stem_of(name.as_str()),
        None => None,
    };
    match &stem {
        Some(stem) => {
            if !same_text(stem.as_str(), script.name.as_str()) {
                let mut text = config.script.clone();
                text.append(": the file stem \"");
                text.append(stem.as_str());
                text.append("\" and the script name \"");
                text.append(script.name.as_str());
                text.append(
                    "\" disagree \u{2014} the campaign derives fixture directories from the stem and the manifest from the name, and they must not diverge",
                );
                return Err(Failure::new("script", 80, text.as_str()));
            }
        },
        None => {},
    }
    if script.is_claude(live) {
        if config.cli_version.is_some() {
            let mut text = "--cli-version is not accepted for a ".to_owned();
            text.append(live);
            text.append(" script: the manifest reports what `");
            text.append(live);
            text.append(" --version` answers");
            return Err(Failure::new("args", 2, text.as_str()));
        }
        return Ok(());
    }
    let labelled = match &config.cli_version {
        Some(version) => is_printable_label(version.as_str()),
        None => false,
    };
    if !labelled {
        return Err(
            Failure::new(
                "args",
                2,
                "a generic script needs a non-empty, single-line --cli-version: the fixture manifest must name what it recorded",
            ),
        );
    }
    if config.model.is_some() {
        let mut text = "--model is only meaningful for a ".to_owned();
        text.append(live);
        text.append(" script");
        return Err(Failure::new("args", 2, text.as_str()));
    }
    Ok(())
}

/// What an accepted script reports.
pub fn script_detail(config: &RecordConfig, script: &RecordScript) -> (text: String)
    ensures
        text@ == script.name@ + " \u{2014} cli="@ + script.cli@ + " steps="@ + decimal(
            script.steps@.len(),
        ) + " at "@ + decimal(config.cols as nat) + "x"@ + decimal(config.rows as nat) + " into "@
            + config.out@,
{
    let mut text = script.name.clone();
    text.append(" \u{2014} cli=");
    text.append(script.cli.as_str());
    text.append(" steps=");
    push_usize(&mut text, script.steps.len());
    text.append(" at ");
    push_u64(&mut text, config.cols as u64);
    text.append("x");
    push_u64(&mut text, config.rows as u64);
    text.append(" into ");
    text.append(config.out.as_str());
    text
}

/// What the written artifacts report.
pub fn artifacts_detail(input_bytes: u64, chunks: u64, summary: &str) -> (text: String)
    ensures
        text@ == "input.bytes="@ + decimal(input_bytes as nat) + "B over "@ + decimal(chunks as nat)
            + " chunks; "@ + summary@,
{
    let mut text = "input.bytes=".to_owned();
    push_u64(&mut text, input_bytes);
    text.append("B over ");
    push_u64(&mut text, chunks);
    text.append(" chunks; ");
    text.append(summary);
    text
}

/// A step of a recording that performs something outside.
#[derive(Clone, Copy, PartialEq, Eq, Debug, Structural)]
pub enum RecordStep {
    /// Read the script's file.
    ReadScript,
    /// Read the script itself.
    ParseScript,
    /// Create the fixture directory.
    OutputDir,
    /// Remove a stale artifact.
    Stale,
    /// Create the step log.
    CreateLog,
    /// Write a record of a step.
    WriteLog,
    /// Type the exit command.
    TypeExit,
    /// Wait for the session to end, or for its child to leave.
    Exit,
    /// Write the record of the exit.
    ExitLog,
    /// Wait for a generic child to exit.
    ChildExit,
    /// Finalize the capture.
    Capture,
    /// Close the terminal.
    Teardown,
    /// Copy the transcript.
    Transcript,
    /// Write the artifacts.
    Artifacts,
}

/// The name and exit code of a failed step.
pub open spec fn record_code(step: RecordStep) -> (Seq<char>, int) {
    match step {
        RecordStep::ReadScript => ("script"@, 80),
        RecordStep::ParseScript => ("script"@, 80),
        RecordStep::OutputDir => ("output_dir"@, 81),
        RecordStep::Stale => ("output_dir"@, 81),
        RecordStep::CreateLog => ("output_dir"@, 81),
        RecordStep::WriteLog => ("step"@, 83),
        RecordStep::TypeExit => ("exit"@, 84),
        RecordStep::Exit => ("exit"@, 84),
        RecordStep::ExitLog => ("exit"@, 84),
        RecordStep::ChildExit => ("child_exit"@, 84),
        RecordStep::Capture => ("capture"@, 84),
        RecordStep::Teardown => ("teardown"@, 84),
        RecordStep::Transcript => ("artifacts"@, 85),
        RecordStep::Artifacts => ("artifacts"@, 85),
    }
}

/// What a failed step says of the error that it met, and of the file.
pub open spec fn record_error(step: RecordStep, file: Seq<char>, error: Seq<char>) -> Seq<char> {
    match step {
        RecordStep::ReadScript => "reading "@ + file + " failed: "@ + error,
        RecordStep::ParseScript => file + ": "@ + error,
        RecordStep::OutputDir => "creating "@ + file + " failed: "@ + error,
        RecordStep::Stale => "removing stale "@ + file + " failed: "@ + error,
        RecordStep::CreateLog => "steps.ndjson: "@ + error,
        RecordStep::WriteLog => "writing the step log failed: "@ + error,
        RecordStep::TypeExit => "typing /exit failed: "@ + error,
        RecordStep::ExitLog => "writing the step log failed: "@ + error,
        RecordStep::Capture => "finalizing the capture failed: "@ + error,
        RecordStep::Transcript => "copying the transcript from "@ + file + " failed: "@ + error
            + " \u{2014} without it the fixture is missing a primary channel"@,
        _ => error,
    }
}

/// The failure of a step that performs something outside.
pub fn record_failure(step: RecordStep, file: &str, error: &str) -> (failure: Failure)
    ensures
        failure.says(
            record_code(step).0,
            record_code(step).1,
            record_error(step, file@, error@),
        ),
{
    let (name, code): (&'static str, i32) = match step {
        RecordStep::ReadScript => ("script", 80),
        RecordStep::ParseScript => ("script", 80),
        RecordStep::OutputDir => ("output_dir", 81),
        RecordStep::Stale => ("output_dir", 81),
        RecordStep::CreateLog => ("output_dir", 81),
        RecordStep::WriteLog => ("step", 83),
        RecordStep::TypeExit => ("exit", 84),
        RecordStep::Exit => ("exit", 84),
        RecordStep::ExitLog => ("exit", 84),
        RecordStep::ChildExit => ("child_exit", 84),
        RecordStep::Capture => ("capture", 84),
        RecordStep::Teardown => ("teardown", 84),
        RecordStep::Transcript => ("artifacts", 85),
        RecordStep::Artifacts => ("artifacts", 85),
    };
    let mut text = String::new();
    match step {
        RecordStep::ReadScript => {
            text.append("reading ");
            text.append(file);
            text.append(" failed: ");
        },
        RecordStep::ParseScript => {
            text.append(file);
            text.append(": ");
        },
        RecordStep::OutputDir => {
            text.append("creating ");
            text.append(file);
            text.append(" failed: ");
        },
        RecordStep::Stale => {
            text.append("removing stale ");
            text.append(file);
            text.append(" failed: ");
        },
        RecordStep::CreateLog => text.append("steps.ndjson: "),
        RecordStep::WriteLog => text.append("writing the step log failed: "),
        RecordStep::TypeExit => text.append("typing /exit failed: "),
        RecordStep::ExitLog => text.append("writing the step log failed: "),
        RecordStep::Capture => text.append("finalizing the capture failed: "),
        RecordStep::Transcript => {
            text.append("copying the transcript from ");
            text.append(file);
            text.append(" failed: ");
        },
        _ => {},
    }
    text.append(error);
    if matches!(step, RecordStep::Transcript) {
        text.append(" \u{2014} without it the fixture is missing a primary channel");
    }
    assert(text@ =~= record_error(step, file@, error@));
    Failure::new(name, code, text.as_str())
}

/// What is said of a work directory that could not be removed.
pub open spec fn left_text(workdir: Seq<char>, error: Seq<char>) -> Seq<char> {
    "workdir removal failed, left at "@ + workdir + ": "@ + error
}

/// What is said of a work directory that could not be removed.
pub fn workdir_left(workdir: &str, error: &str) -> (text: String)
    ensures
        text@ == left_text(workdir@, error@),
{
    let mut text = "workdir removal failed, left at ".to_owned();
    text.append(workdir);
    text.append(": ");
    text.append(error);
    text
}

/// What the teardown of a generic session says of its work directory.
pub fn generic_workdir_note(fate: &WorkdirFate, workdir: &str) -> (text: String)
    ensures
        text@ == match *fate {
            WorkdirFate::Kept => "; workdir kept at "@ + workdir@,
            WorkdirFate::Removed => "; workdir removed"@,
            WorkdirFate::Left { error } => "; "@ + left_text(workdir@, error@),
        },
{
    match fate {
        WorkdirFate::Kept => {
            let mut text = "; workdir kept at ".to_owned();
            text.append(workdir);
            text
        },
        WorkdirFate::Removed => "; workdir removed".to_owned(),
        WorkdirFate::Left { error } => {
            let mut text = "; ".to_owned();
            text.append(workdir_left(workdir, error.as_str()).as_str());
            text
        },
    }
}

/// Whether a generic script can be hosted at all: it has no default binary.
pub fn generic_binary(config: &RecordConfig) -> (r: Result<&str, Failure>)
    ensures
        match (r, config.cli_bin) {
            (Ok(name), Some(bin)) => name@ == bin@,
            (Err(failure), None) => failure.says(
                "args"@,
                2,
                "a generic script needs --cli-bin: there is no default binary for it"@,
            ),
            _ => false,
        },
{
    match &config.cli_bin {
        Some(bin) => Ok(bin.as_str()),
        None => Err(
            Failure::new(
                "args",
                2,
                "a generic script needs --cli-bin: there is no default binary for it",
            ),
        ),
    }
}

/// What the persisted side channels report.
pub fn side_channels_detail(hooks: usize, transcript: &str) -> (text: String)
    ensures
        text@ == decimal(hooks as nat) + " hook payloads; transcript copied from "@ + transcript@,
{
    let mut text = String::new();
    push_usize(&mut text, hooks);
    assert(text@ =~= decimal(hooks as nat));
    text.append(" hook payloads; transcript copied from ");
    text.append(transcript);
    text
}

/// The two files of a capture fit each other: line `i` of the timing file says
/// when read `i` came and, as its offset, how many bytes the reads before it hold;
/// at that offset of the bytes file stands that read. There is a line for each
/// read and no byte beside theirs.
pub proof fn law_each_timing_line_says_where_its_read_begins(chunks: Seq<ChunkView>, i: int)
    requires
        0 <= i < chunks.len(),
    ensures
        ({
            let timing = boundaries(chunks);
            let bytes = all_bytes(chunks);
            let before = sum(|j: int| chunks[j].bytes.len() as int, i);
            &&& exists|start: int, end: int| #[trigger]
                is_line(timing, i, start, end) && timing.subrange(start, end)
                    == "{\"monotonic_ns\":"@ + decimal(chunks[i].t_ns as nat) + ",\"offset\":"@
                    + decimal(before as nat) + "}"@
            &&& 0 <= before
            &&& before + chunks[i].bytes.len() <= bytes.len()
            &&& bytes.subrange(before, before + chunks[i].bytes.len()) == chunks[i].bytes
            &&& line_feeds(timing) == chunks.len()
            &&& bytes.len() == sum(|j: int| chunks[j].bytes.len() as int, chunks.len() as int)
        }),
{
    let lens = |j: int| chunks[j].bytes.len() as int;
    lemma_bytes_are_summed(chunks, lens);
    let front = chunks.take(i);
    assert forall|j: int| 0 <= j < front.len() implies #[trigger] lens(j)
        == front[j].bytes.len() by {}
    lemma_bytes_are_summed(front, lens);
    law_boundaries_cut_the_stream_into_its_reads(chunks, i);
    lemma_boundary_lines(chunks);
    lemma_boundary_lines(front);
    let next = chunks.take(i + 1);
    assert(next.drop_last() =~= front);
    let body = boundary_body(all_bytes(front).len(), chunks[i].t_ns);
    lemma_boundary_body(all_bytes(front).len(), chunks[i].t_ns);
    lemma_boundaries_grow(chunks, i + 1);
    let after = boundaries(chunks).skip(boundaries(next).len() as int);
    assert(boundaries(chunks) =~= boundaries(front) + body.push('\n') + after);
    lemma_is_line(boundaries(front), body, after);
    assert(is_line(
        boundaries(chunks),
        i,
        boundaries(front).len() as int,
        boundaries(front).len() + body.len() as int,
    ));
}

spec fn boundary_body(offset: nat, t_ns: u64) -> Seq<char> {
    "{\"monotonic_ns\":"@ + decimal(t_ns as nat) + ",\"offset\":"@ + decimal(offset) + "}"@
}

proof fn lemma_boundary_body(offset: nat, t_ns: u64)
    ensures
        boundary_line(offset, t_ns) == boundary_body(offset, t_ns).push('\n'),
        !boundary_body(offset, t_ns).contains('\n'),
{
    reveal_strlit("{\"monotonic_ns\":");
    reveal_strlit(",\"offset\":");
    reveal_strlit("}");
    reveal_strlit("}\n");
    lemma_decimal_digits(t_ns as nat);
    lemma_decimal_digits(offset);
    assert("}\n"@ =~= "}"@.push('\n'));
    assert(boundary_line(offset, t_ns) =~= boundary_body(offset, t_ns).push('\n'));
}

proof fn lemma_boundary_lines(chunks: Seq<ChunkView>)
    ensures
        line_feeds(boundaries(chunks)) == chunks.len(),
        boundaries(chunks).len() == 0 || boundaries(chunks).last() == '\n',
    decreases chunks.len(),
{
    if chunks.len() > 0 {
        let front = chunks.drop_last();
        lemma_boundary_lines(front);
        let offset = all_bytes(front).len();
        lemma_boundary_body(offset, chunks.last().t_ns);
        lemma_one_line_feed(boundary_body(offset, chunks.last().t_ns));
        lemma_line_feeds_add(boundaries(front), boundary_line(offset, chunks.last().t_ns));
    }
}

proof fn lemma_boundaries_grow(chunks: Seq<ChunkView>, n: int)
    requires
        0 <= n <= chunks.len(),
    ensures
        boundaries(chunks.take(n)).len() <= boundaries(chunks).len(),
        boundaries(chunks).take(boundaries(chunks.take(n)).len() as int) == boundaries(
            chunks.take(n),
        ),
    decreases chunks.len() - n,
{
    if n == chunks.len() {
        assert(chunks.take(n) =~= chunks);
        assert(boundaries(chunks).take(boundaries(chunks).len() as int) =~= boundaries(chunks));
    } else {
        lemma_boundaries_grow(chunks, n + 1);
        assert(chunks.take(n + 1).drop_last() =~= chunks.take(n));
        let short = boundaries(chunks.take(n));
        let long = boundaries(chunks.take(n + 1));
        assert(long.take(short.len() as int) =~= short);
        assert(boundaries(chunks).take(short.len() as int) =~= long.take(short.len() as int));
    }
}

proof fn lemma_bytes_are_summed(chunks: Seq<ChunkView>, lens: spec_fn(int) -> int)
    requires
        forall|j: int| 0 <= j < chunks.len() ==> #[trigger] lens(j) == chunks[j].bytes.len(),
    ensures
        all_bytes(chunks).len() == sum(lens, chunks.len() as int),
    decreases chunks.len(),
{
    if chunks.len() > 0 {
        let front = chunks.drop_last();
        assert forall|j: int| 0 <= j < front.len() implies #[trigger] lens(j)
            == front[j].bytes.len() by {}
        lemma_bytes_are_summed(front, lens);
        assert(lens(chunks.len() - 1) == chunks.last().bytes.len());
    }
}

/// Line `i` of the hook files belongs to hook `i`: the one holds its payload, the
/// other its line number, counted from one, and its time since `t0`. There is a
/// line for each hook in both.
pub proof fn law_each_hook_line_says_its_payload_and_time(
    events: Seq<HookEventView>,
    t0: u64,
    i: int,
)
    requires
        0 <= i < events.len(),
        forall|j: int| 0 <= j < events.len() ==> flat_numbers((#[trigger] events[j]).payload),
    ensures
        ({
            let payloads = payload_lines(events);
            let times = payload_times(events, t0);
            let since = if events[i].at > t0 {
                events[i].at - t0
            } else {
                0
            };
            &&& exists|start: int, end: int| #[trigger]
                is_line(payloads, i, start, end) && payloads.subrange(start, end) == compact(
                    events[i].payload,
                )
            &&& exists|start: int, end: int| #[trigger]
                is_line(times, i, start, end) && times.subrange(start, end) == "{\"line\":"@
                    + decimal((i + 1) as nat) + ",\"monotonic_ns\":"@ + decimal(since as nat)
                    + "}"@
            &&& line_feeds(payloads) == events.len()
            &&& line_feeds(times) == events.len()
        }),
{
    let front = events.take(i);
    let next = events.take(i + 1);
    assert(next.drop_last() =~= front);
    assert forall|j: int| 0 <= j < front.len() implies flat_numbers(
        (#[trigger] front[j]).payload,
    ) by {
        assert(front[j] == events[j]);
    }
    lemma_hook_feeds(events, t0);
    lemma_hook_feeds(front, t0);
    lemma_hook_files_grow(events, t0, i + 1);
    let payload = compact(events[i].payload);
    lemma_payload_body(events[i].payload);
    let more = payload_lines(events).skip(payload_lines(next).len() as int);
    assert(payload_lines(events) =~= payload_lines(front) + payload.push('\n') + more);
    lemma_is_line(payload_lines(front), payload, more);
    assert(is_line(
        payload_lines(events),
        i,
        payload_lines(front).len() as int,
        payload_lines(front).len() + payload.len() as int,
    ));
    let body = time_body((i + 1) as nat, elapsed(t0, events[i].at) as nat);
    lemma_time_body((i + 1) as nat, elapsed(t0, events[i].at) as nat);
    let later = payload_times(events, t0).skip(payload_times(next, t0).len() as int);
    assert(payload_times(events, t0) =~= payload_times(front, t0) + body.push('\n') + later);
    lemma_is_line(payload_times(front, t0), body, later);
    assert(is_line(
        payload_times(events, t0),
        i,
        payload_times(front, t0).len() as int,
        payload_times(front, t0).len() + body.len() as int,
    ));
}

spec fn time_body(line: nat, ns: nat) -> Seq<char> {
    "{\"line\":"@ + decimal(line) + ",\"monotonic_ns\":"@ + decimal(ns) + "}"@
}

proof fn lemma_time_body(line: nat, ns: nat)
    ensures
        "{\"line\":"@ + decimal(line) + ",\"monotonic_ns\":"@ + decimal(ns) + "}\n"@ == time_body(
            line,
            ns,
        ).push('\n'),
        !time_body(line, ns).contains('\n'),
{
    reveal_strlit("{\"line\":");
    reveal_strlit(",\"monotonic_ns\":");
    reveal_strlit("}");
    reveal_strlit("}\n");
    lemma_decimal_digits(line);
    lemma_decimal_digits(ns);
    assert("{\"line\":"@ + decimal(line) + ",\"monotonic_ns\":"@ + decimal(ns) + "}\n"@
        =~= time_body(line, ns).push('\n'));
}

proof fn lemma_payload_body(payload: JsonView)
    requires
        flat_numbers(payload),
    ensures
        compact(payload) + "\n"@ == compact(payload).push('\n'),
        !compact(payload).contains('\n'),
{
    reveal_strlit("\n");
    law_a_value_is_one_line(payload);
    assert(compact(payload) + "\n"@ =~= compact(payload).push('\n'));
}

proof fn lemma_hook_feeds(events: Seq<HookEventView>, t0: u64)
    requires
        forall|j: int| 0 <= j < events.len() ==> flat_numbers((#[trigger] events[j]).payload),
    ensures
        line_feeds(payload_lines(events)) == events.len(),
        line_feeds(payload_times(events, t0)) == events.len(),
        payload_lines(events).len() == 0 || payload_lines(events).last() == '\n',
        payload_times(events, t0).len() == 0 || payload_times(events, t0).last() == '\n',
    decreases events.len(),
{
    if events.len() > 0 {
        let front = events.drop_last();
        assert forall|j: int| 0 <= j < front.len() implies flat_numbers(
            (#[trigger] front[j]).payload,
        ) by {
            assert(front[j] == events[j]);
        }
        lemma_hook_feeds(front, t0);
        let payload = events.last().payload;
        let ns = elapsed(t0, events.last().at) as nat;
        lemma_payload_body(payload);
        lemma_one_line_feed(compact(payload));
        lemma_line_feeds_add(payload_lines(front), compact(payload).push('\n'));
        lemma_time_body(events.len(), ns);
        lemma_one_line_feed(time_body(events.len(), ns));
        lemma_line_feeds_add(payload_times(front, t0), time_body(events.len(), ns).push('\n'));
    }
}

/// The record of a step says its number, when it began, what it was, what it came
/// to and how long it took, its label where it has one, and beside these what its
/// kind brings, as long as no two of these share a key.
pub proof fn law_a_record_says_its_step(
    seq: u64,
    t_ns: u64,
    step: Seq<char>,
    fields: Seq<(Seq<char>, JsonView)>,
    label: Option<Seq<char>>,
    outcome: Seq<char>,
    took_ms: u64,
    k: int,
)
    requires
        0 <= k < fields.len(),
        forall|i: int| 0 <= i < fields.len() ==> !is_record_key((#[trigger] fields[i]).0),
        forall|i: int, j: int|
            0 <= i < j < fields.len() ==> (#[trigger] fields[i]).0 != (#[trigger] fields[j]).0,
    ensures
        ({
            let record = record_fields(seq, t_ns, step, fields, label, outcome, took_ms);
            &&& field_in(record, "seq"@) == Some(JsonView::Number(decimal(seq as nat), Some(seq)))
            &&& field_in(record, "t_ns"@) == Some(
                JsonView::Number(decimal(t_ns as nat), Some(t_ns)),
            )
            &&& field_in(record, "step"@) == Some(JsonView::Text(step))
            &&& field_in(record, "outcome"@) == Some(JsonView::Text(outcome))
            &&& field_in(record, "took_ms"@) == Some(
                JsonView::Number(decimal(took_ms as nat), Some(took_ms)),
            )
            &&& field_in(record, "label"@) == match label {
                Some(text) => Some(JsonView::Text(text)),
                None => None,
            }
            &&& field_in(record, fields[k].0) == Some(fields[k].1)
        }),
{
    lemma_record_keys();
    let empty = Seq::<(Seq<char>, JsonView)>::empty();
    let one = placed(empty, "seq"@, logged(seq));
    let two = placed(one, "t_ns"@, logged(t_ns));
    let head = placed(two, "step"@, JsonView::Text(step));
    let body = all_placed(head, fields, fields.len());
    let labelled = match label {
        Some(label) => placed(body, "label"@, JsonView::Text(label)),
        None => body,
    };
    let ended = placed(labelled, "outcome"@, JsonView::Text(outcome));
    let watched = seq!["seq"@, "t_ns"@, "step"@, "label"@, "outcome"@, "took_ms"@, fields[k].0];
    assert(is_record_key("seq"@) && is_record_key("t_ns"@) && is_record_key("step"@));
    assert(is_record_key("label"@) && is_record_key("outcome"@) && is_record_key("took_ms"@));
    assert(!is_record_key(fields[k].0));
    lemma_places(empty, "seq"@, logged(seq), watched);
    lemma_places(one, "t_ns"@, logged(t_ns), watched);
    lemma_places(two, "step"@, JsonView::Text(step), watched);
    lemma_all_placed(head, fields, fields.len(), k, watched);
    if let Some(text) = label {
        lemma_places(body, "label"@, JsonView::Text(text), watched);
    }
    lemma_places(labelled, "outcome"@, JsonView::Text(outcome), watched);
    lemma_places(ended, "took_ms"@, logged(took_ms), watched);
    assert(watched[0] == "seq"@ && watched[1] == "t_ns"@ && watched[2] == "step"@);
    assert(watched[3] == "label"@ && watched[4] == "outcome"@ && watched[5] == "took_ms"@);
    assert(watched[6] == fields[k].0);
}

/// Whether a key is one that every record has its own use for.
pub open spec fn is_record_key(key: Seq<char>) -> bool {
    key == "seq"@ || key == "t_ns"@ || key == "step"@ || key == "label"@ || key == "outcome"@ || key
        == "took_ms"@
}

proof fn lemma_record_keys()
    ensures
        "seq"@ != "t_ns"@ && "seq"@ != "step"@ && "seq"@ != "label"@ && "seq"@ != "outcome"@
            && "seq"@ != "took_ms"@,
        "t_ns"@ != "step"@ && "t_ns"@ != "label"@ && "t_ns"@ != "outcome"@ && "t_ns"@
            != "took_ms"@,
        "step"@ != "label"@ && "step"@ != "outcome"@ && "step"@ != "took_ms"@,
        "label"@ != "outcome"@ && "label"@ != "took_ms"@ && "outcome"@ != "took_ms"@,
{
    reveal_strlit("seq");
    reveal_strlit("t_ns");
    reveal_strlit("step");
    reveal_strlit("label");
    reveal_strlit("outcome");
    reveal_strlit("took_ms");
    assert("seq"@.len() == 3 && "t_ns"@.len() == 4 && "step"@.len() == 4 && "label"@.len() == 5);
    assert("outcome"@.len() == 7 && "took_ms"@.len() == 7);
    assert("t_ns"@[0] == 't' && "step"@[0] == 's');
    assert("outcome"@[0] == 'o' && "took_ms"@[0] == 't');
}

proof fn lemma_places(
    fields: Seq<(Seq<char>, JsonView)>,
    key: Seq<char>,
    value: JsonView,
    watched: Seq<Seq<char>>,
)
    requires
        in_key_order(fields),
    ensures
        in_key_order(placed(fields, key, value)),
        field_in(placed(fields, key, value), key) == Some(value),
        forall|i: int|
            0 <= i < watched.len() && watched[i] != key ==> field_in(
                placed(fields, key, value),
                #[trigger] watched[i],
            ) == field_in(fields, watched[i]),
{
    law_a_placed_field_is_found(fields, key, value, key);
    assert forall|i: int| 0 <= i < watched.len() && watched[i] != key implies field_in(
        placed(fields, key, value),
        #[trigger] watched[i],
    ) == field_in(fields, watched[i]) by {
        law_a_placed_field_is_found(fields, key, value, watched[i]);
    }
}

proof fn lemma_all_placed(
    base: Seq<(Seq<char>, JsonView)>,
    more: Seq<(Seq<char>, JsonView)>,
    n: nat,
    k: int,
    watched: Seq<Seq<char>>,
)
    requires
        in_key_order(base),
        n <= more.len(),
        0 <= k < more.len(),
        forall|i: int| 0 <= i < more.len() ==> !is_record_key((#[trigger] more[i]).0),
        forall|i: int, j: int|
            0 <= i < j < more.len() ==> (#[trigger] more[i]).0 != (#[trigger] more[j]).0,
    ensures
        in_key_order(all_placed(base, more, n)),
        forall|i: int|
            0 <= i < watched.len() && is_record_key(watched[i]) ==> field_in(
                all_placed(base, more, n),
                #[trigger] watched[i],
            ) == field_in(base, watched[i]),
        k < n ==> field_in(all_placed(base, more, n), more[k].0) == Some(more[k].1),
    decreases n,
{
    if n > 0 {
        let m = (n - 1) as nat;
        lemma_all_placed(base, more, m, k, watched);
        let before = all_placed(base, more, m);
        lemma_places(before, more[n - 1].0, more[n - 1].1, watched);
        if k < m {
            law_a_placed_field_is_found(before, more[n - 1].0, more[n - 1].1, more[k].0);
        }
        assert forall|i: int| 0 <= i < watched.len() && is_record_key(watched[i]) implies field_in(
            all_placed(base, more, n),
            #[trigger] watched[i],
        ) == field_in(base, watched[i]) by {
            assert(watched[i] != more[n - 1].0);
        }
    }
}

/// What a step's kind brings into its record is what the step was told, under names
/// that the record has no use of its own for.
pub proof fn law_a_kind_is_logged_as_it_was_told(kind: KindView)
    ensures
        match kind {
            KindView::TypeLine { text } => log_fields_view(kind) == seq![
                ("text"@, JsonView::Text(text)),
            ],
            KindView::Press { key, bytes } => log_fields_view(kind) == seq![
                ("key"@, JsonView::Text(key)),
            ],
            KindView::WaitQuiet { quiet_ms, timeout_ms } => log_fields_view(kind) == seq![
                ("quiet_ms"@, JsonView::Number(decimal(quiet_ms as nat), Some(quiet_ms))),
                ("timeout_ms"@, JsonView::Number(decimal(timeout_ms as nat), Some(timeout_ms))),
            ],
            KindView::WaitText { marker, timeout_ms } => log_fields_view(kind) == seq![
                ("marker"@, JsonView::Text(marker)),
                ("timeout_ms"@, JsonView::Number(decimal(timeout_ms as nat), Some(timeout_ms))),
            ],
            KindView::WaitHook { hook, timeout_ms } => log_fields_view(kind) == seq![
                ("hook"@, JsonView::Text(hook)),
                ("timeout_ms"@, JsonView::Number(decimal(timeout_ms as nat), Some(timeout_ms))),
            ],
            KindView::SetDecision { decision } => log_fields_view(kind) == seq![
                ("decision"@, JsonView::Text(decision.word())),
            ],
            KindView::Pause { ms } => log_fields_view(kind) == seq![
                ("ms"@, JsonView::Number(decimal(ms as nat), Some(ms))),
            ],
        },
{
}

/// The manifest lists the size of each artifact that exists, in the order of the
/// files, and passes over one that does not.
pub proof fn law_each_artifact_is_listed_with_its_size(sizes: Seq<Option<u64>>, n: nat)
    ensures
        size_lines(sizes, 0).len() == 0 && size_notes(sizes, 0).len() == 0,
        match sizes[n as int] {
            Some(len) => size_lines(sizes, n + 1) == size_lines(sizes, n) + ("  "@
                + ARTIFACT_FILES@[n as int]@ + ": "@ + decimal(len as nat) + "\n"@) && size_notes(
                sizes,
                n + 1,
            ) == size_notes(sizes, n).push(
                ARTIFACT_FILES@[n as int]@ + "="@ + decimal(len as nat) + "B"@,
            ),
            None => size_lines(sizes, n + 1) == size_lines(sizes, n) && size_notes(sizes, n + 1)
                == size_notes(sizes, n),
        },
{
}

/// A record script's file is its stem with the suffix of record scripts, and no
/// other file has a stem.
pub proof fn law_a_stem_is_what_stands_before_the_suffix(stem: Seq<char>, name: Seq<char>)
    ensures
        script_stem(stem + ".record.json"@) == Some(stem),
        script_stem(name) matches Some(front) ==> name == front + ".record.json"@,
{
    let suffix = ".record.json"@;
    let all = stem + suffix;
    assert(all.subrange(stem.len() as int, all.len() as int) =~= suffix);
    assert(all.take(stem.len() as int) =~= stem);
    if let Some(front) = script_stem(name) {
        let at = name.len() - suffix.len();
        assert(name.subrange(at, name.len() as int) == suffix);
        assert(name =~= front + suffix);
    }
}

/// A script is recorded exactly when the invoker expects its CLI or none, its file
/// is named after it or is no record script's, and the options are those of its
/// profile: no version label for the live CLI, and for any other a printable one
/// and no model.
pub proof fn law_what_stands_against_a_script(
    script: ScriptView,
    file: Seq<char>,
    file_name: Option<Seq<char>>,
    expect_cli: Option<Seq<char>>,
    cli_version: Option<Seq<char>>,
    model: Option<Seq<char>>,
    live: Seq<char>,
)
    ensures
        script_fault(
            script,
            file,
            file_name,
            expect_cli,
            cli_version,
            model,
            live,
        ) is None <==> {
            &&& expect_cli matches Some(cli) ==> cli == script.cli
            &&& file_name matches Some(name) ==> (script_stem(name) matches Some(stem) ==> stem
                == script.name)
            &&& script.cli == live ==> cli_version is None
            &&& script.cli != live ==> model is None && (cli_version matches Some(label)
                && !all_space(label) && !has_control(label))
        },
        script_fault(
            script,
            file,
            file_name,
            expect_cli,
            cli_version,
            model,
            live,
        ) matches Some(fault) ==> {
            let mistaken = (expect_cli matches Some(cli) && cli != script.cli) || (file_name
                matches Some(name) && (script_stem(name) matches Some(stem) && stem
                != script.name));
            if mistaken {
                fault.0 == "script"@ && fault.1 == 80
            } else {
                fault.0 == "args"@ && fault.1 == 2
            }
        },
{
}

/// A path is rebuilt as its root and its names with one backslash between two,
/// where the root ends in a separator and no name does.
pub proof fn law_a_path_is_rebuilt_from_its_names(root: Seq<char>, names: Seq<Seq<char>>)
    requires
        root.len() > 0,
        root.last() == '\\',
        forall|i: int|
            0 <= i < names.len() ==> (#[trigger] names[i]).len() > 0 && names[i].last() != '\\'
                && names[i].last() != '/',
    ensures
        under(root, names) == root + joined(names, "\\"@),
        names.len() > 0 ==> under(root, names).last() == names.last().last(),
    decreases names.len(),
{
    if names.len() == 0 {
        assert(under(root, names) =~= root + joined(names, "\\"@));
    } else {
        let front = names.drop_last();
        let last = names[names.len() - 1];
        assert(last.len() > 0);
        assert forall|i: int| 0 <= i < front.len() implies (#[trigger] front[i]).len() > 0
            && front[i].last() != '\\' && front[i].last() != '/' by {
            assert(front[i] == names[i]);
        }
        law_a_path_is_rebuilt_from_its_names(root, front);
        if front.len() > 0 {
            assert(front.last() == names[names.len() - 2]);
            assert(!ends_separated(under(root, front)));
            assert(under(root, names) =~= root + joined(names, "\\"@));
        } else {
            assert(under(root, front) == root);
            assert(under(root, names) =~= root + joined(names, "\\"@));
        }
    }
}

/// A verbatim disk is rebuilt into the disk, and a verbatim share into the share.
pub proof fn law_a_verbatim_root_is_named_plainly(disk: char, server: String, share: String)
    ensures
        plain_root(PathPrefix::VerbatimDisk { disk }) == Some(seq![disk, ':', '\\']),
        plain_root(PathPrefix::VerbatimUnc { server, share }) == Some(
            seq!['\\', '\\'] + server@ + seq!['\\'] + share@ + seq!['\\'],
        ),
        plain_root(PathPrefix::Other) is None,
{
    reveal_strlit(":\\");
    reveal_strlit("\\\\");
    reveal_strlit("\\");
    assert(seq![disk] + ":\\"@ =~= seq![disk, ':', '\\']);
    assert("\\\\"@ =~= seq!['\\', '\\']);
    assert("\\"@ =~= seq!['\\']);
}

/// A failed step exits with the code of its part of a recording.
pub proof fn law_an_exit_code_names_its_part(step: RecordStep)
    ensures
        80 <= record_code(step).1 <= 85,
        record_code(step).1 == 80 <==> step == RecordStep::ReadScript || step
            == RecordStep::ParseScript,
        record_code(step).1 == 81 <==> step == RecordStep::OutputDir || step == RecordStep::Stale
            || step == RecordStep::CreateLog,
        record_code(step).1 == 83 <==> step == RecordStep::WriteLog,
        record_code(step).1 == 85 <==> step == RecordStep::Transcript || step
            == RecordStep::Artifacts,
        record_code(step).1 != 82,
{
}

/// The two files that a capture is converted to fit the reads that it holds: line
/// `i` of the timing file is the time of read `i` and the number of bytes before
/// it, and from there on the bytes file holds that read.
pub proof fn law_a_converted_capture_is_cut_as_it_was_read(
    chunks: Vec<CaptureChunk>,
    files: InputArtifacts,
    i: int,
)
    requires
        call_ensures(input_artifacts, (&chunks,), files),
        0 <= i < chunks@.len(),
    ensures
        ({
            let before = sum(|j: int| chunks@[j].bytes@.len() as int, i);
            let len = chunks@[i].bytes@.len();
            &&& exists|start: int, end: int| #[trigger]
                is_line(files.timing@, i, start, end) && files.timing@.subrange(start, end)
                    == "{\"monotonic_ns\":"@ + decimal(chunks@[i].t_ns as nat) + ",\"offset\":"@
                    + decimal(before as nat) + "}"@
            &&& 0 <= before
            &&& before + len <= files.bytes@.len()
            &&& files.bytes@.subrange(before, before + len) == chunks@[i].bytes@
            &&& line_feeds(files.timing@) == chunks@.len()
        }),
{
    let seen = views(chunks@);
    law_each_timing_line_says_where_its_read_begins(seen, i);
    let lens = |j: int| seen[j].bytes.len() as int;
    let held = |j: int| chunks@[j].bytes@.len() as int;
    assert forall|j: int| 0 <= j < i implies #[trigger] lens(j) == held(j) by {}
    lemma_sum_same(lens, held, i);
}

/// A scripted wait takes the first hook of that name behind the cursor and moves
/// the cursor just past it; without one the cursor stays. It gives up exactly when
/// there is none and the time is up, or the stream has been over for two seconds.
pub proof fn law_a_scripted_wait_consumes_one_hook(
    log: HookLog,
    tracker: OutputTracker,
    cursor: &mut usize,
    name: &str,
    waited_ns: u64,
    timeout_ns: u128,
    since_ended_ns: Option<u64>,
    w: HookWait,
)
    requires
        *old(cursor) <= log@.len(),
        call_ensures(
            wait_hook,
            (&log, &tracker, cursor, name, waited_ns, timeout_ns, since_ended_ns),
            w,
        ),
    ensures
        w matches HookWait::Seen(at) ==> {
            &&& *old(cursor) <= at < log@.len()
            &&& log@[at as int].name == name@
            &&& forall|i: int| *old(cursor) <= i < at ==> (#[trigger] log@[i]).name != name@
            &&& *final(cursor) == at + 1
        },
        !(w is Seen) ==> *final(cursor) == *old(cursor) && forall|i: int|
            *old(cursor) <= i < log@.len() ==> (#[trigger] log@[i]).name != name@,
        w is Fail <==> !(w is Seen) && (waited_ns >= timeout_ns || (since_ended_ns matches Some(ns)
            && ns >= 2_000_000_000)),
{
}

/// A pause is slept in slices of a tenth of a second at most, none longer than what
/// is left of it, until it is over.
pub proof fn law_a_pause_is_slept_to_its_end(elapsed_ns: u64, pause_ns: u128, slice: Option<u64>)
    requires
        call_ensures(pause_slice, (elapsed_ns, pause_ns), slice),
    ensures
        slice is None <==> elapsed_ns >= pause_ns,
        slice matches Some(ns) ==> 0 < ns <= 100_000_000 && elapsed_ns + ns <= pause_ns && (ns
            < 100_000_000 ==> elapsed_ns + ns == pause_ns),
{
}

/// A step is in order exactly when no error came of it. Either way it is told by
/// its number from one and its name; a failed step has its own exit code.
pub proof fn law_a_step_is_told_by_its_number(
    index: usize,
    step: DriverStep,
    took_ns: u64,
    error: Option<String>,
    r: Result<String, Failure>,
)
    requires
        index < usize::MAX,
        call_ensures(step_result, (index, &step, took_ns, &error), r),
    ensures
        r is Ok <==> error is None,
        r matches Ok(text) ==> begins_with(text@, "#"@ + decimal((index + 1) as nat) + " "@),
        r matches Err(f) ==> f.code == 83 && begins_with(
            f.detail@,
            "step "@ + decimal((index + 1) as nat) + " ("@,
        ),
{
    if let Ok(text) = r {
        let head = "#"@ + decimal((index + 1) as nat) + " "@;
        assert(text@.subrange(0, head.len() as int) =~= head);
    }
    if let Err(f) = r {
        let head = "step "@ + decimal((index + 1) as nat) + " ("@;
        assert(f.detail@.subrange(0, head.len() as int) =~= head);
    }
}

} // verus!
