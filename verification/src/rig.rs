//! The launch rig of the live lanes: what a real session is launched with, and
//! the decisions of establishing, driving and shutting it down.
//!
//! Times are readings of one monotonic clock, in nanoseconds.
use vstd::prelude::*;
use vstd::string::*;

use crate::ansi::stripped;
use crate::failure::{Failure, COLS, ROWS};
use crate::hooks::{HookEvent, HookEventView};
use crate::json::{compact, text_field, Json, JsonView};
use crate::pty::{last_chars, OutputTracker};
use crate::report::{lemma_texts_push, optional_text, texts};
use crate::text::{
    contains, decimal, join, joined, lowercase, lowered, occurs, push_u128, push_u64, same_text,
};

verus! {

/// How long a typed line rests between its text and the Enter keystroke.
pub const TYPE_SETTLE: u64 = 350_000_000;

/// How long the workspace-trust dialog gets to finish painting.
pub const TRUST_DIALOG_SETTLE: u64 = 750_000_000;

/// How long to wait before pressing Enter at a pre-session screen again.
pub const TRUST_DIALOG_RETRY: u64 = 4_000_000_000;

/// How many Enters a pre-session screen gets.
pub const TRUST_DIALOG_MAX_ENTERS: u32 = 5;

/// How long a terminal gets to be allocated or closed.
pub const IO_TIMEOUT: u128 = 10_000_000_000;

/// How long a session gets to start.
pub const SESSION_START_TIMEOUT: u64 = 60_000_000_000;

/// How long a transcript gets to grow.
pub const TRANSCRIPT_TIMEOUT: u64 = 15_000_000_000;

/// How long a prompt turn gets.
pub const TURN_TIMEOUT: u128 = 120_000_000_000;

/// How long `/exit` gets to produce the end of the session.
pub const SESSION_END_TIMEOUT: u128 = 20_000_000_000;

/// How long a child gets to exit after that.
pub const CHILD_EXIT_TIMEOUT: u128 = 15_000_000_000;

/// How long the version query gets.
pub const VERSION_TIMEOUT: u64 = 20_000_000_000;

/// What the capture of a probe run is labelled with.
pub const PROBE_SCENARIO: &'static str =
    "cold interactive session: launch, workspace-trust dialog, one prompt turn, /exit";

/// What a live lane is configured with.
#[derive(Debug)]
pub struct ProbeConfig {
    /// Binary name or path.
    pub claude_bin: String,
    /// The model to pass on, if any.
    pub model: Option<String>,
    /// The budget from spawn to first output byte.
    pub first_token_ms: u64,
    /// Where to persist the capture.
    pub capture_to: Option<String>,
    pub keep_workdir: bool,
    pub cols: u16,
    pub rows: u16,
}

impl ProbeConfig {
    /// The defaults, for the CLI `live`.
    pub fn standard(live: &str) -> (c: Self)
        ensures
            c.claude_bin@ == live@,
            c.model is None,
            c.first_token_ms == 2_000,
            c.capture_to is None,
            !c.keep_workdir,
            c.cols == COLS,
            c.rows == ROWS,
    {
        ProbeConfig {
            claude_bin: live.to_owned(),
            model: None,
            first_token_ms: 2_000,
            capture_to: None,
            keep_workdir: false,
            cols: COLS,
            rows: ROWS,
        }
    }
}

/// The arguments that a session is launched with.
pub open spec fn launch_args_view(
    session_id: Seq<char>,
    settings_path: Seq<char>,
    model: Option<Seq<char>>,
) -> Seq<Seq<char>> {
    let args = seq!["--session-id"@, session_id, "--settings"@, settings_path];
    match model {
        Some(model) => args.push("--model"@).push(model),
        None => args,
    }
}

/// The arguments that a session is launched with.
pub fn launch_args(session_id: &str, settings_path: &str, model: &Option<String>) -> (args: Vec<
    String,
>)
    ensures
        texts(args@) == launch_args_view(session_id@, settings_path@, optional_text(*model)),
{
    let mut args: Vec<String> = Vec::new();
    args.push("--session-id".to_owned());
    args.push(session_id.to_owned());
    args.push("--settings".to_owned());
    args.push(settings_path.to_owned());
    match model {
        Some(model) => {
            args.push("--model".to_owned());
            args.push(model.clone());
        },
        None => {},
    }
    assert(texts(args@) =~= launch_args_view(session_id@, settings_path@, optional_text(*model)));
    args
}

/// What establishing a session learned.
#[derive(Debug)]
pub struct SessionInfo {
    pub transcript_path: String,
    pub transcript_baseline: u64,
    pub trust_dialog_driven: bool,
}

/// One completed prompt turn.
#[derive(Debug)]
pub struct Turn {
    /// From Enter to the end of the turn, in nanoseconds.
    pub duration: u64,
    pub hooks: Vec<(String, Json)>,
}

/// The names of a list of hooks.
pub open spec fn hook_names_view(hooks: Seq<(String, Json)>) -> Seq<Seq<char>> {
    hooks.map_values(|h: (String, Json)| h.0@)
}

impl Turn {
    /// The names of the turn's hooks, in order.
    pub fn hook_names(&self) -> (names: Vec<String>)
        ensures
            texts(names@) == hook_names_view(self.hooks@),
    {
        let ghost all = hook_names_view(self.hooks@);
        let mut names: Vec<String> = Vec::new();
        let mut i: usize = 0;
        assert(texts(names@) =~= all.take(0));
        while i < self.hooks.len()
            invariant
                all == hook_names_view(self.hooks@),
                i <= self.hooks@.len(),
                texts(names@) == all.take(i as int),
            decreases self.hooks@.len() - i,
        {
            broadcast use lemma_texts_push;

            names.push(self.hooks[i].0.clone());
            i += 1;
            assert(all.take(i as int) =~= all.take(i - 1).push(all[i - 1]));
        }
        assert(all.take(i as int) =~= all);
        names
    }
}

/// Which hooks of a name a wait accepts.
#[derive(Clone, Copy, PartialEq, Eq, Debug, Structural)]
pub enum HookFilter {
    Any,
    /// A notification that announces a permission prompt.
    Permission,
}

/// Whether a payload's field speaks of a permission.
pub open spec fn says_permission(payload: JsonView, name: Seq<char>) -> bool {
    match text_field(payload, name) {
        Some(text) => occurs(lowered(text), "permission"@),
        None => false,
    }
}

/// Whether a notification announces a permission prompt, by its type or, for
/// versions that carried only prose, by its message.
pub open spec fn permission_notice(payload: JsonView) -> bool {
    says_permission(payload, "notification_type"@) || says_permission(payload, "message"@)
}

/// Whether a notification announces a permission prompt.
pub fn is_permission_notification(payload: &Json) -> (yes: bool)
    ensures
        yes == permission_notice(payload@),
{
    let by_type = match payload.get_text("notification_type") {
        Some(text) => contains(lowercase(text).as_str(), "permission"),
        None => false,
    };
    let by_message = match payload.get_text("message") {
        Some(text) => contains(lowercase(text).as_str(), "permission"),
        None => false,
    };
    by_type || by_message
}

/// The hooks observed in a session, in order of arrival.
#[derive(Debug)]
pub struct HookLog {
    events: Vec<HookEvent>,
}

/// The contents of a list of hook events.
pub open spec fn event_views(events: Seq<HookEvent>) -> Seq<HookEventView> {
    events.map_values(|e: HookEvent| e@)
}

/// The names of a list of hook events.
pub open spec fn event_names(events: Seq<HookEventView>) -> Seq<Seq<char>> {
    events.map_values(|e: HookEventView| e.name)
}

/// Whether an event is the one that a wait is for.
pub open spec fn awaited_hook(event: HookEventView, name: Seq<char>, filter: HookFilter) -> bool {
    event.name == name && (filter == HookFilter::Permission ==> permission_notice(event.payload))
}

/// Whether the event at an index is the first from `mark` on that a wait is for.
pub open spec fn first_awaited(
    events: Seq<HookEventView>,
    mark: int,
    name: Seq<char>,
    filter: HookFilter,
    at: int,
) -> bool {
    &&& mark <= at < events.len()
    &&& awaited_hook(events[at], name, filter)
    &&& forall|j: int| mark <= j < at ==> !awaited_hook(#[trigger] events[j], name, filter)
}

/// Whether no event from `mark` on is one that a wait is for.
pub open spec fn none_awaited(
    events: Seq<HookEventView>,
    mark: int,
    name: Seq<char>,
    filter: HookFilter,
) -> bool {
    forall|j: int| mark <= j < events.len() ==> !awaited_hook(#[trigger] events[j], name, filter)
}

/// What a wait for a hook comes to on one look.
#[derive(Debug)]
pub enum HookWait {
    /// The hook at this index of the log.
    Seen(usize),
    Wait,
    Fail(String),
}

impl View for HookLog {
    type V = Seq<HookEventView>;

    closed spec fn view(&self) -> Seq<HookEventView> {
        event_views(self.events@)
    }
}

impl HookLog {
    /// A log of nothing.
    pub fn new() -> (log: Self)
        ensures
            log@ == Seq::<HookEventView>::empty(),
    {
        let log = HookLog { events: Vec::new() };
        assert(log@ =~= Seq::empty());
        log
    }

    /// Append an event.
    pub fn push(&mut self, event: HookEvent)
        ensures
            final(self)@ == old(self)@.push(event@),
    {
        self.events.push(event);
        assert(self@ =~= old(self)@.push(event@));
    }

    /// How many hooks were observed: the mark to scan from for what comes next.
    pub fn mark(&self) -> (n: usize)
        ensures
            n == self@.len(),
    {
        self.events.len()
    }

    /// The event at an index.
    pub fn event(&self, at: usize) -> (event: &HookEvent)
        requires
            at < self@.len(),
        ensures
            event@ == self@[at as int],
    {
        &self.events[at]
    }

    /// The first event from `mark` on that a wait is for.
    pub fn find(&self, name: &str, filter: HookFilter, mark: usize) -> (found: Option<usize>)
        ensures
            match found {
                Some(at) => first_awaited(self@, mark as int, name@, filter, at as int),
                None => none_awaited(self@, mark as int, name@, filter),
            },
    {
        let mut i: usize = mark;
        while i < self.events.len()
            invariant
                mark <= i,
                forall|j: int|
                    mark <= j < i && j < self@.len() ==> !awaited_hook(
                        #[trigger] self@[j],
                        name@,
                        filter,
                    ),
            decreases self.events@.len() - i,
        {
            let event = &self.events[i];
            assert(event@ == self@[i as int]);
            if same_text(event.name.as_str(), name) && (filter == HookFilter::Any
                || is_permission_notification(&event.payload)) {
                return Some(i);
            }
            i += 1;
        }
        None
    }

    /// The names of the hooks observed from `mark` on.
    pub fn names_since(&self, mark: usize) -> (names: Vec<String>)
        requires
            mark <= self@.len(),
        ensures
            texts(names@) == event_names(self@.skip(mark as int)),
    {
        let ghost all = event_names(self@.skip(mark as int));
        let mut names: Vec<String> = Vec::new();
        let mut i: usize = mark;
        assert(texts(names@) =~= all.take(0));
        while i < self.events.len()
            invariant
                all == event_names(self@.skip(mark as int)),
                mark <= i <= self@.len(),
                self@.len() == self.events@.len(),
                texts(names@) == all.take(i - mark),
            decreases self.events@.len() - i,
        {
            broadcast use lemma_texts_push;

            names.push(self.events[i].name.clone());
            i += 1;
            assert(all[i - mark - 1] == self@[i - 1].name);
            assert(all.take(i - mark) =~= all.take(i - mark - 1).push(all[i - mark - 1]));
        }
        assert(all.take(i - mark) =~= all);
        names
    }

    /// The hooks observed from `mark` on.
    pub fn hooks_since(&self, mark: usize) -> (hooks: Vec<(String, Json)>)
        requires
            mark <= self@.len(),
        ensures
            hooks@.len() == self@.len() - mark,
            forall|i: int|
                0 <= i < hooks@.len() ==> (#[trigger] hooks@[i]).0@ == self@[mark + i].name
                    && hooks@[i].1@ == self@[mark + i].payload,
    {
        let mut hooks: Vec<(String, Json)> = Vec::new();
        let mut i: usize = mark;
        while i < self.events.len()
            invariant
                mark <= i <= self@.len(),
                self@.len() == self.events@.len(),
                hooks@.len() == i - mark,
                forall|k: int|
                    0 <= k < hooks@.len() ==> (#[trigger] hooks@[k]).0@ == self@[mark + k].name
                        && hooks@[k].1@ == self@[mark + k].payload,
            decreases self.events@.len() - i,
        {
            let event = &self.events[i];
            assert(event@ == self@[i as int]);
            hooks.push((event.name.clone(), event.payload.duplicate()));
            i += 1;
        }
        hooks
    }

    /// One look in a wait for a hook at or after `mark`. An ended stream is no
    /// reason to stop waiting, since the end of a session races the child's exit,
    /// but it is named in the diagnostics.
    pub fn wait_for_hook(
        &self,
        tracker: &OutputTracker,
        name: &str,
        filter: HookFilter,
        mark: usize,
        waited_ns: u64,
        timeout_ns: u128,
    ) -> (w: HookWait)
        requires
            mark <= self@.len(),
        ensures
            match w {
                HookWait::Seen(at) => first_awaited(self@, mark as int, name@, filter, at as int),
                HookWait::Wait => none_awaited(self@, mark as int, name@, filter) && waited_ns
                    < timeout_ns,
                HookWait::Fail(text) => {
                    &&& none_awaited(self@, mark as int, name@, filter)
                    &&& waited_ns >= timeout_ns
                    &&& text@ == "hook "@ + name@ + " not observed within "@ + decimal(
                        (timeout_ns / 1_000_000_000) as nat,
                    ) + "s (hooks seen since mark: ["@ + joined(
                        event_names(self@.skip(mark as int)),
                        ", "@,
                    ) + "])"@ + ended_note(tracker.ended()) + "; screen tail: '"@ + last_chars(
                        stripped(tracker.window()),
                        200,
                    ) + "'"@
                },
            },
    {
        match self.find(name, filter, mark) {
            Some(at) => {
                return HookWait::Seen(at);
            },
            None => {},
        }
        if (waited_ns as u128) < timeout_ns {
            return HookWait::Wait;
        }
        let mut text = "hook ".to_owned();
        text.append(name);
        text.append(" not observed within ");
        push_u128(&mut text, timeout_ns / 1_000_000_000);
        text.append("s (hooks seen since mark: [");
        text.append(join(&self.names_since(mark), ", ").as_str());
        text.append("])");
        let ghost head = text@;
        match tracker.stream_ended() {
            Some(reason) => {
                text.append("; the output stream had already ended (");
                text.append(reason);
                text.append(")");
                assert(text@ =~= head + ended_note(tracker.ended()));
            },
            None => {
                assert(text@ =~= head + ended_note(tracker.ended()));
            },
        }
        text.append("; screen tail: '");
        text.append(tracker.screen_tail(200).as_str());
        text.append("'");
        HookWait::Fail(text)
    }
}

/// What a diagnostic says of a stream that had ended.
pub open spec fn ended_note(ended: Option<Seq<char>>) -> Seq<char> {
    match ended {
        Some(reason) => "; the output stream had already ended ("@ + reason + ")"@,
        None => Seq::empty(),
    }
}

/// Whether the end of a screen awaits a keypress rather than streaming. Loose on
/// purpose: the words are the CLI's to change.
pub open spec fn dialog_shown(lower: Seq<char>) -> bool {
    ||| occurs(lower, "trust"@)
    ||| occurs(lower, "yes, proceed"@)
    ||| occurs(lower, "do you trust"@)
    ||| occurs(lower, "press enter"@)
}

/// Whether a text in lower case shows a dialog.
pub fn shows_dialog(lower: &str) -> (yes: bool)
    ensures
        yes == dialog_shown(lower@),
{
    contains(lower, "trust") || contains(lower, "yes, proceed") || contains(lower, "do you trust")
        || contains(lower, "press enter")
}

/// Whether the screen currently awaits a keypress.
pub fn screen_shows_dialog(tracker: &OutputTracker) -> (yes: bool)
    ensures
        yes == dialog_shown(lowered(last_chars(stripped(tracker.window()), 600))),
{
    shows_dialog(lowercase(tracker.screen_tail(600).as_str()).as_str())
}

/// What a look at a starting session comes to.
#[derive(Debug)]
pub enum StartLook {
    /// The start of the session, at this index of the log.
    Started(usize),
    /// Let the dialog settle and press Enter.
    Press,
    /// Nothing to press.
    Watch,
    Fail(Failure),
}

/// One look at a starting session. A fresh project directory paints the
/// trust dialog, which only Enter clears. Enter is sent again, since a keystroke
/// that lands while the dialog paints is dropped.
pub fn start_look(
    log: &HookLog,
    tracker: &OutputTracker,
    enters_sent: u32,
    since_enter_ns: Option<u64>,
    dialog: bool,
) -> (look: StartLook)
    ensures
        ({
            let waiting = none_awaited(log@, 0, "SessionStart"@, HookFilter::Any);
            let due = match since_enter_ns {
                Some(ns) => ns >= TRUST_DIALOG_RETRY,
                None => true,
            };
            let press = enters_sent < TRUST_DIALOG_MAX_ENTERS && due && dialog;
            match look {
                StartLook::Started(at) => first_awaited(
                    log@,
                    0,
                    "SessionStart"@,
                    HookFilter::Any,
                    at as int,
                ),
                StartLook::Fail(failure) => waiting && tracker.ended() is Some && failure.says(
                    "session_start"@,
                    35,
                    "the child's output stream ended ("@ + tracker.ended()->Some_0
                        + ") while waiting for "@ + "the SessionStart hook"@
                        + " \u{2014} the process is gone, not merely quiet"@,
                ),
                StartLook::Press => waiting && tracker.ended() is None && press,
                StartLook::Watch => waiting && tracker.ended() is None && !press,
            }
        }),
{
    match log.find("SessionStart", HookFilter::Any, 0) {
        Some(at) => {
            return StartLook::Started(at);
        },
        None => {},
    }
    match tracker.ensure_live("the SessionStart hook") {
        Ok(()) => {},
        Err(detail) => {
            return StartLook::Fail(Failure::new("session_start", 35, detail.as_str()));
        },
    }
    let due = match since_enter_ns {
        Some(ns) => ns >= TRUST_DIALOG_RETRY,
        None => true,
    };
    if enters_sent < TRUST_DIALOG_MAX_ENTERS && due && dialog {
        StartLook::Press
    } else {
        StartLook::Watch
    }
}

/// Why a session that did not start in time failed, once the time is up.
pub fn start_timeout(tracker: &OutputTracker, enters_sent: u32, waited_ns: u64) -> (failure: Option<
    Failure,
>)
    ensures
        match failure {
            Some(f) => waited_ns >= SESSION_START_TIMEOUT && f.says(
                "session_start"@,
                35,
                "SessionStart hook not observed within "@ + decimal(60) + "s ("@ + decimal(
                    enters_sent as nat,
                )
                    + " Enter(s) sent at a pre-session screen). If the CLI is showing first-run onboarding rather than the workspace-trust dialog, this is where it stalls. Screen tail: '"@
                    + last_chars(stripped(tracker.window()), 300) + "'"@,
            ),
            None => waited_ns < SESSION_START_TIMEOUT,
        },
{
    if waited_ns < SESSION_START_TIMEOUT {
        return None;
    }
    let mut text = "SessionStart hook not observed within ".to_owned();
    push_u64(&mut text, SESSION_START_TIMEOUT / 1_000_000_000);
    text.append("s (");
    push_u64(&mut text, enters_sent as u64);
    text.append(
        " Enter(s) sent at a pre-session screen). If the CLI is showing first-run onboarding rather than the workspace-trust dialog, this is where it stalls. Screen tail: '",
    );
    text.append(tracker.screen_tail(300).as_str());
    text.append("'");
    Some(Failure::new("session_start", 35, text.as_str()))
}

/// What is said of a first token that did not come in time.
pub fn first_token_failure(detail: &str, queries_answered: u32) -> (failure: Failure)
    ensures
        failure.says(
            "first_token"@,
            34,
            detail@ + "; cursor-position queries answered so far: "@ + decimal(
                queries_answered as nat,
            )
                + " (an unanswered query would stall the child before its first paint \u{2014} the reader always replies, so a timeout here is genuine first-paint latency)"@,
        ),
{
    let mut text = detail.to_owned();
    text.append("; cursor-position queries answered so far: ");
    push_u64(&mut text, queries_answered as u64);
    text.append(
        " (an unanswered query would stall the child before its first paint \u{2014} the reader always replies, so a timeout here is genuine first-paint latency)",
    );
    Failure::new("first_token", 34, text.as_str())
}

/// Whether the session that started is the one that was launched.
pub fn check_session_id(session_start: &Json, session_id: &str) -> (r: Result<(), Failure>)
    ensures
        ({
            let advertised = match text_field(session_start@, "session_id"@) {
                Some(id) => id,
                None => "<missing>"@,
            };
            match r {
                Ok(()) => advertised == session_id@,
                Err(failure) => advertised != session_id@ && failure.says(
                    "session_start"@,
                    35,
                    "SessionStart carries session_id "@ + advertised
                        + ", but the launch preset "@ + session_id@,
                ),
            }
        }),
{
    let advertised = match session_start.get_text("session_id") {
        Some(id) => id,
        None => "<missing>",
    };
    if same_text(advertised, session_id) {
        return Ok(());
    }
    let mut text = "SessionStart carries session_id ".to_owned();
    text.append(advertised);
    text.append(", but the launch preset ");
    text.append(session_id);
    Err(Failure::new("session_start", 35, text.as_str()))
}

/// The transcript that the start of a session advertises.
pub fn advertised_transcript(session_start: &Json) -> (r: Result<String, Failure>)
    ensures
        match text_field(session_start@, "transcript_path"@) {
            Some(path) => r matches Ok(text) && text@ == path,
            None => r matches Err(failure) && failure.says(
                "transcript_path"@,
                37,
                "SessionStart payload carries no transcript_path: "@ + compact(session_start@),
            ),
        },
{
    match session_start.get_text("transcript_path") {
        Some(path) => Ok(path.to_owned()),
        None => {
            let mut text = "SessionStart payload carries no transcript_path: ".to_owned();
            text.append(session_start.to_text().as_str());
            Err(Failure::new("transcript_path", 37, text.as_str()))
        },
    }
}

/// The transcript of the latest start of a session. Clearing a session starts a
/// new transcript, so the one to keep is what the latest start names.
pub open spec fn latest_transcript_view(
    events: Seq<HookEventView>,
    fallback: Seq<char>,
) -> Seq<char>
    decreases events.len(),
{
    if events.len() == 0 {
        fallback
    } else if events.last().name == "SessionStart"@ {
        match text_field(events.last().payload, "transcript_path"@) {
            Some(path) => path,
            None => fallback,
        }
    } else {
        latest_transcript_view(events.drop_last(), fallback)
    }
}

impl HookLog {
    /// The transcript of the latest start of a session.
    pub fn latest_transcript(&self, fallback: &str) -> (path: String)
        ensures
            path@ == latest_transcript_view(self@, fallback@),
    {
        let mut i: usize = self.events.len();
        assert(self@.take(i as int) =~= self@);
        while i > 0
            invariant
                i <= self@.len(),
                self@.len() == self.events@.len(),
                latest_transcript_view(self@, fallback@) == latest_transcript_view(
                    self@.take(i as int),
                    fallback@,
                ),
            decreases i,
        {
            let event = &self.events[i - 1];
            assert(event@ == self@[i - 1]);
            assert(self@.take(i as int).drop_last() =~= self@.take(i - 1));
            if same_text(event.name.as_str(), "SessionStart") {
                return match event.payload.get_text("transcript_path") {
                    Some(path) => path.to_owned(),
                    None => fallback.to_owned(),
                };
            }
            i -= 1;
        }
        fallback.to_owned()
    }
}

/// What a look at a transcript comes to.
#[derive(Debug)]
pub enum GrowthLook {
    Grown,
    Wait,
    Fail(String),
}

/// One look at whether a transcript grew. One that stopped growing because the
/// CLI died is a different finding from one that the CLI never wrote.
pub fn transcript_look(
    tracker: &OutputTracker,
    path: &str,
    baseline: u64,
    size: u64,
    waited_ns: u64,
) -> (look: GrowthLook)
    ensures
        match look {
            GrowthLook::Grown => size > baseline,
            GrowthLook::Wait => size <= baseline && waited_ns < TRANSCRIPT_TIMEOUT
                && tracker.ended() is None,
            GrowthLook::Fail(text) => size <= baseline && if waited_ns >= TRANSCRIPT_TIMEOUT {
                text@ == "transcript at "@ + path@ + " did not grow past "@ + decimal(
                    baseline as nat,
                ) + " bytes within "@ + decimal(15)
                    + "s of the turn \u{2014} the content channel is dead (nested-session markers leaked?)"@
            } else {
                tracker.ended() matches Some(reason) && text@ == "the child's output stream ended ("@
                    + reason + ") while waiting for "@ + "the transcript to grow"@
                    + " \u{2014} the process is gone, not merely quiet"@
            },
        },
{
    if size > baseline {
        return GrowthLook::Grown;
    }
    if waited_ns >= TRANSCRIPT_TIMEOUT {
        let mut text = "transcript at ".to_owned();
        text.append(path);
        text.append(" did not grow past ");
        push_u64(&mut text, baseline);
        text.append(" bytes within ");
        push_u64(&mut text, TRANSCRIPT_TIMEOUT / 1_000_000_000);
        text.append(
            "s of the turn \u{2014} the content channel is dead (nested-session markers leaked?)",
        );
        return GrowthLook::Fail(text);
    }
    match tracker.ensure_live("the transcript to grow") {
        Ok(()) => GrowthLook::Wait,
        Err(text) => GrowthLook::Fail(text),
    }
}

/// What a shutdown comes to. The shutdown's own failure is the more informative
/// one: a cleanup failure surfaces only where the shutdown was fine.
pub fn finish_outcome(graceful: Result<(), Failure>, cleanup: Result<(), Failure>) -> (r: Result<
    (),
    Failure,
>)
    ensures
        r == match graceful {
            Ok(()) => cleanup,
            Err(failure) => Err(failure),
        },
{
    match graceful {
        Ok(()) => cleanup,
        Err(failure) => Err(failure),
    }
}

/// What is said of a child that was killed because a step failed.
pub fn forced_exit_note(step: &str, abandoned: bool, killed: &str) -> (text: String)
    ensures
        text@ == "step "@ + step@ + if abandoned {
            " failed, so the session was abandoned rather than exited: "@
        } else {
            " failed, so the child was killed rather than exited: "@
        } + killed@,
{
    let mut text = "step ".to_owned();
    text.append(step);
    if abandoned {
        text.append(" failed, so the session was abandoned rather than exited: ");
    } else {
        text.append(" failed, so the child was killed rather than exited: ");
    }
    text.append(killed);
    text
}

/// What became of a session's work directory.
#[derive(Debug)]
pub enum WorkdirFate {
    Kept,
    Removed,
    Left { error: String },
}

/// What a teardown says of the work directory.
pub fn workdir_note(fate: &WorkdirFate, workdir: &str) -> (text: String)
    ensures
        text@ == match *fate {
            WorkdirFate::Kept => "; workdir kept at "@ + workdir@,
            WorkdirFate::Removed => "; workdir removed"@,
            WorkdirFate::Left { error } => "; workdir removal failed (left at "@ + workdir@
                + "): "@ + error@,
        },
{
    match fate {
        WorkdirFate::Kept => {
            let mut text = "; workdir kept at ".to_owned();
            text.append(workdir);
            text
        },
        WorkdirFate::Removed => "; workdir removed".to_owned(),
        WorkdirFate::Left { error } => {
            let mut text = "; workdir removal failed (left at ".to_owned();
            text.append(workdir);
            text.append("): ");
            text.append(error.as_str());
            text
        },
    }
}

/// A truth value as a detail shows it.
pub open spec fn bool_text(b: bool) -> Seq<char> {
    if b {
        "true"@
    } else {
        "false"@
    }
}

fn bool_word(b: bool) -> (word: &'static str)
    ensures
        word@ == bool_text(b),
{
    if b {
        "true"
    } else {
        "false"
    }
}

/// A measured interval as a detail shows it.
pub open spec fn interval_text(ns: Option<u64>) -> Seq<char> {
    match ns {
        Some(ns) => decimal((ns / 1_000_000) as nat) + "ms"@,
        None => "unmeasured"@,
    }
}

/// A measured interval as a detail shows it.
pub fn interval(ns: Option<u64>) -> (text: String)
    ensures
        text@ == interval_text(ns),
{
    match ns {
        Some(ns) => {
            let mut text = String::new();
            push_u64(&mut text, ns / 1_000_000);
            assert(text@ =~= decimal((ns / 1_000_000) as nat));
            text.append("ms");
            text
        },
        None => "unmeasured".to_owned(),
    }
}

/// What a first token in time reports.
pub fn first_token_detail(latency_ns: u64, budget_ms: u64) -> (text: String)
    ensures
        text@ == "first output byte "@ + decimal((latency_ns / 1_000_000) as nat)
            + "ms after spawn (budget "@ + decimal(budget_ms as nat) + "ms)"@,
{
    let mut text = "first output byte ".to_owned();
    push_u64(&mut text, latency_ns / 1_000_000);
    text.append("ms after spawn (budget ");
    push_u64(&mut text, budget_ms);
    text.append("ms)");
    text
}

/// What a started session reports.
pub fn session_start_detail(trust_driven: bool) -> (text: String)
    ensures
        text@
            == "SessionStart over the hook channel; preset --session-id honored; trust dialog driven from the screen: "@
            + bool_text(trust_driven),
{
    let mut text =
        "SessionStart over the hook channel; preset --session-id honored; trust dialog driven from the screen: ".to_owned();
    text.append(bool_word(trust_driven));
    text
}

/// What an advertised transcript reports.
pub fn transcript_path_detail(path: &str, baseline: u64) -> (text: String)
    ensures
        text@ == "SessionStart advertises "@ + path@ + " ("@ + if baseline > 0 {
            decimal(baseline as nat) + " bytes already"@
        } else {
            "not written yet"@
        } + "); liveness asserted after the prompt turn"@,
{
    let mut text = "SessionStart advertises ".to_owned();
    text.append(path);
    text.append(" (");
    let ghost head = text@;
    if baseline > 0 {
        push_u64(&mut text, baseline);
        text.append(" bytes already");
        assert(text@ =~= head + (decimal(baseline as nat) + " bytes already"@));
    } else {
        text.append("not written yet");
    }
    text.append("); liveness asserted after the prompt turn");
    text
}

/// What a completed prompt turn reports.
pub fn prompt_turn_detail(turn: &Turn, after_submit_ns: Option<u64>) -> (text: String)
    ensures
        text@ == "turn completed in "@ + decimal((turn.duration / 1_000_000) as nat)
            + "ms (Stop observed); first output after Enter in "@ + interval_text(after_submit_ns)
            + " \u{2014} that is the TUI repainting its composer, not the model's first token; turn hooks: ["@
            + joined(hook_names_view(turn.hooks@), ", "@) + "]"@,
{
    let mut text = "turn completed in ".to_owned();
    push_u64(&mut text, turn.duration / 1_000_000);
    text.append("ms (Stop observed); first output after Enter in ");
    text.append(interval(after_submit_ns).as_str());
    text.append(
        " \u{2014} that is the TUI repainting its composer, not the model's first token; turn hooks: [",
    );
    text.append(join(&turn.hook_names(), ", ").as_str());
    text.append("]");
    text
}

/// What a transcript that grew reports.
pub fn growth_detail(path: &str, baseline: u64, grown: u64) -> (text: String)
    ensures
        text@ == path@ + " grew "@ + decimal(baseline as nat) + " -> "@ + decimal(grown as nat)
            + " bytes across the turn"@,
{
    let mut text = path.to_owned();
    text.append(" grew ");
    push_u64(&mut text, baseline);
    text.append(" -> ");
    push_u64(&mut text, grown);
    text.append(" bytes across the turn");
    text
}

/// What a probed session reports at its end.
pub fn probe_report(
    cli_version: &str,
    session_id: &str,
    launch_ns: Option<u64>,
    after_submit_ns: Option<u64>,
    turn_ns: u64,
    trust_driven: bool,
    queries_answered: u32,
) -> (text: String)
    ensures
        text@ == "cli="@ + cli_version@ + " session="@ + session_id@ + " first_token_launch="@
            + interval_text(launch_ns) + " first_output_after_submit="@ + interval_text(
            after_submit_ns,
        ) + " turn_ms="@ + decimal((turn_ns / 1_000_000) as nat) + " trust_dialog="@ + bool_text(
            trust_driven,
        ) + " cursor_queries_answered="@ + decimal(queries_answered as nat),
{
    let mut text = "cli=".to_owned();
    text.append(cli_version);
    text.append(" session=");
    text.append(session_id);
    text.append(" first_token_launch=");
    text.append(interval(launch_ns).as_str());
    text.append(" first_output_after_submit=");
    text.append(interval(after_submit_ns).as_str());
    text.append(" turn_ms=");
    push_u64(&mut text, turn_ns / 1_000_000);
    text.append(" trust_dialog=");
    text.append(bool_word(trust_driven));
    text.append(" cursor_queries_answered=");
    push_u64(&mut text, queries_answered as u64);
    text
}

/// A step of a live session that performs something outside.
#[derive(Clone, Copy, PartialEq, Eq, Debug, Structural)]
pub enum LiveStep {
    /// Answer the trust dialog.
    TrustDialog,
    /// Wait while the session starts.
    SessionStart,
    /// Read the child's environment back.
    EnvHygiene,
    /// Drive a prompt turn.
    PromptTurn,
    /// Wait for the transcript to grow.
    TranscriptLiveness,
    /// Type the exit command.
    TypeExit,
    /// Wait for the session to end.
    SessionEnd,
    /// Wait for the child to exit.
    ChildExit,
    /// Finalize the capture.
    Capture,
    /// Close the terminal.
    Teardown,
}

/// The name and exit code of a failed step, and what leads its error.
pub open spec fn live_fault(step: LiveStep) -> (Seq<char>, int, Seq<char>) {
    match step {
        LiveStep::TrustDialog => ("session_start"@, 35, "answering the trust dialog failed: "@),
        LiveStep::SessionStart => ("session_start"@, 35, Seq::empty()),
        LiveStep::EnvHygiene => ("env_hygiene"@, 36, Seq::empty()),
        LiveStep::PromptTurn => ("prompt_turn"@, 38, Seq::empty()),
        LiveStep::TranscriptLiveness => ("transcript_liveness"@, 39, Seq::empty()),
        LiveStep::TypeExit => ("exit"@, 40, "typing /exit failed: "@),
        LiveStep::SessionEnd => ("exit"@, 40, Seq::empty()),
        LiveStep::ChildExit => ("child_exit"@, 41, Seq::empty()),
        LiveStep::Capture => ("capture"@, 42, "finalizing the capture failed: "@),
        LiveStep::Teardown => ("teardown"@, 43, Seq::empty()),
    }
}

/// The failure of a step that performs something outside.
pub fn live_failure(step: LiveStep, error: &str) -> (failure: Failure)
    ensures
        failure.says(live_fault(step).0, live_fault(step).1, live_fault(step).2 + error@),
{
    let (name, code): (&'static str, i32) = match step {
        LiveStep::TrustDialog => ("session_start", 35),
        LiveStep::SessionStart => ("session_start", 35),
        LiveStep::EnvHygiene => ("env_hygiene", 36),
        LiveStep::PromptTurn => ("prompt_turn", 38),
        LiveStep::TranscriptLiveness => ("transcript_liveness", 39),
        LiveStep::TypeExit => ("exit", 40),
        LiveStep::SessionEnd => ("exit", 40),
        LiveStep::ChildExit => ("child_exit", 41),
        LiveStep::Capture => ("capture", 42),
        LiveStep::Teardown => ("teardown", 43),
    };
    let mut text = match step {
        LiveStep::TrustDialog => "answering the trust dialog failed: ".to_owned(),
        LiveStep::TypeExit => "typing /exit failed: ".to_owned(),
        LiveStep::Capture => "finalizing the capture failed: ".to_owned(),
        _ => String::new(),
    };
    text.append(error);
    assert(text@ =~= live_fault(step).2 + error@);
    Failure::new(name, code, text.as_str())
}

/// What a finalized capture reports.
pub fn capture_detail(path: &str, chunks: u64, bytes: u64, with_meta: bool) -> (text: String)
    ensures
        text@ == path@ + " ("@ + decimal(chunks as nat) + " chunks, "@ + decimal(bytes as nat) + if with_meta {
            " bytes) + meta side file"@
        } else {
            " bytes)"@
        },
{
    let mut text = path.to_owned();
    text.append(" (");
    push_u64(&mut text, chunks);
    text.append(" chunks, ");
    push_u64(&mut text, bytes);
    if with_meta {
        text.append(" bytes) + meta side file");
    } else {
        text.append(" bytes)");
    }
    text
}

/// Each wait consumes hooks in order of arrival: a wait that scans from just past
/// the hook that another matched never matches that hook again, and what it
/// matches came later.
pub proof fn law_a_hook_is_matched_once(
    events: Seq<HookEventView>,
    mark: int,
    name: Seq<char>,
    filter: HookFilter,
    at: int,
    next_name: Seq<char>,
    next_filter: HookFilter,
    next: int,
)
    requires
        first_awaited(events, mark, name, filter, at),
        first_awaited(events, at + 1, next_name, next_filter, next),
    ensures
        mark <= at < next < events.len(),
{
}

/// A hook that a wait matched stays the one that it matches as more hooks arrive.
pub proof fn law_a_match_outlives_later_hooks(
    events: Seq<HookEventView>,
    later: Seq<HookEventView>,
    mark: int,
    name: Seq<char>,
    filter: HookFilter,
    at: int,
)
    requires
        0 <= mark,
        first_awaited(events, mark, name, filter, at),
    ensures
        first_awaited(events + later, mark, name, filter, at),
{
    assert((events + later)[at] == events[at]);
    assert forall|j: int| mark <= j < at implies !awaited_hook(
        #[trigger] (events + later)[j],
        name,
        filter,
    ) by {
        assert((events + later)[j] == events[j]);
    }
}

/// The transcript is the one that the last start of a session names, whatever came
/// behind it; without one that names any, it is the fallback.
pub proof fn law_the_latest_start_names_the_transcript(
    events: Seq<HookEventView>,
    fallback: Seq<char>,
    k: int,
)
    requires
        0 <= k < events.len(),
        events[k].name == "SessionStart"@,
        forall|j: int| k < j < events.len() ==> (#[trigger] events[j]).name != "SessionStart"@,
    ensures
        text_field(events[k].payload, "transcript_path"@) matches Some(path)
            ==> latest_transcript_view(events, fallback) == path,
        text_field(events[k].payload, "transcript_path"@) is None ==> latest_transcript_view(
            events,
            fallback,
        ) == fallback,
    decreases events.len(),
{
    if k < events.len() - 1 {
        assert(events[events.len() - 1].name != "SessionStart"@);
        law_the_latest_start_names_the_transcript(events.drop_last(), fallback, k);
    }
}

/// Where no session started, the transcript is the fallback.
pub proof fn law_without_a_start_the_transcript_is_the_fallback(
    events: Seq<HookEventView>,
    fallback: Seq<char>,
)
    requires
        forall|j: int| 0 <= j < events.len() ==> (#[trigger] events[j]).name != "SessionStart"@,
    ensures
        latest_transcript_view(events, fallback) == fallback,
    decreases events.len(),
{
    if events.len() > 0 {
        assert(events[events.len() - 1].name != "SessionStart"@);
        let front = events.drop_last();
        assert forall|j: int| 0 <= j < front.len() implies (#[trigger] front[j]).name
            != "SessionStart"@ by {
            assert(front[j] == events[j]);
        }
        law_without_a_start_the_transcript_is_the_fallback(front, fallback);
    }
}

/// A wait matches the earliest hook of its name from its mark on; for a
/// permission, the earliest whose type or message speaks of one. There is such a
/// hook or there is none.
pub proof fn law_a_wait_matches_the_earliest_hook(
    events: Seq<HookEventView>,
    mark: int,
    name: Seq<char>,
    filter: HookFilter,
    k: int,
)
    requires
        0 <= mark <= k < events.len(),
        events[k].name == name,
        filter == HookFilter::Permission ==> exists|f: Seq<char>|
            (f == "notification_type"@ || f == "message"@) && (#[trigger] text_field(
                events[k].payload,
                f,
            ) matches Some(text) && occurs(lowered(text), "permission"@)),
    ensures
        !none_awaited(events, mark, name, filter),
        forall|at: int| #[trigger]
            first_awaited(events, mark, name, filter, at) ==> mark <= at <= k && events[at].name
                == name,
        exists|at: int| #[trigger] first_awaited(events, mark, name, filter, at),
    decreases k - mark,
{
    assert(awaited_hook(events[k], name, filter));
    if forall|j: int| mark <= j < k ==> !awaited_hook(#[trigger] events[j], name, filter) {
        assert(first_awaited(events, mark, name, filter, k));
    } else {
        let j = choose|j: int| mark <= j < k && awaited_hook(#[trigger] events[j], name, filter);
        lemma_some_first(events, mark, name, filter, j);
    }
}

proof fn lemma_some_first(
    events: Seq<HookEventView>,
    mark: int,
    name: Seq<char>,
    filter: HookFilter,
    k: int,
)
    requires
        0 <= mark <= k < events.len(),
        awaited_hook(events[k], name, filter),
    ensures
        exists|at: int| #[trigger] first_awaited(events, mark, name, filter, at),
    decreases k - mark,
{
    if forall|j: int| mark <= j < k ==> !awaited_hook(#[trigger] events[j], name, filter) {
        assert(first_awaited(events, mark, name, filter, k));
    } else {
        let j = choose|j: int| mark <= j < k && awaited_hook(#[trigger] events[j], name, filter);
        lemma_some_first(events, mark, name, filter, j);
    }
}

/// A hook that says nothing of a permission, or has another name, is no match.
pub proof fn law_only_the_named_hook_matches(
    event: HookEventView,
    name: Seq<char>,
    filter: HookFilter,
)
    ensures
        awaited_hook(event, name, filter) ==> event.name == name,
        awaited_hook(event, name, HookFilter::Any) <==> event.name == name,
        awaited_hook(event, name, HookFilter::Permission) ==> (text_field(
            event.payload,
            "notification_type"@,
        ) matches Some(text) && occurs(lowered(text), "permission"@)) || (text_field(
            event.payload,
            "message"@,
        ) matches Some(text) && occurs(lowered(text), "permission"@)),
{
}

/// A screen awaits a key when it speaks of trust or asks for Enter.
pub proof fn law_a_dialog_is_known_by_its_words(screen: Seq<char>)
    ensures
        occurs(screen, "trust"@) ==> dialog_shown(screen),
        occurs(screen, "yes, proceed"@) ==> dialog_shown(screen),
        occurs(screen, "press enter"@) ==> dialog_shown(screen),
        dialog_shown(screen) ==> occurs(screen, "trust"@) || occurs(screen, "yes, proceed"@)
            || occurs(screen, "do you trust"@) || occurs(screen, "press enter"@),
{
}

/// A session is launched under the given identifier with the given settings, and
/// with a model where one is asked for.
pub proof fn law_a_launch_names_its_session(
    session_id: Seq<char>,
    settings: Seq<char>,
    model: Seq<char>,
)
    ensures
        launch_args_view(session_id, settings, None) == seq![
            "--session-id"@,
            session_id,
            "--settings"@,
            settings,
        ],
        launch_args_view(session_id, settings, Some(model)) == launch_args_view(
            session_id,
            settings,
            None,
        ) + seq!["--model"@, model],
{
    assert(launch_args_view(session_id, settings, Some(model)) =~= launch_args_view(
        session_id,
        settings,
        None,
    ) + seq!["--model"@, model]);
}

/// A failed step is named by what it serves, and no two things served share an
/// exit code.
pub proof fn law_an_exit_code_names_its_step(a: LiveStep, b: LiveStep)
    ensures
        live_fault(a).1 == live_fault(b).1 <==> live_fault(a).0 == live_fault(b).0,
        35 <= live_fault(a).1 <= 43,
        live_fault(LiveStep::TrustDialog).1 == 35 && live_fault(LiveStep::SessionStart).1 == 35,
        live_fault(LiveStep::EnvHygiene).1 == 36,
        live_fault(LiveStep::PromptTurn).1 == 38,
        live_fault(LiveStep::TranscriptLiveness).1 == 39,
        live_fault(LiveStep::TypeExit).1 == 40 && live_fault(LiveStep::SessionEnd).1 == 40,
        live_fault(LiveStep::ChildExit).1 == 41,
        live_fault(LiveStep::Capture).1 == 42,
        live_fault(LiveStep::Teardown).1 == 43,
{
    reveal_strlit("session_start");
    reveal_strlit("env_hygiene");
    reveal_strlit("prompt_turn");
    reveal_strlit("transcript_liveness");
    reveal_strlit("exit");
    reveal_strlit("child_exit");
    reveal_strlit("capture");
    reveal_strlit("teardown");
    assert("session_start"@[0] == 's' && "env_hygiene"@[0] == 'e' && "prompt_turn"@[0] == 'p');
    assert("transcript_liveness"@[1] == 'r' && "teardown"@[1] == 'e' && "exit"@[0] == 'e');
    assert("child_exit"@[1] == 'h' && "capture"@[1] == 'a');
    assert("env_hygiene"@.len() != "exit"@.len());
    assert("transcript_liveness"@.len() != "teardown"@.len());
}

/// A transcript has grown exactly when it is longer than it was, and failed exactly
/// when it is not and fifteen seconds are over or the stream has ended.
pub proof fn law_a_transcript_grows_or_fails(
    tracker: OutputTracker,
    path: &str,
    baseline: u64,
    size: u64,
    waited_ns: u64,
    look: GrowthLook,
)
    requires
        call_ensures(transcript_look, (&tracker, path, baseline, size, waited_ns), look),
    ensures
        look is Grown <==> size > baseline,
        look is Fail <==> size <= baseline && (waited_ns >= 15_000_000_000 || tracker.closing()
            is Some),
{
}

/// A starting session has started at its first `SessionStart`. Until then an ended
/// stream fails it, and Enter is pressed exactly when a dialog shows, fewer than
/// five were sent, and none within the last four seconds.
pub proof fn law_enter_is_pressed_at_a_dialog_alone(
    log: HookLog,
    tracker: OutputTracker,
    enters_sent: u32,
    since_enter_ns: Option<u64>,
    dialog: bool,
    look: StartLook,
)
    requires
        call_ensures(start_look, (&log, &tracker, enters_sent, since_enter_ns, dialog), look),
    ensures
        look is Started <==> exists|i: int|
            0 <= i < log@.len() && (#[trigger] log@[i]).name == "SessionStart"@,
        look matches StartLook::Started(at) ==> log@[at as int].name == "SessionStart"@
            && forall|i: int| 0 <= i < at ==> (#[trigger] log@[i]).name != "SessionStart"@,
        look is Fail <==> !(look is Started) && tracker.closing() is Some,
        look is Press <==> !(look is Started) && tracker.closing() is None && dialog && enters_sent
            < 5 && (since_enter_ns matches Some(ns) ==> ns >= 4_000_000_000),
{
    if exists|i: int| 0 <= i < log@.len() && (#[trigger] log@[i]).name == "SessionStart"@ {
        let i = choose|i: int| 0 <= i < log@.len() && (#[trigger] log@[i]).name == "SessionStart"@;
        law_a_wait_matches_the_earliest_hook(log@, 0, "SessionStart"@, HookFilter::Any, i);
    }
    assert forall|i: int| 0 <= i < log@.len() implies ((#[trigger] log@[i]).name
        == "SessionStart"@) == awaited_hook(log@[i], "SessionStart"@, HookFilter::Any) by {}
}

/// A wait for a hook gives up exactly when none that matches came since the mark
/// and the time is up, whether or not the stream has ended.
pub proof fn law_a_hook_is_waited_for_to_the_end(
    log: HookLog,
    tracker: OutputTracker,
    name: &str,
    filter: HookFilter,
    mark: usize,
    waited_ns: u64,
    timeout_ns: u128,
    w: HookWait,
)
    requires
        mark <= log@.len(),
        call_ensures(
            HookLog::wait_for_hook,
            (&log, &tracker, name, filter, mark, waited_ns, timeout_ns),
            w,
        ),
    ensures
        w matches HookWait::Seen(at) ==> mark <= at < log@.len() && log@[at as int].name == name@,
        !(w is Seen) ==> forall|i: int|
            mark <= i < log@.len() ==> !awaited_hook(#[trigger] log@[i], name@, filter),
        w is Fail <==> !(w is Seen) && waited_ns >= timeout_ns,
{
}

/// A session that has not started fails exactly when a minute is over.
pub proof fn law_a_start_is_given_a_minute(
    tracker: OutputTracker,
    enters_sent: u32,
    waited_ns: u64,
    failure: Option<Failure>,
)
    requires
        call_ensures(start_timeout, (&tracker, enters_sent, waited_ns), failure),
    ensures
        failure is Some <==> waited_ns >= 60_000_000_000,
        failure matches Some(f) ==> f.code == 35,
{
}

/// The session that started is accepted exactly when it names the identifier that
/// it was launched under; one that names none is not.
pub proof fn law_only_the_launched_session_is_accepted(
    session_start: Json,
    session_id: &str,
    r: Result<(), Failure>,
)
    requires
        call_ensures(check_session_id, (&session_start, session_id), r),
        session_id@ != "<missing>"@,
    ensures
        r is Ok <==> text_field(session_start@, "session_id"@) == Some(session_id@),
        r matches Err(f) ==> f.code == 35,
{
}

/// A shutdown is in order exactly when it was graceful and its cleanup was in
/// order; what it failed at first is what it fails with.
pub proof fn law_a_shutdown_fails_with_its_first_failure(
    graceful: Result<(), Failure>,
    cleanup: Result<(), Failure>,
    r: Result<(), Failure>,
)
    requires
        call_ensures(finish_outcome, (graceful, cleanup), r),
    ensures
        r is Ok <==> graceful is Ok && cleanup is Ok,
        graceful is Err ==> r->Err_0 == graceful->Err_0,
        graceful is Ok && cleanup is Err ==> r->Err_0 == cleanup->Err_0,
{
}

/// An interval is shown in the whole milliseconds that it holds.
pub proof fn law_an_interval_is_shown_in_milliseconds(ns: u64, ms: nat)
    requires
        ms * 1_000_000 <= ns < (ms + 1) * 1_000_000,
    ensures
        interval_text(Some(ns)) == decimal(ms) + "ms"@,
        interval_text(None) == "unmeasured"@,
{
}

} // verus!
