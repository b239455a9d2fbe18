//! The four-point verification of the hook channel: hooks fire and reach the
//! listener; the allow, deny and ask round-trips behave as designed; the
//! transcript is written; and a Ctrl+C byte interrupts generation without
//! killing the session.
//!
//! Each point reports green or red on its own, and a red one is a recorded
//! finding. Assertions are by the shape of events, never by what a model says.
use vstd::prelude::*;
use vstd::string::*;

use crate::failure::Failure;
use crate::hooks::Decision;
use crate::pty::OutputTracker;
use crate::report::{lemma_texts_push, texts};
use crate::rig::TRANSCRIPT_TIMEOUT;
use crate::text::{decimal, join, joined, push_u64, push_usize, same_text};

verus! {

/// The byte that interrupts: Ctrl+C.
pub const CTRL_C: u8 = 0x03;

/// The byte that dismisses the permission dialog: Escape.
pub const ESCAPE: u8 = 0x1b;

/// How long the long task may stream before it is interrupted.
pub const GENERATION_WARMUP: u64 = 2_500_000_000;

/// Silence this long counts as a stopped generation.
pub const INTERRUPT_QUIET_FOR: u128 = 1_500_000_000;

/// How long the interrupt gets to take effect.
pub const INTERRUPT_TIMEOUT: u128 = 20_000_000_000;

/// How long the ask decision gets to raise the permission dialog.
pub const ASK_DIALOG_TIMEOUT: u128 = 60_000_000_000;

/// How long the session must be silent after the dialog is dismissed.
pub const DISMISS_QUIET_FOR: u128 = 750_000_000;

/// What the capture of a four-point run is labelled with.
pub const SCENARIO: &'static str =
    "four-point hook-channel verification: allow/deny/ask round-trip + Ctrl+C interrupt";

/// The console that a run is exercised on.
pub open spec fn console_text(windows: bool) -> Seq<char> {
    if windows {
        "ConPTY"@
    } else {
        "tty"@
    }
}

/// The transport of the hook channel.
pub open spec fn transport_text(windows: bool) -> Seq<char> {
    if windows {
        "named pipe"@
    } else {
        "unix domain socket"@
    }
}

/// The console that a run is exercised on.
pub fn console(windows: bool) -> (name: &'static str)
    ensures
        name@ == console_text(windows),
{
    if windows {
        "ConPTY"
    } else {
        "tty"
    }
}

/// The transport of the hook channel.
pub fn transport(windows: bool) -> (name: &'static str)
    ensures
        name@ == transport_text(windows),
{
    if windows {
        "named pipe"
    } else {
        "unix domain socket"
    }
}

/// One point's outcome. A red one is data, not a panic.
#[derive(Debug)]
pub enum PointOutcome {
    Green(String),
    Red(String),
}

impl PointOutcome {
    /// The outcome's word.
    pub fn status(&self) -> (word: &'static str)
        ensures
            word@ == if self is Green {
                "green"@
            } else {
                "red"@
            },
    {
        match self {
            PointOutcome::Green(_) => "green",
            PointOutcome::Red(_) => "red",
        }
    }

    /// What the outcome says.
    pub open spec fn said(&self) -> Seq<char> {
        match *self {
            PointOutcome::Green(detail) => detail@,
            PointOutcome::Red(detail) => detail@,
        }
    }

    /// What the outcome says.
    pub fn detail(&self) -> (text: &str)
        ensures
            text@ == self.said(),
    {
        match self {
            PointOutcome::Green(detail) => detail.as_str(),
            PointOutcome::Red(detail) => detail.as_str(),
        }
    }
}

/// Where a run takes place.
pub fn venue(windows: bool, os: &str) -> (text: String)
    ensures
        text@ == "console="@ + console_text(windows) + " hook-transport=\u{2018}"@ + transport_text(
            windows,
        ) + "\u{2019} os="@ + os@ + if windows {
            " \u{2014} this is the run that matters; confirm the host is Windows 11 client, not Server"@
        } else {
            " \u{2014} this is the POSIX baseline point 2's parity claim compares against"@
        },
{
    let mut text = "console=".to_owned();
    text.append(console(windows));
    text.append(" hook-transport=\u{2018}");
    text.append(transport(windows));
    text.append("\u{2019} os=");
    text.append(os);
    if windows {
        text.append(
            " \u{2014} this is the run that matters; confirm the host is Windows 11 client, not Server",
        );
    } else {
        text.append(" \u{2014} this is the POSIX baseline point 2's parity claim compares against");
    }
    text
}

/// Point 1: hooks fired and reached the listener.
pub fn hooks_fire(payloads: usize, windows: bool) -> (outcome: PointOutcome)
    ensures
        match outcome {
            PointOutcome::Green(text) => payloads > 0 && text@ == decimal(payloads as nat)
                + " hook payload(s) reached the listener over the "@ + transport_text(windows)
                + " under "@ + console_text(windows) + " (incl. SessionStart)"@,
            PointOutcome::Red(text) => payloads == 0 && text@
                == "no hook payloads reached the listener over the "@ + transport_text(windows),
        },
{
    if payloads > 0 {
        let mut text = String::new();
        push_usize(&mut text, payloads);
        assert(text@ =~= decimal(payloads as nat));
        text.append(" hook payload(s) reached the listener over the ");
        text.append(transport(windows));
        text.append(" under ");
        text.append(console(windows));
        text.append(" (incl. SessionStart)");
        PointOutcome::Green(text)
    } else {
        let mut text = "no hook payloads reached the listener over the ".to_owned();
        text.append(transport(windows));
        PointOutcome::Red(text)
    }
}

/// The prompt of every approval turn: a trivial shell command.
pub fn tool_prompt(tag: &str) -> (prompt: String)
    ensures
        prompt@ == "Run this shell command and nothing else: echo "@ + tag@,
{
    let mut prompt = "Run this shell command and nothing else: echo ".to_owned();
    prompt.append(tag);
    prompt
}

/// Whether a list of names holds one.
pub open spec fn holds(names: Seq<Seq<char>>, name: Seq<char>) -> bool {
    exists|i: int| 0 <= i < names.len() && #[trigger] names[i] == name
}

/// Whether a list of names holds one.
fn has_name(names: &Vec<String>, name: &str) -> (yes: bool)
    ensures
        yes == holds(texts(names@), name@),
{
    let ghost all = texts(names@);
    let mut i: usize = 0;
    while i < names.len()
        invariant
            all == texts(names@),
            i <= names@.len(),
            forall|j: int| 0 <= j < i ==> #[trigger] all[j] != name@,
        decreases names@.len() - i,
    {
        assert(all[i as int] == names@[i as int]@);
        if same_text(names[i].as_str(), name) {
            return true;
        }
        i += 1;
    }
    false
}

/// A decision as a finding names it.
pub open spec fn decision_label(decision: Decision) -> Seq<char> {
    match decision {
        Decision::NoOpinion => "NoOpinion"@,
        Decision::Allow => "Allow"@,
        Decision::Deny => "Deny"@,
        Decision::Ask => "Ask"@,
    }
}

fn label_of(decision: Decision) -> (label: &'static str)
    ensures
        label@ == decision_label(decision),
{
    match decision {
        Decision::NoOpinion => "NoOpinion",
        Decision::Allow => "Allow",
        Decision::Deny => "Deny",
        Decision::Ask => "Ask",
    }
}

/// What a turn under a decision shows, by its hooks: the note to keep, or why
/// the point is red. An allowed tool runs, a denied one does not, and without a
/// hook before the tool the approver was never asked.
pub open spec fn turn_shows(decision: Decision, names: Seq<Seq<char>>, duration_ms: nat) -> Result<
    Seq<char>,
    Seq<char>,
> {
    let hooks = joined(names, ", "@);
    if !holds(names, "PreToolUse"@) {
        Err(
            decision_label(decision)
                + ": no PreToolUse hook fired, so the approver was never consulted; hooks: ["@
                + hooks + "]"@,
        )
    } else if decision == Decision::Allow && !holds(names, "PostToolUse"@) {
        Err(
            "allow: PreToolUse fired but no PostToolUse \u{2014} the approved tool never executed; hooks: ["@
                + hooks + "]"@,
        )
    } else if decision == Decision::Deny && holds(names, "PostToolUse"@) {
        Err(
            "deny: PostToolUse fired \u{2014} the denied tool executed anyway; hooks: ["@ + hooks
                + "]"@,
        )
    } else {
        Ok(
            decision_label(decision) + " \u{2192} ["@ + hooks + "] in "@ + decimal(duration_ms)
                + "ms"@,
        )
    }
}

/// What a turn under a decision shows.
pub fn judge_turn(decision: Decision, names: &Vec<String>, duration_ns: u64) -> (r: Result<
    String,
    String,
>)
    ensures
        match r {
            Ok(note) => turn_shows(
                decision,
                texts(names@),
                (duration_ns / 1_000_000) as nat,
            ) == Ok::<Seq<char>, Seq<char>>(note@),
            Err(text) => turn_shows(
                decision,
                texts(names@),
                (duration_ns / 1_000_000) as nat,
            ) == Err::<Seq<char>, Seq<char>>(text@),
        },
{
    let hooks = join(names, ", ");
    if !has_name(names, "PreToolUse") {
        let mut text = label_of(decision).to_owned();
        text.append(
            ": no PreToolUse hook fired, so the approver was never consulted; hooks: [",
        );
        text.append(hooks.as_str());
        text.append("]");
        return Err(text);
    }
    let executed = has_name(names, "PostToolUse");
    if decision == Decision::Allow && !executed {
        let mut text =
            "allow: PreToolUse fired but no PostToolUse \u{2014} the approved tool never executed; hooks: [".to_owned();
        text.append(hooks.as_str());
        text.append("]");
        return Err(text);
    }
    if decision == Decision::Deny && executed {
        let mut text =
            "deny: PostToolUse fired \u{2014} the denied tool executed anyway; hooks: [".to_owned();
        text.append(hooks.as_str());
        text.append("]");
        return Err(text);
    }
    let mut note = label_of(decision).to_owned();
    note.append(" \u{2192} [");
    note.append(hooks.as_str());
    note.append("] in ");
    push_u64(&mut note, duration_ns / 1_000_000);
    note.append("ms");
    Ok(note)
}

/// A point's judgement is by the event shape alone: an allowed tool passes only
/// where it ran, a denied one only where it did not.
pub proof fn law_a_decision_is_judged_by_its_events(
    decision: Decision,
    names: Seq<Seq<char>>,
    duration_ms: nat,
)
    ensures
        turn_shows(decision, names, duration_ms) is Ok ==> holds(names, "PreToolUse"@),
        turn_shows(Decision::Allow, names, duration_ms) is Ok <==> holds(names, "PreToolUse"@)
            && holds(names, "PostToolUse"@),
        turn_shows(Decision::Deny, names, duration_ms) is Ok <==> holds(names, "PreToolUse"@)
            && !holds(names, "PostToolUse"@),
{
}

/// Where the approval check stands.
#[derive(Clone, Copy, PartialEq, Eq, Debug, Structural)]
pub enum ParityStep {
    /// Drive a turn whose tool call is allowed.
    Allow,
    /// Drive a turn whose tool call is denied.
    Deny,
    /// Submit a prompt whose tool call is left to the dialog.
    Ask,
    /// Wait for the permission notification.
    Notice,
    /// Dismiss the dialog.
    Dismiss,
    /// Wait for the dismissal to land.
    Settle,
}

/// What performing a step of the approval check gave.
#[derive(Debug)]
pub enum ParityEvent {
    /// A turn or a wait completed, with these hooks.
    Done { names: Vec<String>, duration_ns: u64 },
    /// A write was performed, or the session went quiet.
    Performed,
    Failed { error: String },
}

/// What the approval check comes to.
#[derive(Debug)]
pub enum ParityMove {
    Next(ParityStep),
    Done(PointOutcome),
}

/// What a failed step makes of the point; `None` where it does not end it.
pub open spec fn parity_fault(step: ParityStep, error: Seq<char>) -> Option<Seq<char>> {
    match step {
        ParityStep::Allow => Some("Allow turn failed: "@ + error),
        ParityStep::Deny => Some("Deny turn failed: "@ + error),
        ParityStep::Ask => Some("ask: submitting the prompt failed: "@ + error),
        ParityStep::Notice => Some(
            "ask: no permission Notification \u{2014} the decision did not degrade to the CLI's dialog: "@
                + error,
        ),
        ParityStep::Dismiss => Some("ask: dismissing the dialog failed: "@ + error),
        ParityStep::Settle => None,
    }
}

/// What the point reports when it is green.
pub open spec fn parity_green(notes: Seq<Seq<char>>, windows: bool) -> Seq<char> {
    "allow/deny/ask round-trips completed over the "@ + transport_text(windows)
        + ", each asserted by hook shape: "@ + joined(notes, "; "@)
}

/// What a step of the approval check adds to the notes, or why the point is red;
/// `None` where the event does not answer the step.
pub open spec fn parity_shows(step: ParityStep, event: ParityEvent) -> Option<
    Result<Option<Seq<char>>, Seq<char>>,
> {
    match (step, event) {
        (_, ParityEvent::Failed { error }) => match parity_fault(step, error@) {
            Some(why) => Some(Err(why)),
            None => Some(Ok(Some("ask: session still noisy after Escape ("@ + error@ + ")"@))),
        },
        (ParityStep::Allow, ParityEvent::Done { names, duration_ns }) => match turn_shows(
            Decision::Allow,
            texts(names@),
            (duration_ns / 1_000_000) as nat,
        ) {
            Ok(note) => Some(Ok(Some(note))),
            Err(why) => Some(Err(why)),
        },
        (ParityStep::Deny, ParityEvent::Done { names, duration_ns }) => match turn_shows(
            Decision::Deny,
            texts(names@),
            (duration_ns / 1_000_000) as nat,
        ) {
            Ok(note) => Some(Ok(Some(note))),
            Err(why) => Some(Err(why)),
        },
        (ParityStep::Notice, ParityEvent::Done { names, .. }) => if holds(
            texts(names@),
            "PostToolUse"@,
        ) {
            Some(
                Err(
                    "ask: PostToolUse fired \u{2014} the tool ran without anyone approving it; hooks: ["@
                        + joined(texts(names@), ", "@) + "]"@,
                ),
            )
        } else {
            Some(Ok(Some("Ask \u{2192} ["@ + joined(texts(names@), ", "@) + "] + dialog"@)))
        },
        (ParityStep::Ask | ParityStep::Dismiss | ParityStep::Settle, ParityEvent::Performed) =>
            Some(Ok(None)),
        _ => None,
    }
}

/// The step after a step.
pub open spec fn parity_next(step: ParityStep) -> Option<ParityStep> {
    match step {
        ParityStep::Allow => Some(ParityStep::Deny),
        ParityStep::Deny => Some(ParityStep::Ask),
        ParityStep::Ask => Some(ParityStep::Notice),
        ParityStep::Notice => Some(ParityStep::Dismiss),
        ParityStep::Dismiss => Some(ParityStep::Settle),
        ParityStep::Settle => None,
    }
}

/// The notes with one more, where there is one.
pub open spec fn noted(notes: Seq<Seq<char>>, note: Option<Seq<char>>) -> Seq<Seq<char>> {
    match note {
        Some(note) => notes.push(note),
        None => notes,
    }
}

/// How far an approval check came: at a step with the notes so far, green with
/// its notes, or red.
pub enum ParityState {
    At(ParityStep, Seq<Seq<char>>),
    Green(Seq<Seq<char>>),
    Red(Seq<char>),
}

/// What an event makes of an approval check at a step. An event that does not
/// answer the step changes nothing.
pub open spec fn parity_advance(
    step: ParityStep,
    notes: Seq<Seq<char>>,
    event: ParityEvent,
) -> ParityState {
    match parity_shows(step, event) {
        None => ParityState::At(step, notes),
        Some(Err(why)) => ParityState::Red(why),
        Some(Ok(note)) => match parity_next(step) {
            Some(next) => ParityState::At(next, noted(notes, note)),
            None => ParityState::Green(noted(notes, note)),
        },
    }
}

/// How far an approval check comes by a run of events.
pub open spec fn parity_after(events: Seq<ParityEvent>) -> ParityState
    decreases events.len(),
{
    if events.len() == 0 {
        ParityState::At(ParityStep::Allow, Seq::empty())
    } else {
        match parity_after(events.drop_last()) {
            ParityState::At(step, notes) => parity_advance(step, notes, events.last()),
            ended => ended,
        }
    }
}

/// Whether one of the events is a turn that a decision's judgement passed.
pub open spec fn turn_judged(events: Seq<ParityEvent>, decision: Decision) -> bool {
    exists|i: int|
        0 <= i < events.len() && ((#[trigger] events[i]) matches ParityEvent::Done {
            names,
            duration_ns,
        } && turn_shows(decision, texts(names@), (duration_ns / 1_000_000) as nat) is Ok)
}

/// Whether one of the events is a wait during which the tool did not run.
pub open spec fn notice_judged(events: Seq<ParityEvent>) -> bool {
    exists|i: int|
        0 <= i < events.len() && ((#[trigger] events[i]) matches ParityEvent::Done { names, .. }
            && !holds(texts(names@), "PostToolUse"@))
}

/// A green point was judged: the allowed turn and the denied one passed by their
/// hooks, and the tool that was asked about did not run before the notice.
pub proof fn law_a_green_approval_was_judged(events: Seq<ParityEvent>)
    requires
        parity_after(events) is Green,
    ensures
        turn_judged(events, Decision::Allow),
        turn_judged(events, Decision::Deny),
        notice_judged(events),
    decreases events.len(),
{
    lemma_judged_so_far(events);
}

/// How many steps of the approval check lie behind a step.
spec fn steps_behind(step: ParityStep) -> nat {
    match step {
        ParityStep::Allow => 0,
        ParityStep::Deny => 1,
        ParityStep::Ask => 2,
        ParityStep::Notice => 3,
        ParityStep::Dismiss => 4,
        ParityStep::Settle => 5,
    }
}

proof fn lemma_judged_so_far(events: Seq<ParityEvent>)
    ensures
        ({
            let behind = match parity_after(events) {
                ParityState::At(step, _) => steps_behind(step),
                ParityState::Green(_) => 6,
                ParityState::Red(_) => 0,
            };
            &&& behind >= 1 ==> turn_judged(events, Decision::Allow)
            &&& behind >= 2 ==> turn_judged(events, Decision::Deny)
            &&& behind >= 4 ==> notice_judged(events)
        }),
    decreases events.len(),
{
    if events.len() > 0 {
        let before = events.drop_last();
        lemma_judged_so_far(before);
        assert forall|i: int| 0 <= i < before.len() implies before[i] == #[trigger] events[i] by {}
        assert(events.last() == events[events.len() - 1]);
        if turn_judged(before, Decision::Allow) {
            let i = choose|i: int|
                0 <= i < before.len() && ((#[trigger] before[i]) matches ParityEvent::Done {
                    names,
                    duration_ns,
                } && turn_shows(Decision::Allow, texts(names@), (duration_ns / 1_000_000) as nat)
                    is Ok);
            assert(events[i] == before[i]);
        }
        if turn_judged(before, Decision::Deny) {
            let i = choose|i: int|
                0 <= i < before.len() && ((#[trigger] before[i]) matches ParityEvent::Done {
                    names,
                    duration_ns,
                } && turn_shows(Decision::Deny, texts(names@), (duration_ns / 1_000_000) as nat)
                    is Ok);
            assert(events[i] == before[i]);
        }
        if notice_judged(before) {
            let i = choose|i: int|
                0 <= i < before.len() && ((#[trigger] before[i]) matches ParityEvent::Done {
                    names,
                    ..
                } && !holds(texts(names@), "PostToolUse"@));
            assert(events[i] == before[i]);
        }
    }
}

fn show_step(step: ParityStep, event: &ParityEvent) -> (r: Option<Result<Option<String>, String>>)
    ensures
        match r {
            None => parity_shows(step, *event) is None,
            Some(Ok(note)) => parity_shows(step, *event) == Some(
                Ok::<Option<Seq<char>>, Seq<char>>(crate::report::optional_text(note)),
            ),
            Some(Err(text)) => parity_shows(step, *event) == Some(
                Err::<Option<Seq<char>>, Seq<char>>(text@),
            ),
        },
{
    match (step, event) {
        (_, ParityEvent::Failed { error }) => {
            let mut text = match step {
                ParityStep::Allow => "Allow turn failed: ".to_owned(),
                ParityStep::Deny => "Deny turn failed: ".to_owned(),
                ParityStep::Ask => "ask: submitting the prompt failed: ".to_owned(),
                ParityStep::Notice =>
                    "ask: no permission Notification \u{2014} the decision did not degrade to the CLI's dialog: ".to_owned(),
                ParityStep::Dismiss => "ask: dismissing the dialog failed: ".to_owned(),
                ParityStep::Settle => {
                    let mut note = "ask: session still noisy after Escape (".to_owned();
                    note.append(error.as_str());
                    note.append(")");
                    return Some(Ok(Some(note)));
                },
            };
            text.append(error.as_str());
            Some(Err(text))
        },
        (ParityStep::Allow, ParityEvent::Done { names, duration_ns }) => {
            match judge_turn(Decision::Allow, names, *duration_ns) {
                Ok(note) => Some(Ok(Some(note))),
                Err(why) => Some(Err(why)),
            }
        },
        (ParityStep::Deny, ParityEvent::Done { names, duration_ns }) => {
            match judge_turn(Decision::Deny, names, *duration_ns) {
                Ok(note) => Some(Ok(Some(note))),
                Err(why) => Some(Err(why)),
            }
        },
        (ParityStep::Notice, ParityEvent::Done { names, .. }) => {
            let hooks = join(names, ", ");
            if has_name(names, "PostToolUse") {
                let mut text =
                    "ask: PostToolUse fired \u{2014} the tool ran without anyone approving it; hooks: [".to_owned();
                text.append(hooks.as_str());
                text.append("]");
                Some(Err(text))
            } else {
                let mut note = "Ask \u{2192} [".to_owned();
                note.append(hooks.as_str());
                note.append("] + dialog");
                Some(Ok(Some(note)))
            }
        },
        (ParityStep::Ask | ParityStep::Dismiss | ParityStep::Settle, ParityEvent::Performed) =>
            Some(Ok(None)),
        _ => None,
    }
}

/// Point 2, step by step: the three decisions, each asserted by the event shape
/// that it is defined to produce. The ask decision runs last, since a dismissal
/// that misbehaves must not poison the other two.
pub fn check_approval_parity(
    step: ParityStep,
    event: &ParityEvent,
    notes: &mut Vec<String>,
    windows: bool,
) -> (m: ParityMove)
    ensures
        match parity_advance(step, texts(old(notes)@), *event) {
            ParityState::At(next, kept) => m == ParityMove::Next(next) && texts(final(notes)@)
                == kept,
            ParityState::Green(kept) => {
                &&& m matches ParityMove::Done(PointOutcome::Green(text)) && text@ == parity_green(
                    kept,
                    windows,
                )
                &&& texts(final(notes)@) == kept
            },
            ParityState::Red(why) => {
                &&& m matches ParityMove::Done(PointOutcome::Red(text)) && text@ == why
                &&& texts(final(notes)@) == texts(old(notes)@)
            },
        },
{
    broadcast use lemma_texts_push;

    match show_step(step, event) {
        None => {
            return ParityMove::Next(step);
        },
        Some(Err(why)) => {
            return ParityMove::Done(PointOutcome::Red(why));
        },
        Some(Ok(Some(note))) => notes.push(note),
        Some(Ok(None)) => {},
    }
    match step {
        ParityStep::Allow => ParityMove::Next(ParityStep::Deny),
        ParityStep::Deny => ParityMove::Next(ParityStep::Ask),
        ParityStep::Ask => ParityMove::Next(ParityStep::Notice),
        ParityStep::Notice => ParityMove::Next(ParityStep::Dismiss),
        ParityStep::Dismiss => ParityMove::Next(ParityStep::Settle),
        ParityStep::Settle => {
            let mut text = "allow/deny/ask round-trips completed over the ".to_owned();
            text.append(transport(windows));
            text.append(", each asserted by hook shape: ");
            text.append(join(notes, "; ").as_str());
            ParityMove::Done(PointOutcome::Green(text))
        },
    }
}

/// Point 3: one look at whether the transcript grew; `None` to look again.
pub fn check_transcript(
    tracker: &OutputTracker,
    path: &str,
    baseline: u64,
    size: u64,
    waited_ns: u64,
    windows: bool,
) -> (outcome: Option<PointOutcome>)
    ensures
        match outcome {
            Some(PointOutcome::Green(text)) => size > baseline && text@ == path@ + " grew "@
                + decimal(baseline as nat) + " -> "@ + decimal(size as nat) + " bytes under "@
                + console_text(windows),
            Some(PointOutcome::Red(text)) => size <= baseline && if waited_ns >= TRANSCRIPT_TIMEOUT {
                text@ == path@ + " did not grow past "@ + decimal(baseline as nat)
                    + " bytes \u{2014} the content channel is dead under "@ + console_text(windows)
            } else {
                tracker.ended() matches Some(reason) && text@ == "the child's output stream ended ("@
                    + reason + ") while waiting for "@ + "the transcript to grow"@
                    + " \u{2014} the process is gone, not merely quiet"@
            },
            None => size <= baseline && waited_ns < TRANSCRIPT_TIMEOUT && tracker.ended() is None,
        },
{
    if size > baseline {
        let mut text = path.to_owned();
        text.append(" grew ");
        push_u64(&mut text, baseline);
        text.append(" -> ");
        push_u64(&mut text, size);
        text.append(" bytes under ");
        text.append(console(windows));
        return Some(PointOutcome::Green(text));
    }
    if waited_ns >= TRANSCRIPT_TIMEOUT {
        let mut text = path.to_owned();
        text.append(" did not grow past ");
        push_u64(&mut text, baseline);
        text.append(" bytes \u{2014} the content channel is dead under ");
        text.append(console(windows));
        return Some(PointOutcome::Red(text));
    }
    match tracker.ensure_live("the transcript to grow") {
        Ok(()) => None,
        Err(text) => Some(PointOutcome::Red(text)),
    }
}

/// Where the interrupt check stands.
#[derive(Clone, Copy, PartialEq, Eq, Debug, Structural)]
pub enum InterruptStep {
    /// Submit the long task.
    Submit,
    /// Let it stream.
    WarmUp,
    /// Send the interrupt.
    Interrupt { streamed: u64 },
    /// Wait for silence.
    Quiet { streamed: u64 },
    /// Drive a follow-up turn.
    FollowUp { streamed: u64, quiet_ms: u64 },
}

/// What performing a step of the interrupt check gave.
#[derive(Debug)]
pub enum InterruptEvent {
    Performed,
    /// How many chunks arrived.
    Streamed { chunks: u64 },
    /// How long it took, in nanoseconds: until silence, or for the turn.
    Took { ns: u64 },
    Failed { error: String },
}

/// What the interrupt check comes to.
#[derive(Debug)]
pub enum InterruptMove {
    Next(InterruptStep),
    Done(PointOutcome),
}

/// What a failed step makes of the point.
pub open spec fn interrupt_fault(step: InterruptStep, error: Seq<char>) -> Seq<char> {
    match step {
        InterruptStep::Submit => "submitting the long task failed: "@ + error,
        InterruptStep::WarmUp => error,
        InterruptStep::Interrupt { .. } => "sending the Ctrl+C byte failed: "@ + error,
        InterruptStep::Quiet { .. } => "generation did not halt after the Ctrl+C byte: "@ + error,
        InterruptStep::FollowUp { .. } =>
            "generation halted, but the session did not survive the interrupt: "@ + error,
    }
}

/// What the point reports when it is green.
pub open spec fn interrupt_green(streamed: nat, quiet_ms: nat, turn_ms: nat) -> Seq<char> {
    decimal(streamed) + " chunks streamed, then the Ctrl+C byte (0x03) quiesced output "@ + decimal(
        quiet_ms,
    )
        + "ms later (no Stop hook fires for an abandoned turn \u{2014} that is expected); the session survived and answered a follow-up in "@
        + decimal(turn_ms) + "ms"@
}

/// Point 4, step by step: start a long generation, send the Ctrl+C byte, and
/// see that the streaming stopped and that the session survived. Stopping is
/// measured as silence, since an abandoned turn fires no hook.
pub fn check_interrupt(step: InterruptStep, event: &InterruptEvent) -> (m: InterruptMove)
    ensures
        match (step, *event) {
            (_, InterruptEvent::Failed { error }) => m matches InterruptMove::Done(
                PointOutcome::Red(text),
            ) && text@ == interrupt_fault(step, error@),
            (InterruptStep::Submit, InterruptEvent::Performed) => m == InterruptMove::Next(
                InterruptStep::WarmUp,
            ),
            (InterruptStep::WarmUp, InterruptEvent::Streamed { chunks }) => if chunks == 0 {
                m matches InterruptMove::Done(PointOutcome::Red(text)) && text@
                    == "no output streamed in the "@ + decimal(2500)
                    + "ms before the interrupt \u{2014} nothing was interrupted, so the point is unproven"@
            } else {
                m == InterruptMove::Next(InterruptStep::Interrupt { streamed: chunks })
            },
            (InterruptStep::Interrupt { streamed }, InterruptEvent::Performed) => m
                == InterruptMove::Next(InterruptStep::Quiet { streamed }),
            (InterruptStep::Quiet { streamed }, InterruptEvent::Took { ns }) => m
                == InterruptMove::Next(
                InterruptStep::FollowUp { streamed, quiet_ms: (ns / 1_000_000) as u64 },
            ),
            (InterruptStep::FollowUp { streamed, quiet_ms }, InterruptEvent::Took { ns }) => m
                matches InterruptMove::Done(PointOutcome::Green(text)) && text@ == interrupt_green(
                streamed as nat,
                quiet_ms as nat,
                (ns / 1_000_000) as nat,
            ),
            _ => m == InterruptMove::Next(step),
        },
{
    match (step, event) {
        (_, InterruptEvent::Failed { error }) => {
            let mut text = match step {
                InterruptStep::Submit => "submitting the long task failed: ".to_owned(),
                InterruptStep::WarmUp => String::new(),
                InterruptStep::Interrupt { .. } => "sending the Ctrl+C byte failed: ".to_owned(),
                InterruptStep::Quiet { .. } =>
                    "generation did not halt after the Ctrl+C byte: ".to_owned(),
                InterruptStep::FollowUp { .. } =>
                    "generation halted, but the session did not survive the interrupt: ".to_owned(),
            };
            text.append(error.as_str());
            assert(text@ =~= interrupt_fault(step, error@));
            InterruptMove::Done(PointOutcome::Red(text))
        },
        (InterruptStep::Submit, InterruptEvent::Performed) => InterruptMove::Next(
            InterruptStep::WarmUp,
        ),
        (InterruptStep::WarmUp, InterruptEvent::Streamed { chunks }) => {
            if *chunks == 0 {
                let mut text = "no output streamed in the ".to_owned();
                push_u64(&mut text, GENERATION_WARMUP / 1_000_000);
                text.append(
                    "ms before the interrupt \u{2014} nothing was interrupted, so the point is unproven",
                );
                InterruptMove::Done(PointOutcome::Red(text))
            } else {
                InterruptMove::Next(InterruptStep::Interrupt { streamed: *chunks })
            }
        },
        (InterruptStep::Interrupt { streamed }, InterruptEvent::Performed) => InterruptMove::Next(
            InterruptStep::Quiet { streamed },
        ),
        (InterruptStep::Quiet { streamed }, InterruptEvent::Took { ns }) => InterruptMove::Next(
            InterruptStep::FollowUp { streamed, quiet_ms: *ns / 1_000_000 },
        ),
        (InterruptStep::FollowUp { streamed, quiet_ms }, InterruptEvent::Took { ns }) => {
            let mut text = String::new();
            push_u64(&mut text, streamed);
            assert(text@ =~= decimal(streamed as nat));
            text.append(" chunks streamed, then the Ctrl+C byte (0x03) quiesced output ");
            push_u64(&mut text, quiet_ms);
            text.append(
                "ms later (no Stop hook fires for an abandoned turn \u{2014} that is expected); the session survived and answered a follow-up in ",
            );
            push_u64(&mut text, *ns / 1_000_000);
            text.append("ms");
            InterruptMove::Done(PointOutcome::Green(text))
        },
        (step, _) => InterruptMove::Next(step),
    }
}

/// The numbers of the red points.
pub open spec fn reds(points: Seq<PointOutcome>) -> Seq<Seq<char>>
    decreases points.len(),
{
    if points.len() == 0 {
        Seq::empty()
    } else if points.last() is Red {
        reds(points.drop_last()).push(decimal(points.len()))
    } else {
        reds(points.drop_last())
    }
}

/// The numbers of the red points, as texts.
fn red_numbers(points: &Vec<PointOutcome>) -> (numbers: Vec<String>)
    ensures
        texts(numbers@) == reds(points@),
{
    let mut numbers: Vec<String> = Vec::new();
    let mut i: usize = 0;
    assert(points@.take(0) =~= Seq::empty());
    assert(texts(numbers@) =~= Seq::empty());
    while i < points.len()
        invariant
            i <= points@.len(),
            texts(numbers@) == reds(points@.take(i as int)),
        decreases points@.len() - i,
    {
        broadcast use lemma_texts_push;

        assert(points@.take(i + 1).drop_last() =~= points@.take(i as int));
        i += 1;
        if let PointOutcome::Red(_) = &points[i - 1] {
            let mut number = String::new();
            push_usize(&mut number, i);
            assert(number@ =~= decimal(i as nat));
            numbers.push(number);
        }
    }
    assert(points@.take(i as int) =~= points@);
    numbers
}

/// What is said of a shutdown that failed where a red point owns the exit code
/// anyway.
pub fn shutdown_warning<'a>(
    points: &Vec<PointOutcome>,
    shutdown: &'a Result<(), Failure>,
) -> (warning: Option<&'a str>)
    ensures
        match (*shutdown, warning) {
            (Err(failure), Some(text)) => reds(points@).len() > 0 && text@ == failure.detail@,
            (Err(_), None) => reds(points@).len() == 0,
            (Ok(()), _) => warning is None,
        },
{
    match shutdown {
        Ok(()) => None,
        Err(failure) => {
            if red_numbers(points).len() > 0 {
                Some(failure.detail.as_str())
            } else {
                None
            }
        },
    }
}

/// What a run comes to. Red points own the exit code, whatever became of the
/// shutdown.
pub fn conclude(points: &Vec<PointOutcome>, shutdown: Result<(), Failure>, windows: bool) -> (r:
    Result<String, Failure>)
    ensures
        if reds(points@).len() > 0 {
            r matches Err(failure) && failure.says(
                "four_point"@,
                50,
                "point(s) ["@ + joined(reds(points@), ", "@) + "] red under "@ + console_text(
                    windows,
                ) + " \u{2014} recorded as findings above, not waived"@,
            )
        } else {
            match shutdown {
                Ok(()) => r matches Ok(text) && text@ == "all four points green under "@
                    + console_text(windows) + " over the "@ + transport_text(windows),
                Err(failure) => r == Err::<String, Failure>(failure),
            }
        },
{
    let numbers = red_numbers(points);
    if numbers.len() > 0 {
        let mut text = "point(s) [".to_owned();
        text.append(join(&numbers, ", ").as_str());
        text.append("] red under ");
        text.append(console(windows));
        text.append(" \u{2014} recorded as findings above, not waived");
        return Err(Failure::new("four_point", 50, text.as_str()));
    }
    match shutdown {
        Ok(()) => {
            let mut text = "all four points green under ".to_owned();
            text.append(console(windows));
            text.append(" over the ");
            text.append(transport(windows));
            Ok(text)
        },
        Err(failure) => Err(failure),
    }
}

/// A run passes only where no point is red: a red point is never masked.
pub proof fn law_a_red_point_fails_the_run(points: Seq<PointOutcome>, i: int)
    requires
        0 <= i < points.len(),
        points[i] is Red,
    ensures
        reds(points).len() > 0,
    decreases points.len(),
{
    if i < points.len() - 1 {
        law_a_red_point_fails_the_run(points.drop_last(), i);
    }
}

/// The numbers of the red points are those of the points that are red, counted
/// from one, in order.
pub proof fn law_each_red_point_is_numbered(points: Seq<PointOutcome>, outcome: PointOutcome)
    ensures
        reds(Seq::empty()).len() == 0,
        outcome is Red ==> reds(points.push(outcome)) == reds(points).push(
            decimal(points.len() + 1),
        ),
        outcome is Green ==> reds(points.push(outcome)) == reds(points),
{
    assert(points.push(outcome).drop_last() =~= points);
}

/// A run without a red point has none to number.
pub proof fn law_green_points_pass(points: Seq<PointOutcome>)
    requires
        forall|i: int| 0 <= i < points.len() ==> (#[trigger] points[i]) is Green,
    ensures
        reds(points).len() == 0,
    decreases points.len(),
{
    if points.len() > 0 {
        assert(points[points.len() - 1] is Green);
        let front = points.drop_last();
        assert forall|i: int| 0 <= i < front.len() implies (#[trigger] front[i]) is Green by {
            assert(front[i] == points[i]);
        }
        law_green_points_pass(front);
    }
}

/// A turn that leaves the call open needs no more than that the approver was
/// asked.
pub proof fn law_an_open_turn_needs_only_the_question(names: Seq<Seq<char>>, duration_ms: nat)
    ensures
        turn_shows(Decision::Ask, names, duration_ms) is Ok <==> names.contains("PreToolUse"@),
        turn_shows(Decision::NoOpinion, names, duration_ms) is Ok <==> names.contains(
            "PreToolUse"@,
        ),
        turn_shows(Decision::Allow, names, duration_ms) is Ok <==> names.contains("PreToolUse"@)
            && names.contains("PostToolUse"@),
        turn_shows(Decision::Deny, names, duration_ms) is Ok <==> names.contains("PreToolUse"@)
            && !names.contains("PostToolUse"@),
{
    assert(holds(names, "PreToolUse"@) == names.contains("PreToolUse"@));
    assert(holds(names, "PostToolUse"@) == names.contains("PostToolUse"@));
}

/// The approval check goes through its steps in order: the allowed turn, the
/// denied one, the question, its notice, the dismissal and the silence behind it;
/// a failed step ends it red, but for a session that stays noisy at the end.
pub proof fn law_the_approval_check_goes_in_order(
    notes: Seq<Seq<char>>,
    allowed: ParityEvent,
    noticed: ParityEvent,
    error: String,
)
    ensures
        parity_advance(ParityStep::Ask, notes, ParityEvent::Performed) == ParityState::At(
            ParityStep::Notice,
            notes,
        ),
        parity_advance(ParityStep::Dismiss, notes, ParityEvent::Performed) == ParityState::At(
            ParityStep::Settle,
            notes,
        ),
        parity_advance(ParityStep::Settle, notes, ParityEvent::Performed) == ParityState::Green(
            notes,
        ),
        parity_shows(ParityStep::Allow, allowed) matches Some(Ok(Some(note))) ==> parity_advance(
            ParityStep::Allow,
            notes,
            allowed,
        ) == ParityState::At(ParityStep::Deny, notes.push(note)),
        parity_shows(ParityStep::Deny, allowed) matches Some(Ok(Some(note))) ==> parity_advance(
            ParityStep::Deny,
            notes,
            allowed,
        ) == ParityState::At(ParityStep::Ask, notes.push(note)),
        parity_shows(ParityStep::Notice, noticed) matches Some(Ok(Some(note))) ==> parity_advance(
            ParityStep::Notice,
            notes,
            noticed,
        ) == ParityState::At(ParityStep::Dismiss, notes.push(note)),
        forall|step: ParityStep|
            step != ParityStep::Settle ==> (#[trigger] parity_advance(
                step,
                notes,
                ParityEvent::Failed { error },
            )) is Red,
        parity_advance(ParityStep::Settle, notes, ParityEvent::Failed { error }) is Green,
        noticed matches ParityEvent::Done { names, .. } ==> (parity_shows(
            ParityStep::Notice,
            noticed,
        ) matches Some(Err(_)) <==> texts(names@).contains("PostToolUse"@)),
{
    if let ParityEvent::Done { names, .. } = noticed {
        assert(holds(texts(names@), "PostToolUse"@) == texts(names@).contains("PostToolUse"@));
    }
}

/// The transcript point is green exactly when the transcript is longer than it
/// was, and red exactly when it is not and fifteen seconds are over or the stream
/// has ended.
pub proof fn law_only_a_grown_transcript_is_green(
    tracker: OutputTracker,
    path: &str,
    baseline: u64,
    size: u64,
    waited_ns: u64,
    windows: bool,
    outcome: Option<PointOutcome>,
)
    requires
        call_ensures(
            check_transcript,
            (&tracker, path, baseline, size, waited_ns, windows),
            outcome,
        ),
    ensures
        outcome matches Some(PointOutcome::Green(_)) <==> size > baseline,
        outcome matches Some(PointOutcome::Red(_)) <==> size <= baseline && (waited_ns
            >= 15_000_000_000 || tracker.closing() is Some),
{
}

/// The interrupt point goes from its prompt to output, from output to the
/// interrupt, from there to silence and from silence to a follow-up, which alone
/// makes it green. It is red at any failure and where nothing was there to be
/// interrupted. What was counted and measured on the way is carried along.
pub proof fn law_an_interrupt_is_proven_step_by_step(
    step: InterruptStep,
    event: InterruptEvent,
    m: InterruptMove,
)
    requires
        call_ensures(check_interrupt, (step, &event), m),
    ensures
        event is Failed ==> (m matches InterruptMove::Done(PointOutcome::Red(_))),
        m matches InterruptMove::Done(PointOutcome::Green(_)) <==> step is FollowUp && event is Took,
        m matches InterruptMove::Done(PointOutcome::Red(_)) <==> event is Failed || (step is WarmUp
            && event == (InterruptEvent::Streamed { chunks: 0 })),
        step is Submit && event is Performed ==> m == InterruptMove::Next(InterruptStep::WarmUp),
        step is WarmUp ==> (event matches InterruptEvent::Streamed { chunks } ==> (chunks > 0 ==> m
            == InterruptMove::Next(InterruptStep::Interrupt { streamed: chunks }))),
        step matches InterruptStep::Interrupt { streamed } ==> (event is Performed ==> m
            == InterruptMove::Next(InterruptStep::Quiet { streamed })),
        step matches InterruptStep::Quiet { streamed } ==> (event matches InterruptEvent::Took {
            ns,
        } ==> (m matches InterruptMove::Next(InterruptStep::FollowUp { streamed: kept, quiet_ms })
            && kept == streamed && quiet_ms == ns / 1_000_000)),
{
}

/// A run is in order exactly when no point is red and the shutdown was in order. A
/// red point owns the exit code; without one a failed shutdown is passed on.
pub proof fn law_a_run_ends_by_its_points_before_its_shutdown(
    points: Vec<PointOutcome>,
    shutdown: Result<(), Failure>,
    windows: bool,
    r: Result<String, Failure>,
)
    requires
        call_ensures(conclude, (&points, shutdown, windows), r),
    ensures
        r is Ok <==> shutdown is Ok && forall|i: int|
            0 <= i < points@.len() ==> (#[trigger] points@[i]) is Green,
        (exists|i: int| 0 <= i < points@.len() && (#[trigger] points@[i]) is Red) ==> r is Err
            && r->Err_0.code == 50,
        (forall|i: int| 0 <= i < points@.len() ==> (#[trigger] points@[i]) is Green) && shutdown
            is Err ==> r is Err && r->Err_0 == shutdown->Err_0,
{
    if forall|i: int| 0 <= i < points@.len() ==> (#[trigger] points@[i]) is Green {
        law_green_points_pass(points@);
    } else {
        let i = choose|i: int| 0 <= i < points@.len() && !((#[trigger] points@[i]) is Green);
        law_a_red_point_fails_the_run(points@, i);
    }
}

} // verus!
