//! The stand-in interactive fixture and its lane: a child that paints a banner,
//! repaints on command and exits on command, and the steps that drive it.
use vstd::prelude::*;
use vstd::string::*;

use crate::failure::{Failure, COLS, ROWS};
use crate::text::{
    decimal, law_decimal_reads_back, lemma_decimal_digits, occurs, occurs_at, push_u64, same_text,
    trim, trimmed,
};

verus! {

/// What the banner starts with.
pub const BANNER_MARKER: &'static str = "AGENT-BRIDGE-STANDIN";

/// What the child says as it quits.
pub const BYE_MARKER: &'static str = "AGENT-BRIDGE-STANDIN-BYE";

/// The command to repaint.
pub const CMD_REPAINT: &'static str = "repaint";

/// The command to quit.
pub const CMD_QUIT: &'static str = "quit";

/// The banner that the fixture paints and the lane looks for.
pub open spec fn banner(paint: nat, cols: Seq<char>, rows: Seq<char>) -> Seq<char> {
    "AGENT-BRIDGE-STANDIN paint="@ + decimal(paint) + " cols="@ + cols + " rows="@ + rows
}

/// The banner. `cols` and `rows` are texts because the child reports whatever
/// its environment says.
pub fn banner_line(paint: u32, cols: &str, rows: &str) -> (line: String)
    ensures
        line@ == banner(paint as nat, cols@, rows@),
{
    let mut line = "AGENT-BRIDGE-STANDIN paint=".to_owned();
    push_u64(&mut line, paint as u64);
    line.append(" cols=");
    line.append(cols);
    line.append(" rows=");
    line.append(rows);
    line
}

/// Successive paints are told apart: no paint's banner stands in another's.
pub proof fn law_paints_are_told_apart(a: u32, b: u32, cols: Seq<char>, rows: Seq<char>)
    requires
        a != b,
    ensures
        !occurs(banner(b as nat, cols, rows), banner(a as nat, cols, rows)),
{
    let lead = "AGENT-BRIDGE-STANDIN paint="@;
    reveal_strlit("AGENT-BRIDGE-STANDIN paint=");
    reveal_strlit(" cols=");
    let (hay, needle) = (banner(b as nat, cols, rows), banner(a as nat, cols, rows));
    let (da, db) = (decimal(a as nat), decimal(b as nat));
    lemma_decimal_digits(a as nat);
    lemma_decimal_digits(b as nat);
    lemma_paint_is_short(b);
    assert forall|at: int| !occurs_at(hay, needle, at) by {
        if occurs_at(hay, needle, at) {
            let seen = hay.subrange(at, at + needle.len());
            assert(needle[0] == 'A');
            assert(seen[0] == hay[at]);
            assert(at < 10);
            assert(hay[at] == lead[at]);
            assert(at == 0);
            let n = da.len() as int;
            if n < db.len() {
                assert(needle[27 + n] == ' ');
                assert(seen[27 + n] == db[n]);
            } else {
                assert forall|j: int| 0 <= j < n implies da[j] == db[j] by {
                    assert(needle[27 + j] == da[j]);
                    assert(seen[27 + j] == db[j]);
                }
                assert(da =~= db);
                law_decimal_reads_back(a as nat, u32::MAX as nat);
                law_decimal_reads_back(b as nat, u32::MAX as nat);
            }
        }
    }
}

proof fn lemma_paint_is_short(n: u32)
    ensures
        decimal(n as nat).len() <= 10,
{
    reveal_with_fuel(decimal, 11);
}

/// What the fixture writes for one paint: clear, home, banner, prompt.
pub open spec fn paint_view(paint: nat, cols: Seq<char>, rows: Seq<char>) -> Seq<char> {
    "\x1b[2J\x1b[1;1H"@ + banner(paint, cols, rows) + "\r\n> "@
}

/// What the fixture writes for one paint.
pub fn paint_text(paint: u32, cols: &str, rows: &str) -> (text: String)
    ensures
        text@ == paint_view(paint as nat, cols@, rows@),
{
    let mut text = "\x1b[2J\x1b[1;1H".to_owned();
    text.append(banner_line(paint, cols, rows).as_str());
    text.append("\r\n> ");
    text
}

/// What the fixture does with a line of input.
#[derive(Clone, Copy, Debug, PartialEq, Eq, Structural)]
pub enum ChildMove {
    /// Paint again, with this paint count.
    Paint { count: u32 },
    /// Say goodbye and exit.
    Quit,
    /// No command.
    Ignore,
}

/// Decide a line of input after `painted` paints.
pub fn child_step(line: &str, painted: u32) -> (m: ChildMove)
    requires
        painted < u32::MAX,
    ensures
        m == if trimmed(line@) == "repaint"@ {
            ChildMove::Paint { count: (painted + 1) as u32 }
        } else if trimmed(line@) == "quit"@ {
            ChildMove::Quit
        } else {
            ChildMove::Ignore
        },
{
    let command = trim(line);
    if same_text(command.as_str(), "repaint") {
        ChildMove::Paint { count: painted + 1 }
    } else if same_text(command.as_str(), "quit") {
        ChildMove::Quit
    } else {
        ChildMove::Ignore
    }
}

/// How a lane run is configured.
#[derive(Clone, Copy, Debug, PartialEq, Eq, Structural)]
pub struct StandinLaneConfig {
    pub first_token_ms: u64,
    /// How long a step may take, in nanoseconds.
    pub timeout_ns: u128,
}

impl Default for StandinLaneConfig {
    fn default() -> (config: Self)
        ensures
            config == (StandinLaneConfig { first_token_ms: 2_000, timeout_ns: 10_000_000_000 }),
    {
        StandinLaneConfig { first_token_ms: 2_000, timeout_ns: 10_000_000_000 }
    }
}

/// Where the lane stands: the step that is to be performed next.
#[derive(Clone, Copy, Debug, PartialEq, Eq, Structural)]
pub enum LaneStep {
    /// Allocate the terminal.
    Alloc,
    /// Spawn the fixture under it.
    Spawn,
    /// Open the terminal's reader and writer.
    Streams,
    /// Wait for the first banner.
    FirstPaint,
    /// Type the repaint command.
    TypeRepaint,
    /// Wait for the second banner.
    Repaint,
    /// Type the quit command.
    TypeQuit,
    /// Wait for the goodbye.
    Quit,
    /// Wait for the child to exit.
    ChildExit,
    /// Close the terminal.
    Teardown,
    /// Nothing is left.
    Done,
}

/// What performing a step gave.
#[derive(Debug)]
pub enum StepEvent {
    /// The terminal was allocated, in so many milliseconds.
    Allocated { ms: u64 },
    /// The fixture at this path runs under this process number, where known.
    Spawned { path: String, pid: Option<u32> },
    /// The first banner was seen; the first output byte came this long after
    /// the spawn, in nanoseconds.
    Painted { latency_ns: u64 },
    /// The step was performed, with what there is to say of it.
    Performed { detail: String },
    /// The step failed.
    Failed { error: String },
}

/// The name and exit code of a step.
pub open spec fn step_name(step: LaneStep) -> (Seq<char>, int) {
    match step {
        LaneStep::Alloc => ("alloc"@, 20),
        LaneStep::Spawn => ("spawn"@, 21),
        LaneStep::Streams => ("first_paint"@, 22),
        LaneStep::FirstPaint => ("first_paint"@, 22),
        LaneStep::TypeRepaint => ("repaint"@, 23),
        LaneStep::Repaint => ("repaint"@, 23),
        LaneStep::TypeQuit => ("quit"@, 24),
        LaneStep::Quit => ("quit"@, 24),
        LaneStep::ChildExit => ("child_exit"@, 25),
        LaneStep::Teardown => ("teardown"@, 26),
        LaneStep::Done => ("done"@, 0),
    }
}

/// The step after this one.
pub open spec fn next_step(step: LaneStep) -> LaneStep {
    match step {
        LaneStep::Alloc => LaneStep::Spawn,
        LaneStep::Spawn => LaneStep::Streams,
        LaneStep::Streams => LaneStep::FirstPaint,
        LaneStep::FirstPaint => LaneStep::TypeRepaint,
        LaneStep::TypeRepaint => LaneStep::Repaint,
        LaneStep::Repaint => LaneStep::TypeQuit,
        LaneStep::TypeQuit => LaneStep::Quit,
        LaneStep::Quit => LaneStep::ChildExit,
        LaneStep::ChildExit => LaneStep::Teardown,
        LaneStep::Teardown => LaneStep::Done,
        LaneStep::Done => LaneStep::Done,
    }
}

/// What a failed step is reported as.
pub open spec fn error_text(step: LaneStep, error: Seq<char>) -> Seq<char> {
    match step {
        LaneStep::TypeRepaint => "writing the repaint command failed: "@ + error,
        LaneStep::TypeQuit => "writing the quit command failed: "@ + error,
        _ => error,
    }
}

/// What is said of a first byte over its budget.
pub open spec fn slow_text(latency_ms: nat, budget_ms: nat) -> Seq<char> {
    "first output byte took "@ + decimal(latency_ms) + "ms, over the "@ + decimal(budget_ms)
        + "ms budget"@
}

/// What a performed step is reported as; `None` for a step that is reported
/// together with the next.
pub open spec fn report_text(step: LaneStep, event: StepEvent, budget_ms: nat) -> Option<Seq<char>> {
    match (step, event) {
        (LaneStep::Alloc, StepEvent::Allocated { ms }) => Some(
            "pty allocated at 80x24 in "@ + decimal(ms as nat) + "ms"@,
        ),
        (LaneStep::Spawn, StepEvent::Spawned { path, pid }) => Some(
            "spawned `"@ + path@ + "` pid="@ + match pid {
                Some(pid) => decimal(pid as nat),
                None => "unknown"@,
            },
        ),
        (LaneStep::FirstPaint, StepEvent::Painted { latency_ns }) => Some(
            "first byte in "@ + decimal((latency_ns / 1_000_000) as nat) + "ms (budget "@ + decimal(
                budget_ms,
            ) + "ms); banner shows the composed 80x24 environment"@,
        ),
        (LaneStep::Repaint, _) => Some("fixture repainted on input"@),
        (LaneStep::Quit, _) => Some("goodbye marker observed"@),
        (LaneStep::ChildExit, StepEvent::Performed { detail }) => Some(detail@),
        (LaneStep::Teardown, StepEvent::Performed { detail }) => Some(detail@),
        _ => None,
    }
}

/// Whether an event is over the first-token budget.
pub open spec fn too_slow(step: LaneStep, event: StepEvent, budget_ms: u64) -> bool {
    step is FirstPaint && (event matches StepEvent::Painted { latency_ns } && latency_ns
        / 1_000_000 > budget_ms)
}

/// The name and exit code of a step.
pub fn name_of(step: LaneStep) -> (name: (&'static str, i32))
    ensures
        name.0@ == step_name(step).0,
        name.1 == step_name(step).1,
{
    match step {
        LaneStep::Alloc => ("alloc", 20),
        LaneStep::Spawn => ("spawn", 21),
        LaneStep::Streams => ("first_paint", 22),
        LaneStep::FirstPaint => ("first_paint", 22),
        LaneStep::TypeRepaint => ("repaint", 23),
        LaneStep::Repaint => ("repaint", 23),
        LaneStep::TypeQuit => ("quit", 24),
        LaneStep::Quit => ("quit", 24),
        LaneStep::ChildExit => ("child_exit", 25),
        LaneStep::Teardown => ("teardown", 26),
        LaneStep::Done => ("done", 0),
    }
}

fn following(step: LaneStep) -> (next: LaneStep)
    ensures
        next == next_step(step),
{
    match step {
        LaneStep::Alloc => LaneStep::Spawn,
        LaneStep::Spawn => LaneStep::Streams,
        LaneStep::Streams => LaneStep::FirstPaint,
        LaneStep::FirstPaint => LaneStep::TypeRepaint,
        LaneStep::TypeRepaint => LaneStep::Repaint,
        LaneStep::Repaint => LaneStep::TypeQuit,
        LaneStep::TypeQuit => LaneStep::Quit,
        LaneStep::Quit => LaneStep::ChildExit,
        LaneStep::ChildExit => LaneStep::Teardown,
        LaneStep::Teardown => LaneStep::Done,
        LaneStep::Done => LaneStep::Done,
    }
}

fn report_of(step: LaneStep, event: &StepEvent, budget_ms: u64) -> (report: Option<String>)
    ensures
        crate::report::optional_text(report) == report_text(step, *event, budget_ms as nat),
{
    match (step, event) {
        (LaneStep::Alloc, StepEvent::Allocated { ms }) => {
            let mut text = "pty allocated at 80x24 in ".to_owned();
            push_u64(&mut text, *ms);
            text.append("ms");
            Some(text)
        },
        (LaneStep::Spawn, StepEvent::Spawned { path, pid }) => {
            let mut text = "spawned `".to_owned();
            text.append(path.as_str());
            text.append("` pid=");
            match pid {
                Some(pid) => push_u64(&mut text, *pid as u64),
                None => text.append("unknown"),
            }
            Some(text)
        },
        (LaneStep::FirstPaint, StepEvent::Painted { latency_ns }) => {
            let mut text = "first byte in ".to_owned();
            push_u64(&mut text, *latency_ns / 1_000_000);
            text.append("ms (budget ");
            push_u64(&mut text, budget_ms);
            text.append("ms); banner shows the composed 80x24 environment");
            Some(text)
        },
        (LaneStep::Repaint, _) => Some("fixture repainted on input".to_owned()),
        (LaneStep::Quit, _) => Some("goodbye marker observed".to_owned()),
        (LaneStep::ChildExit, StepEvent::Performed { detail }) => Some(detail.clone()),
        (LaneStep::Teardown, StepEvent::Performed { detail }) => Some(detail.clone()),
        _ => None,
    }
}

/// Decide a performed step: the next one and what is to be reported, or the
/// failure that ends the lane.
pub fn advance(config: &StandinLaneConfig, step: LaneStep, event: &StepEvent) -> (r: Result<
    (LaneStep, Option<String>),
    Failure,
>)
    ensures
        match r {
            Ok((next, report)) => {
                &&& !(event is Failed)
                &&& !too_slow(step, *event, config.first_token_ms)
                &&& next == next_step(step)
                &&& crate::report::optional_text(report) == report_text(
                    step,
                    *event,
                    config.first_token_ms as nat,
                )
            },
            Err(failure) => match *event {
                StepEvent::Failed { error } => failure.says(
                    step_name(step).0,
                    step_name(step).1,
                    error_text(step, error@),
                ),
                StepEvent::Painted { latency_ns } => too_slow(step, *event, config.first_token_ms)
                    && failure.says(
                    "first_paint"@,
                    22,
                    slow_text(
                        (latency_ns / 1_000_000) as nat,
                        config.first_token_ms as nat,
                    ),
                ),
                _ => false,
            },
        },
{
    let (name, code): (&'static str, i32) = name_of(step);
    match event {
        StepEvent::Failed { error } => {
            let mut detail = String::new();
            match step {
                LaneStep::TypeRepaint => detail.append("writing the repaint command failed: "),
                LaneStep::TypeQuit => detail.append("writing the quit command failed: "),
                _ => {},
            }
            detail.append(error.as_str());
            assert(detail@ =~= error_text(step, error@));
            return Err(Failure::new(name, code, detail.as_str()));
        },
        StepEvent::Painted { latency_ns } => {
            if matches!(step, LaneStep::FirstPaint) && *latency_ns / 1_000_000
                > config.first_token_ms {
                let mut detail = "first output byte took ".to_owned();
                push_u64(&mut detail, *latency_ns / 1_000_000);
                detail.append("ms, over the ");
                push_u64(&mut detail, config.first_token_ms);
                detail.append("ms budget");
                return Err(Failure::new(name, code, detail.as_str()));
            }
        },
        _ => {},
    }
    Ok((following(step), report_of(step, event, config.first_token_ms)))
}

/// What a waiting step looks for in the output.
pub open spec fn awaited(step: LaneStep) -> Option<(Seq<char>, Seq<char>)> {
    match step {
        LaneStep::FirstPaint => Some(
            ("first banner paint"@, banner(1, decimal(80), decimal(24))),
        ),
        LaneStep::Repaint => Some(("repaint banner"@, banner(2, decimal(80), decimal(24)))),
        LaneStep::Quit => Some(("goodbye marker"@, "AGENT-BRIDGE-STANDIN-BYE"@)),
        _ => None,
    }
}

/// What a waiting step looks for in the output: what the wait is called, and
/// the text.
pub fn awaited_text(step: LaneStep) -> (a: Option<(&'static str, String)>)
    ensures
        match a {
            Some((label, text)) => awaited(step) == Some((label@, text@)),
            None => awaited(step) is None,
        },
{
    let mut cols = String::new();
    push_u64(&mut cols, COLS as u64);
    let mut rows = String::new();
    push_u64(&mut rows, ROWS as u64);
    assert(cols@ =~= decimal(80));
    assert(rows@ =~= decimal(24));
    match step {
        LaneStep::FirstPaint => Some(
            ("first banner paint", banner_line(1, cols.as_str(), rows.as_str())),
        ),
        LaneStep::Repaint => Some(("repaint banner", banner_line(2, cols.as_str(), rows.as_str()))),
        LaneStep::Quit => Some(("goodbye marker", "AGENT-BRIDGE-STANDIN-BYE".to_owned())),
        _ => None,
    }
}

/// The steps left before the lane is done.
pub open spec fn steps_left(step: LaneStep) -> nat {
    match step {
        LaneStep::Alloc => 10,
        LaneStep::Spawn => 9,
        LaneStep::Streams => 8,
        LaneStep::FirstPaint => 7,
        LaneStep::TypeRepaint => 6,
        LaneStep::Repaint => 5,
        LaneStep::TypeQuit => 4,
        LaneStep::Quit => 3,
        LaneStep::ChildExit => 2,
        LaneStep::Teardown => 1,
        LaneStep::Done => 0,
    }
}

/// Every step leads one step closer to the end, so ten performed steps finish
/// the lane.
pub proof fn law_the_lane_ends(step: LaneStep)
    ensures
        step != LaneStep::Done ==> steps_left(next_step(step)) == steps_left(step) - 1,
        steps_left(step) == 0 <==> step == LaneStep::Done,
{
}

/// A failed step exits with the code of its part of the lane.
pub proof fn law_a_failed_lane_step_exits_with_its_code(step: LaneStep)
    ensures
        step_name(step).1 == 20 <==> step == LaneStep::Alloc,
        step_name(step).1 == 21 <==> step == LaneStep::Spawn,
        step_name(step).1 == 22 <==> step == LaneStep::Streams || step == LaneStep::FirstPaint,
        step_name(step).1 == 23 <==> step == LaneStep::TypeRepaint || step == LaneStep::Repaint,
        step_name(step).1 == 24 <==> step == LaneStep::TypeQuit || step == LaneStep::Quit,
        step_name(step).1 == 25 <==> step == LaneStep::ChildExit,
        step_name(step).1 == 26 <==> step == LaneStep::Teardown,
        step_name(step).1 == 0 <==> step == LaneStep::Done,
{
}

/// A first byte is too slow when it took more whole milliseconds than its budget,
/// and no other step is held to one.
pub proof fn law_only_the_first_paint_is_timed(step: LaneStep, latency_ns: u64, budget_ms: u64)
    ensures
        too_slow(LaneStep::FirstPaint, StepEvent::Painted { latency_ns }, budget_ms)
            <==> latency_ns >= (budget_ms + 1) * 1_000_000,
        step != LaneStep::FirstPaint ==> !too_slow(
            step,
            StepEvent::Painted { latency_ns },
            budget_ms,
        ),
{
}

/// The lane looks for the first paint, the second and the goodbye, in the terminal
/// of 80 by 24 that it made.
pub proof fn law_what_the_lane_looks_for(step: LaneStep)
    ensures
        awaited(LaneStep::FirstPaint) matches Some((label, text)) && text
            == "AGENT-BRIDGE-STANDIN paint="@ + decimal(1) + " cols="@ + decimal(80) + " rows="@
            + decimal(24),
        awaited(LaneStep::Repaint) matches Some((label, text)) && text
            == "AGENT-BRIDGE-STANDIN paint="@ + decimal(2) + " cols="@ + decimal(80) + " rows="@
            + decimal(24),
        awaited(LaneStep::Quit) matches Some((label, text)) && text
            == "AGENT-BRIDGE-STANDIN-BYE"@,
        step != LaneStep::FirstPaint && step != LaneStep::Repaint && step != LaneStep::Quit
            ==> awaited(step) is None,
{
}

/// The first paint is reported with the whole milliseconds that it took and those
/// that it was allowed.
pub proof fn law_the_first_paint_is_reported_in_milliseconds(
    latency_ns: u64,
    ms: nat,
    budget_ms: nat,
)
    requires
        ms * 1_000_000 <= latency_ns < (ms + 1) * 1_000_000,
    ensures
        report_text(LaneStep::FirstPaint, StepEvent::Painted { latency_ns }, budget_ms) == Some(
            "first byte in "@ + decimal(ms) + "ms (budget "@ + decimal(budget_ms)
                + "ms); banner shows the composed 80x24 environment"@,
        ),
{
}

} // verus!
