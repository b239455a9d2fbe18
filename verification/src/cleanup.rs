//! The clean-shutdown lane: a session that is told to exit really leaves, its
//! terminal is released, and nothing of its process tree survives.
use vstd::prelude::*;
use vstd::string::*;

use crate::failure::Failure;
use crate::inspect::{pid_list, show_pids};
use crate::rig::{hook_names_view, Turn};
use crate::text::{decimal, join, joined, push_i64, push_u128, push_u64, signed_decimal};

verus! {

/// How long the process gets to leave after the session ended. Generous: the
/// interval is what is measured.
pub const TERMINATION_CEILING: u128 = 60_000_000_000;

/// How long the emptiness checks may poll.
pub const EMPTY_TIMEOUT: u128 = 10_000_000_000;

/// What the capture of this lane is labelled with.
pub const SCENARIO: &'static str =
    "clean shutdown: launch, one prompt turn, /exit, termination and teardown observed";

/// A step of the lane, in order.
#[derive(Clone, Copy, PartialEq, Eq, Debug, Structural)]
pub enum CleanupStep {
    /// Count the console hosts. This predates the terminal, which brings one.
    Census,
    /// Launch the session.
    Launch,
    /// Record what will be held accountable.
    Contain,
    /// See the session up.
    Establish,
    /// Drive one prompt turn.
    PromptTurn,
    /// Type the exit command.
    TypeExit,
    /// Wait for the end of the session.
    SessionEnd,
    /// Wait for the process to leave.
    Termination,
    /// Release the terminal.
    Conclude,
    /// Look for survivors.
    TreeEmpty,
    /// Look for console hosts.
    ConsoleHost,
    Done,
}

/// A step's name and exit code. Launching, seeing the session up and releasing the
/// terminal fail with failures of their own.
pub open spec fn step_code(step: CleanupStep) -> (Seq<char>, int) {
    match step {
        CleanupStep::Census => ("contain"@, 70),
        CleanupStep::Launch => ("contain"@, 70),
        CleanupStep::Contain => ("contain"@, 70),
        CleanupStep::Establish => ("prompt_turn"@, 71),
        CleanupStep::PromptTurn => ("prompt_turn"@, 71),
        CleanupStep::TypeExit => ("exit_command"@, 72),
        CleanupStep::SessionEnd => ("exit_command"@, 72),
        CleanupStep::Termination => ("termination"@, 73),
        CleanupStep::Conclude => ("tree_empty"@, 74),
        CleanupStep::TreeEmpty => ("tree_empty"@, 74),
        CleanupStep::ConsoleHost => ("console_host"@, 75),
        CleanupStep::Done => ("console_host"@, 75),
    }
}

/// The name that a step reports under.
pub fn step_name(step: CleanupStep) -> (name: &'static str)
    ensures
        name@ == step_code(step).0,
{
    match step {
        CleanupStep::Census => "contain",
        CleanupStep::Launch => "contain",
        CleanupStep::Contain => "contain",
        CleanupStep::Establish => "prompt_turn",
        CleanupStep::PromptTurn => "prompt_turn",
        CleanupStep::TypeExit => "exit_command",
        CleanupStep::SessionEnd => "exit_command",
        CleanupStep::Termination => "termination",
        CleanupStep::Conclude => "tree_empty",
        CleanupStep::TreeEmpty => "tree_empty",
        CleanupStep::ConsoleHost => "console_host",
        CleanupStep::Done => "console_host",
    }
}

/// What a failed step says, by the error it met.
pub open spec fn step_error(step: CleanupStep, error: Seq<char>) -> Seq<char> {
    match step {
        CleanupStep::TypeExit => "typing /exit failed: "@ + error,
        CleanupStep::Termination => error + " \u{2014} the CLI outlived SessionEnd by more than "@
            + decimal(60)
            + "s; that interval is a finding about shutdown drain sizing, and it still fails this lane"@,
        _ => error,
    }
}

/// The failure of a step.
pub fn fail(step: CleanupStep, error: &str) -> (failure: Failure)
    ensures
        failure.says(step_code(step).0, step_code(step).1, step_error(step, error@)),
{
    let name = step_name(step);
    match step {
        CleanupStep::Census => Failure::new(name, 70, error),
        CleanupStep::Launch => Failure::new(name, 70, error),
        CleanupStep::Contain => Failure::new(name, 70, error),
        CleanupStep::Establish => Failure::new(name, 71, error),
        CleanupStep::PromptTurn => Failure::new(name, 71, error),
        CleanupStep::TypeExit => {
            let mut text = "typing /exit failed: ".to_owned();
            text.append(error);
            Failure::new(name, 72, text.as_str())
        },
        CleanupStep::SessionEnd => Failure::new(name, 72, error),
        CleanupStep::Termination => {
            let mut text = error.to_owned();
            text.append(" \u{2014} the CLI outlived SessionEnd by more than ");
            push_u128(&mut text, TERMINATION_CEILING / 1_000_000_000);
            text.append(
                "s; that interval is a finding about shutdown drain sizing, and it still fails this lane",
            );
            Failure::new(name, 73, text.as_str())
        },
        CleanupStep::Conclude => Failure::new(name, 74, error),
        CleanupStep::TreeEmpty => Failure::new(name, 74, error),
        CleanupStep::ConsoleHost => Failure::new(name, 75, error),
        CleanupStep::Done => Failure::new(name, 75, error),
    }
}

/// The group leader's process id as the group calls take it.
pub fn containable_pid(pid: Option<u32>) -> (r: Result<i32, Failure>)
    ensures
        match pid {
            None => r matches Err(failure) && failure.says(
                "contain"@,
                70,
                "the spawned child reports no pid"@,
            ),
            Some(pid) => if pid <= i32::MAX {
                r == Ok::<i32, Failure>(pid as i32)
            } else {
                r matches Err(failure) && failure.says(
                    "contain"@,
                    70,
                    "pid "@ + decimal(pid as nat) + " does not fit i32"@,
                )
            },
        },
{
    match pid {
        None => Err(Failure::new("contain", 70, "the spawned child reports no pid")),
        Some(pid) => {
            if pid <= 2_147_483_647 {
                Ok(pid as i32)
            } else {
                let mut text = "pid ".to_owned();
                push_u64(&mut text, pid as u64);
                text.append(" does not fit i32");
                Err(Failure::new("contain", 70, text.as_str()))
            }
        },
    }
}

/// What a recorded process group reports.
pub fn group_detail(pid: i32, pgid: i32, orphans: &str) -> (text: String)
    ensures
        text@ == "child pid "@ + signed_decimal(pid as int) + " leads process group "@
            + signed_decimal(pgid as int)
            + " (the PTY spawn's setsid); group-scoped emptiness is checked after exit; "@
            + orphans@,
{
    let mut text = "child pid ".to_owned();
    push_i64(&mut text, pid as i64);
    text.append(" leads process group ");
    push_i64(&mut text, pgid as i64);
    text.append(" (the PTY spawn's setsid); group-scoped emptiness is checked after exit; ");
    text.append(orphans);
    text
}

/// What a bound job reports.
pub fn job_detail(pid: u32) -> (text: String)
    ensures
        text@ == "child pid "@ + decimal(pid as nat)
            + " bound to a KILL_ON_JOB_CLOSE job object moments after spawn; descendants spawned from here on inherit membership"@,
{
    let mut text = "child pid ".to_owned();
    push_u64(&mut text, pid as u64);
    text.append(
        " bound to a KILL_ON_JOB_CLOSE job object moments after spawn; descendants spawned from here on inherit membership",
    );
    text
}

/// What the prompt turn reports.
pub fn turn_detail(turn: &Turn) -> (text: String)
    ensures
        text@ == "turn completed in "@ + decimal((turn.duration / 1_000_000) as nat)
            + "ms (Stop observed; hooks: ["@ + joined(hook_names_view(turn.hooks@), ", "@) + "])"@,
{
    let mut text = "turn completed in ".to_owned();
    push_u64(&mut text, turn.duration / 1_000_000);
    text.append("ms (Stop observed; hooks: [");
    text.append(join(&turn.hook_names(), ", ").as_str());
    text.append("])");
    text
}

/// What an observed termination reports: the interval from the end of the
/// session to the exit is the datum.
pub fn termination_detail(exit_detail: &str, since_session_end_ns: u64) -> (text: String)
    ensures
        text@ == exit_detail@ + "; exit_after_session_end_ms="@ + decimal(
            (since_session_end_ns / 1_000_000) as nat,
        ),
{
    let mut text = exit_detail.to_owned();
    text.append("; exit_after_session_end_ms=");
    push_u64(&mut text, since_session_end_ns / 1_000_000);
    text
}

/// What an empty group reports.
pub fn empty_group_detail(pgid: i32, ms: u64) -> (text: String)
    ensures
        text@ == "group_survivors=0 \u{2014} kill(-"@ + signed_decimal(pgid as int)
            + ", 0) reports an empty process group "@ + decimal(ms as nat) + "ms after teardown"@,
{
    let mut text = "group_survivors=0 \u{2014} kill(-".to_owned();
    push_i64(&mut text, pgid as i64);
    text.append(", 0) reports an empty process group ");
    push_u64(&mut text, ms);
    text.append("ms after teardown");
    text
}

/// What an empty job reports.
pub fn empty_job_detail(ms: u64) -> (text: String)
    ensures
        text@ == "group_survivors=0 \u{2014} the job object reports zero members "@ + decimal(
            ms as nat,
        ) + "ms after teardown"@,
{
    let mut text = "group_survivors=0 \u{2014} the job object reports zero members ".to_owned();
    push_u64(&mut text, ms);
    text.append("ms after teardown");
    text
}

/// Whether a console host survived. There is none to leak but on Windows.
/// `leaked` is what a census there found. Gives the step's status and detail.
pub fn console_host_check(leaked: &Option<Vec<u32>>) -> (r: Result<
    (&'static str, &'static str),
    Failure,
>)
    ensures
        match *leaked {
            None => r matches Ok((status, detail)) && status@ == "skip"@ && detail@
                == "the ConPTY console host is a Windows artifact; nothing exists to leak here"@,
            Some(pids) => if pids@.len() == 0 {
                r matches Ok((status, detail)) && status@ == "pass"@ && detail@
                    == "console_host_gone=true \u{2014} no conhost.exe/OpenConsole.exe spawned by this run survives"@
            } else {
                r matches Err(failure) && failure.says(
                    "console_host"@,
                    75,
                    "console_host_gone=false \u{2014} ConPTY console host(s) survived teardown: "@
                        + pid_list(pids@),
                )
            },
        },
{
    match leaked {
        None => Ok(
            (
                "skip",
                "the ConPTY console host is a Windows artifact; nothing exists to leak here",
            ),
        ),
        Some(pids) => {
            if pids.len() == 0 {
                Ok(
                    (
                        "pass",
                        "console_host_gone=true \u{2014} no conhost.exe/OpenConsole.exe spawned by this run survives",
                    ),
                )
            } else {
                let mut text =
                    "console_host_gone=false \u{2014} ConPTY console host(s) survived teardown: ".to_owned();
                text.append(show_pids(pids).as_str());
                Err(Failure::new("console_host", 75, text.as_str()))
            }
        },
    }
}

/// The step after a step.
pub open spec fn cleanup_next(step: CleanupStep) -> CleanupStep {
    match step {
        CleanupStep::Census => CleanupStep::Launch,
        CleanupStep::Launch => CleanupStep::Contain,
        CleanupStep::Contain => CleanupStep::Establish,
        CleanupStep::Establish => CleanupStep::PromptTurn,
        CleanupStep::PromptTurn => CleanupStep::TypeExit,
        CleanupStep::TypeExit => CleanupStep::SessionEnd,
        CleanupStep::SessionEnd => CleanupStep::Termination,
        CleanupStep::Termination => CleanupStep::Conclude,
        CleanupStep::Conclude => CleanupStep::TreeEmpty,
        CleanupStep::TreeEmpty => CleanupStep::ConsoleHost,
        CleanupStep::ConsoleHost => CleanupStep::Done,
        CleanupStep::Done => CleanupStep::Done,
    }
}

fn following(step: CleanupStep) -> (next: CleanupStep)
    ensures
        next == cleanup_next(step),
{
    match step {
        CleanupStep::Census => CleanupStep::Launch,
        CleanupStep::Launch => CleanupStep::Contain,
        CleanupStep::Contain => CleanupStep::Establish,
        CleanupStep::Establish => CleanupStep::PromptTurn,
        CleanupStep::PromptTurn => CleanupStep::TypeExit,
        CleanupStep::TypeExit => CleanupStep::SessionEnd,
        CleanupStep::SessionEnd => CleanupStep::Termination,
        CleanupStep::Termination => CleanupStep::Conclude,
        CleanupStep::Conclude => CleanupStep::TreeEmpty,
        CleanupStep::TreeEmpty => CleanupStep::ConsoleHost,
        CleanupStep::ConsoleHost => CleanupStep::Done,
        CleanupStep::Done => CleanupStep::Done,
    }
}

/// Whether the session is up at a step, so that failing there has to abandon it.
pub open spec fn session_up(step: CleanupStep) -> bool {
    step == CleanupStep::Contain || step == CleanupStep::Establish || step
        == CleanupStep::PromptTurn || step == CleanupStep::TypeExit || step
        == CleanupStep::SessionEnd || step == CleanupStep::Termination
}

/// What performing a step gave.
#[derive(Debug)]
pub enum CleanupEvent {
    /// It was performed.
    Performed,
    /// It was performed, with what it reports.
    Reported { detail: String },
    /// The console hosts that were left, where there can be any.
    Hosts { leaked: Option<Vec<u32>> },
    Failed { error: String },
    /// It failed with a failure of its own.
    Refused { failure: Failure },
}

/// What the lane does next.
#[derive(Debug)]
pub enum CleanupMove {
    /// Perform a step, once the status and detail of the last one are reported,
    /// where it has any.
    Next { step: CleanupStep, report: Option<(&'static str, String)> },
    /// Fail, and abandon the session where it is up.
    Fail { failure: Failure, abandon: bool },
}

/// Whether a move goes on to the next step, with that status and detail reported.
pub open spec fn moves_on(m: CleanupMove, step: CleanupStep, report: Option<(Seq<char>, Seq<char>)>) -> bool {
    m matches CleanupMove::Next { step: next, report: said } && next == cleanup_next(step) && match (
        said,
        report,
    ) {
        (Some((status, detail)), Some((word, text))) => status@ == word && detail@ == text,
        (None, None) => true,
        _ => false,
    }
}

/// What an accepted exit command reports.
pub open spec fn exit_text() -> Seq<char> {
    "/exit typed; SessionEnd over the hook channel \u{2014} the CLI accepted the shutdown"@
}

/// One step of the lane. A step that fails ends it, and takes the session down
/// while that is up. An event that does not answer a step changes nothing.
pub fn advance(step: CleanupStep, event: CleanupEvent) -> (m: CleanupMove)
    ensures
        match (step, event) {
            (_, CleanupEvent::Failed { error }) => m matches CleanupMove::Fail { failure, abandon }
                && failure.says(step_code(step).0, step_code(step).1, step_error(step, error@))
                && abandon == session_up(step),
            (_, CleanupEvent::Refused { failure }) => m == (CleanupMove::Fail {
                failure,
                abandon: session_up(step),
            }),
            (
                CleanupStep::Census | CleanupStep::Launch | CleanupStep::Establish
                | CleanupStep::TypeExit | CleanupStep::Conclude,
                CleanupEvent::Performed,
            ) => moves_on(m, step, None),
            (CleanupStep::SessionEnd, CleanupEvent::Performed) => moves_on(
                m,
                step,
                Some(("pass"@, exit_text())),
            ),
            (
                CleanupStep::Contain | CleanupStep::PromptTurn | CleanupStep::Termination
                | CleanupStep::TreeEmpty,
                CleanupEvent::Reported { detail },
            ) => moves_on(m, step, Some(("pass"@, detail@))),
            (CleanupStep::ConsoleHost, CleanupEvent::Hosts { leaked }) => match leaked {
                None => moves_on(
                    m,
                    step,
                    Some(
                        (
                            "skip"@,
                            "the ConPTY console host is a Windows artifact; nothing exists to leak here"@,
                        ),
                    ),
                ),
                Some(pids) => if pids@.len() == 0 {
                    moves_on(
                        m,
                        step,
                        Some(
                            (
                                "pass"@,
                                "console_host_gone=true \u{2014} no conhost.exe/OpenConsole.exe spawned by this run survives"@,
                            ),
                        ),
                    )
                } else {
                    m matches CleanupMove::Fail { failure, abandon } && !abandon && failure.says(
                        "console_host"@,
                        75,
                        "console_host_gone=false \u{2014} ConPTY console host(s) survived teardown: "@
                            + pid_list(pids@),
                    )
                },
            },
            _ => m == (CleanupMove::Next { step, report: None }),
        },
{
    let up = step == CleanupStep::Contain || step == CleanupStep::Establish || step
        == CleanupStep::PromptTurn || step == CleanupStep::TypeExit || step
        == CleanupStep::SessionEnd || step == CleanupStep::Termination;
    match (step, event) {
        (_, CleanupEvent::Failed { error }) => CleanupMove::Fail {
            failure: fail(step, error.as_str()),
            abandon: up,
        },
        (_, CleanupEvent::Refused { failure }) => CleanupMove::Fail { failure, abandon: up },
        (
            CleanupStep::Census | CleanupStep::Launch | CleanupStep::Establish
            | CleanupStep::TypeExit | CleanupStep::Conclude,
            CleanupEvent::Performed,
        ) => CleanupMove::Next { step: following(step), report: None },
        (CleanupStep::SessionEnd, CleanupEvent::Performed) => CleanupMove::Next {
            step: following(step),
            report: Some(
                (
                    "pass",
                    "/exit typed; SessionEnd over the hook channel \u{2014} the CLI accepted the shutdown".to_owned(),
                ),
            ),
        },
        (
            CleanupStep::Contain | CleanupStep::PromptTurn | CleanupStep::Termination
            | CleanupStep::TreeEmpty,
            CleanupEvent::Reported { detail },
        ) => CleanupMove::Next { step: following(step), report: Some(("pass", detail)) },
        (CleanupStep::ConsoleHost, CleanupEvent::Hosts { leaked }) => match console_host_check(
            &leaked,
        ) {
            Ok((status, detail)) => CleanupMove::Next {
                step: following(step),
                report: Some((status, detail.to_owned())),
            },
            Err(failure) => CleanupMove::Fail { failure, abandon: false },
        },
        _ => CleanupMove::Next { step, report: None },
    }
}

/// How many steps of the lane are left.
pub open spec fn steps_left(step: CleanupStep) -> nat {
    match step {
        CleanupStep::Census => 11,
        CleanupStep::Launch => 10,
        CleanupStep::Contain => 9,
        CleanupStep::Establish => 8,
        CleanupStep::PromptTurn => 7,
        CleanupStep::TypeExit => 6,
        CleanupStep::SessionEnd => 5,
        CleanupStep::Termination => 4,
        CleanupStep::Conclude => 3,
        CleanupStep::TreeEmpty => 2,
        CleanupStep::ConsoleHost => 1,
        CleanupStep::Done => 0,
    }
}

/// Every performed step brings the lane nearer to its end, and the session is
/// torn down on every way out: it is up from the launch until the terminal is
/// released, and no longer.
pub proof fn law_a_cleanup_ends_without_its_session(step: CleanupStep)
    ensures
        step != CleanupStep::Done ==> steps_left(cleanup_next(step)) < steps_left(step),
        steps_left(step) == 0 <==> step == CleanupStep::Done,
        session_up(cleanup_next(CleanupStep::Launch)),
        session_up(step) ==> session_up(cleanup_next(step)) || cleanup_next(step)
            == CleanupStep::Conclude,
        !session_up(step) && session_up(cleanup_next(step)) ==> step == CleanupStep::Launch,
{
}

/// The lane takes its steps in turn, none skipped, and each fails with the code of
/// its part.
pub proof fn law_the_cleanup_takes_its_steps_in_turn(step: CleanupStep)
    ensures
        step != CleanupStep::Done ==> steps_left(cleanup_next(step)) == steps_left(step) - 1,
        step_code(step).1 == 70 <==> steps_left(step) >= 9,
        step_code(step).1 == 71 <==> step == CleanupStep::Establish || step
            == CleanupStep::PromptTurn,
        step_code(step).1 == 72 <==> step == CleanupStep::TypeExit || step
            == CleanupStep::SessionEnd,
        step_code(step).1 == 73 <==> step == CleanupStep::Termination,
        step_code(step).1 == 74 <==> step == CleanupStep::Conclude || step
            == CleanupStep::TreeEmpty,
        70 <= step_code(step).1 <= 75,
        session_up(step) <==> 4 <= steps_left(step) <= 9,
{
}

/// A process id can be contained exactly when there is one and the group calls can
/// take it, and is then passed on as it is.
pub proof fn law_a_pid_is_contained_as_it_is(pid: Option<u32>, r: Result<i32, Failure>)
    requires
        call_ensures(containable_pid, (pid,), r),
    ensures
        r is Ok <==> (pid matches Some(n) && n < 0x8000_0000),
        r matches Ok(n) ==> n == pid->0,
        r matches Err(f) ==> f.code == 70,
{
}

/// A failure or a refusal ends the cleanup in any step; of events beside those only
/// a console host that outlived the session does.
pub proof fn law_what_ends_a_cleanup(step: CleanupStep, event: CleanupEvent, m: CleanupMove)
    requires
        call_ensures(advance, (step, event), m),
    ensures
        event is Failed ==> m is Fail,
        event matches CleanupEvent::Refused { failure } ==> (m matches CleanupMove::Fail {
            failure: passed,
            ..
        } && passed == failure),
        event is Performed || event is Reported ==> m is Next,
        event matches CleanupEvent::Hosts { leaked } ==> (m is Fail <==> step is ConsoleHost && (
        leaked matches Some(pids) && pids@.len() > 0)),
{
}

/// A step that was performed leads to the next one in turn. What it reports is
/// passed on as it is, under `pass`; steps without a report pass none on.
pub proof fn law_a_performed_step_leads_to_the_next(
    step: CleanupStep,
    event: CleanupEvent,
    m: CleanupMove,
)
    requires
        call_ensures(advance, (step, event), m),
    ensures
        event is Performed && (step is Census || step is Launch || step is Establish || step
            is TypeExit || step is SessionEnd || step is Conclude) ==> (m
            matches CleanupMove::Next { step: next, report } && steps_left(next) == steps_left(step)
            - 1 && (report is Some <==> step is SessionEnd)),
        step is Contain || step is PromptTurn || step is Termination || step is TreeEmpty ==> (event
            matches CleanupEvent::Reported { detail } ==> (m matches CleanupMove::Next {
            step: next,
            report,
        } && steps_left(next) == steps_left(step) - 1 && (report matches Some((status, said))
            && status@ == "pass"@ && said@ == detail@))),
        step is ConsoleHost ==> (event matches CleanupEvent::Hosts { leaked } ==> ((leaked
            matches Some(pids) && pids@.len() > 0) || (m matches CleanupMove::Next {
            step: next,
            report,
        } && next is Done && (report matches Some((status, _)) && status@ == if leaked is None {
            "skip"@
        } else {
            "pass"@
        })))),
{
}

} // verus!
