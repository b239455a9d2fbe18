//! Launching a session: the order of the steps, what each failure says and
//! exits with, and what has to be killed on the way out.
use vstd::prelude::*;
use vstd::string::*;

use crate::failure::Failure;
use crate::text::{
    chars_of, decimal, is_digit, push_u64, text_of,
};

verus! {

/// Whether a character is a hexadecimal digit in lower case.
pub open spec fn is_hex(c: char) -> bool {
    is_digit(c) || 'a' <= c <= 'f'
}

/// Whether a text has the shape of an identifier: groups of 8, 4, 4, 4 and 12
/// hexadecimal digits with hyphens between.
pub open spec fn is_identifier(s: Seq<char>) -> bool {
    &&& s.len() == 36
    &&& forall|i: int|
        0 <= i < 36 ==> if i == 8 || i == 13 || i == 18 || i == 23 {
            #[trigger] s[i] == '-'
        } else {
            is_hex(s[i])
        }
}

/// `uuid::Uuid::new_v4`, as text: a random identifier in its hyphenated form.
/// Which one it is, is chance.
#[verifier::external_body]
pub(crate) fn new_identifier() -> (id: String)
    ensures
        is_identifier(id@),
{
    uuid::Uuid::new_v4().to_string()
}

/// What a launch is known by.
#[derive(Debug)]
pub struct LaunchNames {
    pub id: String,
    /// The first eight digits of the identifier.
    pub short_id: String,
    pub workdir: String,
    /// The capture's file name, where the caller names none.
    pub capture: String,
}

/// The first eight characters of an identifier.
fn shortened(id: &str) -> (short: String)
    requires
        id@.len() >= 8,
    ensures
        short@ == id@.take(8),
{
    let chars = chars_of(id);
    let head = vstd::slice::slice_subrange(chars.as_slice(), 0, 8);
    assert(head@ =~= id@.take(8));
    text_of(head)
}

/// The names of a launch under an identifier. `program` leads the work
/// directory's name.
pub fn names_for(id: String, program: &str) -> (names: LaunchNames)
    requires
        id@.len() >= 8,
    ensures
        names.id@ == id@,
        names.short_id@ == id@.take(8),
        names.workdir@ == program@ + "-"@ + id@.take(8),
        names.capture@ == "agent-bridge-capture-"@ + id@.take(8) + ".ndjson"@,
{
    let short_id = shortened(id.as_str());
    let mut workdir = program.to_owned();
    workdir.append("-");
    workdir.append(short_id.as_str());
    let mut capture = "agent-bridge-capture-".to_owned();
    capture.append(short_id.as_str());
    capture.append(".ndjson");
    LaunchNames { id, short_id, workdir, capture }
}

/// The names of a new live session.
pub fn session_names() -> (names: LaunchNames)
    ensures
        is_identifier(names.id@),
        names.short_id@ == names.id@.take(8),
        names.workdir@ == "agent-bridge-interactive-probe"@ + "-"@ + names.id@.take(8),
        names.capture@ == "agent-bridge-capture-"@ + names.id@.take(8) + ".ndjson"@,
{
    names_for(new_identifier(), "agent-bridge-interactive-probe")
}

/// The names of a new recorded session.
pub fn recording_names() -> (names: LaunchNames)
    ensures
        is_identifier(names.id@),
        names.short_id@ == names.id@.take(8),
        names.workdir@ == "agent-bridge-record"@ + "-"@ + names.id@.take(8),
        names.capture@ == "agent-bridge-capture-"@ + names.id@.take(8) + ".ndjson"@,
{
    names_for(new_identifier(), "agent-bridge-record")
}

/// A step of a launch, in order.
#[derive(Clone, Copy, PartialEq, Eq, Debug, Structural)]
pub enum LaunchStep {
    /// Find the binary.
    Resolve,
    /// Ask its version.
    Version,
    /// Allocate the terminal.
    Alloc,
    /// Create the directory that the session runs in.
    Directory,
    /// Start the hook listener.
    Listener,
    /// Find the forwarder's own path.
    Forwarder,
    /// Write the hook settings.
    Settings,
    /// Spawn the child.
    Spawn,
    /// Create the capture file.
    Capture,
    /// Open the terminal's reader.
    Reader,
    /// Open the terminal's writer.
    Writer,
    Done,
}

/// Which launch it is: that of a live session, or that of a recorded CLI
/// without a hook channel.
#[derive(Clone, Copy, PartialEq, Eq, Debug, Structural)]
pub enum Profile {
    Live,
    Generic,
}

/// The step after a step.
pub open spec fn launch_next(profile: Profile, step: LaunchStep) -> LaunchStep {
    match step {
        LaunchStep::Resolve => if profile == Profile::Live {
            LaunchStep::Version
        } else {
            LaunchStep::Alloc
        },
        LaunchStep::Version => LaunchStep::Alloc,
        LaunchStep::Alloc => LaunchStep::Directory,
        LaunchStep::Directory => if profile == Profile::Live {
            LaunchStep::Listener
        } else {
            LaunchStep::Spawn
        },
        LaunchStep::Listener => LaunchStep::Forwarder,
        LaunchStep::Forwarder => LaunchStep::Settings,
        LaunchStep::Settings => LaunchStep::Spawn,
        LaunchStep::Spawn => LaunchStep::Capture,
        LaunchStep::Capture => LaunchStep::Reader,
        LaunchStep::Reader => LaunchStep::Writer,
        LaunchStep::Writer => LaunchStep::Done,
        LaunchStep::Done => LaunchStep::Done,
    }
}

/// The step after a step.
pub fn next_launch_step(profile: Profile, step: LaunchStep) -> (next: LaunchStep)
    ensures
        next == launch_next(profile, step),
{
    match step {
        LaunchStep::Resolve => {
            if profile == Profile::Live {
                LaunchStep::Version
            } else {
                LaunchStep::Alloc
            }
        },
        LaunchStep::Version => LaunchStep::Alloc,
        LaunchStep::Alloc => LaunchStep::Directory,
        LaunchStep::Directory => {
            if profile == Profile::Live {
                LaunchStep::Listener
            } else {
                LaunchStep::Spawn
            }
        },
        LaunchStep::Listener => LaunchStep::Forwarder,
        LaunchStep::Forwarder => LaunchStep::Settings,
        LaunchStep::Settings => LaunchStep::Spawn,
        LaunchStep::Spawn => LaunchStep::Capture,
        LaunchStep::Capture => LaunchStep::Reader,
        LaunchStep::Reader => LaunchStep::Writer,
        LaunchStep::Writer => LaunchStep::Done,
        LaunchStep::Done => LaunchStep::Done,
    }
}

/// Whether a child exists at a step but nothing owns it yet, so that failing
/// there has to kill it.
pub open spec fn child_unowned(step: LaunchStep) -> bool {
    step == LaunchStep::Capture || step == LaunchStep::Reader || step == LaunchStep::Writer
}

/// Whether failing at a step has to kill the child.
pub fn must_kill(step: LaunchStep) -> (yes: bool)
    ensures
        yes == child_unowned(step),
{
    step == LaunchStep::Capture || step == LaunchStep::Reader || step == LaunchStep::Writer
}

/// The name that a step reports under.
pub open spec fn launch_name(profile: Profile, step: LaunchStep) -> Seq<char> {
    match step {
        LaunchStep::Resolve => if profile == Profile::Live {
            "version"@
        } else {
            "spawn"@
        },
        LaunchStep::Version => "version"@,
        LaunchStep::Alloc => "alloc"@,
        LaunchStep::Directory => if profile == Profile::Live {
            "workspace"@
        } else {
            "spawn"@
        },
        LaunchStep::Listener => "workspace"@,
        LaunchStep::Forwarder => "workspace"@,
        LaunchStep::Settings => "workspace"@,
        _ => "spawn"@,
    }
}

/// The name that a step reports under.
pub fn step_name(profile: Profile, step: LaunchStep) -> (name: &'static str)
    ensures
        name@ == launch_name(profile, step),
{
    match step {
        LaunchStep::Resolve => {
            if profile == Profile::Live {
                "version"
            } else {
                "spawn"
            }
        },
        LaunchStep::Version => "version",
        LaunchStep::Alloc => "alloc",
        LaunchStep::Directory => {
            if profile == Profile::Live {
                "workspace"
            } else {
                "spawn"
            }
        },
        LaunchStep::Listener => "workspace",
        LaunchStep::Forwarder => "workspace",
        LaunchStep::Settings => "workspace",
        _ => "spawn",
    }
}

/// The exit code of a failed step.
pub open spec fn launch_code(profile: Profile, step: LaunchStep) -> int {
    match profile {
        Profile::Live => match step {
            LaunchStep::Resolve => 30,
            LaunchStep::Version => 30,
            LaunchStep::Alloc => 31,
            LaunchStep::Directory => 32,
            LaunchStep::Listener => 32,
            LaunchStep::Forwarder => 32,
            LaunchStep::Settings => 32,
            _ => 33,
        },
        Profile::Generic => if step == LaunchStep::Alloc {
            81
        } else {
            82
        },
    }
}

fn code_for(profile: Profile, step: LaunchStep) -> (code: i32)
    ensures
        code == launch_code(profile, step),
{
    match profile {
        Profile::Live => match step {
            LaunchStep::Resolve => 30,
            LaunchStep::Version => 30,
            LaunchStep::Alloc => 31,
            LaunchStep::Directory => 32,
            LaunchStep::Listener => 32,
            LaunchStep::Forwarder => 32,
            LaunchStep::Settings => 32,
            _ => 33,
        },
        Profile::Generic => {
            if step == LaunchStep::Alloc {
                81
            } else {
                82
            }
        },
    }
}

/// What a failed step says of the error that it met. `target` is the directory
/// that was to be created.
pub open spec fn launch_error(step: LaunchStep, target: Seq<char>, error: Seq<char>) -> Seq<char> {
    match step {
        LaunchStep::Directory => "creating "@ + target + " failed: "@ + error,
        LaunchStep::Listener => "hook listener failed to start: "@ + error,
        LaunchStep::Forwarder => "current_exe failed: "@ + error,
        LaunchStep::Settings => "writing settings failed: "@ + error,
        LaunchStep::Spawn => "child spawn failed: "@ + error,
        LaunchStep::Capture => "creating the capture file failed: "@ + error,
        LaunchStep::Reader => "cloning the reader failed: "@ + error,
        LaunchStep::Writer => "taking the writer failed: "@ + error,
        _ => error,
    }
}

/// The failure of a step. Where a child existed, it has been killed, and the
/// failure says what became of it.
pub fn launch_failure(
    profile: Profile,
    step: LaunchStep,
    target: &str,
    error: &str,
    killed: &str,
) -> (failure: Failure)
    ensures
        failure.says(
            launch_name(profile, step),
            launch_code(profile, step),
            if child_unowned(step) {
                launch_error(step, target@, error@) + "; the child was "@ + killed@
            } else {
                launch_error(step, target@, error@)
            },
        ),
{
    let mut text = match step {
        LaunchStep::Directory => {
            let mut text = "creating ".to_owned();
            text.append(target);
            text.append(" failed: ");
            text
        },
        LaunchStep::Listener => "hook listener failed to start: ".to_owned(),
        LaunchStep::Forwarder => "current_exe failed: ".to_owned(),
        LaunchStep::Settings => "writing settings failed: ".to_owned(),
        LaunchStep::Spawn => "child spawn failed: ".to_owned(),
        LaunchStep::Capture => "creating the capture file failed: ".to_owned(),
        LaunchStep::Reader => "cloning the reader failed: ".to_owned(),
        LaunchStep::Writer => "taking the writer failed: ".to_owned(),
        _ => String::new(),
    };
    text.append(error);
    assert(text@ =~= launch_error(step, target@, error@));
    if must_kill(step) {
        text.append("; the child was ");
        text.append(killed);
    }
    Failure::new(step_name(profile, step), code_for(profile, step), text.as_str())
}

/// The steps left of a launch.
pub open spec fn launch_left(step: LaunchStep) -> nat {
    match step {
        LaunchStep::Resolve => 11,
        LaunchStep::Version => 10,
        LaunchStep::Alloc => 9,
        LaunchStep::Directory => 8,
        LaunchStep::Listener => 7,
        LaunchStep::Forwarder => 6,
        LaunchStep::Settings => 5,
        LaunchStep::Spawn => 4,
        LaunchStep::Capture => 3,
        LaunchStep::Reader => 2,
        LaunchStep::Writer => 1,
        LaunchStep::Done => 0,
    }
}

/// A launch ends, and from the spawn to the end every step on which it can fail
/// kills the child: no early way out leaves one running.
pub proof fn law_no_launch_leaks_its_child(profile: Profile, step: LaunchStep)
    ensures
        step != LaunchStep::Done ==> launch_left(launch_next(profile, step)) < launch_left(step),
        launch_left(step) < launch_left(LaunchStep::Spawn) && step != LaunchStep::Done
            <==> child_unowned(step),
{
}

/// What a found binary and its version report.
pub fn version_detail(version: &str, binary: &str) -> (text: String)
    ensures
        text@ == version@ + " \u{2014} `"@ + binary@ + "`"@,
{
    let mut text = version.to_owned();
    text.append(" \u{2014} `");
    text.append(binary);
    text.append("`");
    text
}

/// What an allocated terminal reports.
pub fn alloc_detail(cols: u16, rows: u16, ms: u64) -> (text: String)
    ensures
        text@ == "pty allocated at "@ + decimal(cols as nat) + "x"@ + decimal(rows as nat) + " in "@
            + decimal(ms as nat) + "ms"@,
{
    let mut text = "pty allocated at ".to_owned();
    push_u64(&mut text, cols as u64);
    text.append("x");
    push_u64(&mut text, rows as u64);
    text.append(" in ");
    push_u64(&mut text, ms);
    text.append("ms");
    text
}

/// What a prepared workspace reports.
pub fn workspace_detail(project_dir: &str, endpoint: &str) -> (text: String)
    ensures
        text@ == "fresh project dir "@ + project_dir@
            + " (untrusted, so the trust dialog will appear); hooks listening at "@ + endpoint@,
{
    let mut text = "fresh project dir ".to_owned();
    text.append(project_dir);
    text.append(" (untrusted, so the trust dialog will appear); hooks listening at ");
    text.append(endpoint);
    text
}

/// A process id as a detail shows it.
pub open spec fn pid_text(pid: Option<u32>) -> Seq<char> {
    match pid {
        Some(pid) => decimal(pid as nat),
        None => "unknown"@,
    }
}

fn push_pid(text: &mut String, pid: Option<u32>)
    ensures
        final(text)@ == old(text)@ + pid_text(pid),
{
    match pid {
        Some(pid) => push_u64(text, pid as u64),
        None => text.append("unknown"),
    }
}

/// What a spawned session reports.
pub fn spawn_detail(binary: &str, pid: Option<u32>, session_id: &str, capture: &str) -> (text:
    String)
    ensures
        text@ == "spawned `"@ + binary@ + "` pid="@ + pid_text(pid) + " session-id="@ + session_id@
            + "; capturing to "@ + capture@,
{
    let mut text = "spawned `".to_owned();
    text.append(binary);
    text.append("` pid=");
    push_pid(&mut text, pid);
    text.append(" session-id=");
    text.append(session_id);
    text.append("; capturing to ");
    text.append(capture);
    text
}

/// What a spawned generic child reports.
pub fn generic_spawn_detail(binary: &str, pid: Option<u32>, workdir: &str) -> (text: String)
    ensures
        text@ == "spawned `"@ + binary@ + "` pid="@ + pid_text(pid) + " in "@ + workdir@,
{
    let mut text = "spawned `".to_owned();
    text.append(binary);
    text.append("` pid=");
    push_pid(&mut text, pid);
    text.append(" in ");
    text.append(workdir);
    text
}

/// A live launch goes through every step in turn; one without a hook channel asks
/// no version and prepares no hooks.
pub proof fn law_a_launch_takes_its_steps_in_turn(step: LaunchStep)
    ensures
        step != LaunchStep::Done ==> launch_left(launch_next(Profile::Live, step)) == launch_left(
            step,
        ) - 1,
        launch_next(Profile::Generic, LaunchStep::Resolve) == LaunchStep::Alloc,
        launch_next(Profile::Generic, LaunchStep::Directory) == LaunchStep::Spawn,
        step != LaunchStep::Resolve && step != LaunchStep::Directory ==> launch_next(
            Profile::Generic,
            step,
        ) == launch_next(Profile::Live, step),
        launch_next(Profile::Live, LaunchStep::Done) == LaunchStep::Done,
{
}

/// A failed launch exits with the code of its step: of a live session the version,
/// the terminal, the workspace or the spawn, of any other the terminal or the
/// rest.
pub proof fn law_a_failed_launch_exits_with_its_code(step: LaunchStep)
    ensures
        launch_code(Profile::Live, step) == 30 <==> step == LaunchStep::Resolve || step
            == LaunchStep::Version,
        launch_code(Profile::Live, step) == 31 <==> step == LaunchStep::Alloc,
        launch_code(Profile::Live, step) == 32 <==> step == LaunchStep::Directory || step
            == LaunchStep::Listener || step == LaunchStep::Forwarder || step
            == LaunchStep::Settings,
        30 <= launch_code(Profile::Live, step) <= 33,
        launch_code(Profile::Generic, step) == 81 <==> step == LaunchStep::Alloc,
        launch_code(Profile::Generic, step) == 82 <==> step != LaunchStep::Alloc,
{
}

} // verus!
