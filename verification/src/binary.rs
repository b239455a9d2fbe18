//! Finding the CLI to launch and asking its version: what the answers of the
//! file system and of the child come to.
use vstd::prelude::*;
use vstd::string::*;

use crate::environ::{eq_ignoring_case, same_but_case};
use crate::lines::{decode_lossy, lossy};
use crate::report::optional_text;
use crate::rig::VERSION_TIMEOUT;
use crate::text::{decimal, push_u64, trim, trimmed};

verus! {

/// Whether a file is a batch shim, by its extension.
pub open spec fn batch_shim(extension: Option<Seq<char>>) -> bool {
    match extension {
        Some(ext) => same_but_case(ext, "cmd"@) || same_but_case(ext, "bat"@),
        None => false,
    }
}

/// Why a batch shim is refused. `live` names the CLI to launch.
pub open spec fn shim_fault(path: Seq<char>, live: Seq<char>) -> Seq<char> {
    path + " is a batch shim, which cannot be spawned under a PTY. Point --"@ + live
        + "-bin at the real executable"@
}

fn shim_text(path: &str, live: &str) -> (text: String)
    ensures
        text@ == shim_fault(path@, live@),
{
    let mut text = path.to_owned();
    text.append(" is a batch shim, which cannot be spawned under a PTY. Point --");
    text.append(live);
    text.append("-bin at the real executable");
    text
}

/// Refuse a batch shim: on Windows it cannot be spawned under a terminal,
/// wherever it came from. `live` names the CLI to launch.
pub fn reject_batch_shim(
    path: &str,
    extension: &Option<String>,
    windows: bool,
    live: &str,
) -> (r: Result<(), String>)
    ensures
        match r {
            Ok(()) => !(windows && batch_shim(optional_text(*extension))),
            Err(text) => windows && batch_shim(optional_text(*extension)) && text@ == shim_fault(
                path@,
                live@,
            ),
        },
{
    let shim = match extension {
        Some(ext) => eq_ignoring_case(ext.as_str(), "cmd") || eq_ignoring_case(
            ext.as_str(),
            "bat",
        ),
        None => false,
    };
    if windows && shim {
        Err(shim_text(path, live))
    } else {
        Ok(())
    }
}

/// How the binary that is asked for is found.
#[derive(Clone, Copy, PartialEq, Eq, Debug, Structural)]
pub enum Lookup {
    /// It is a path, taken as it is.
    Explicit,
    /// It is a bare name, looked up in the directories of the search path.
    Search,
}

/// How the binary that is asked for is found, by the number of components of the
/// path that it makes.
pub fn lookup(components: usize) -> (how: Lookup)
    ensures
        how == if components > 1 {
            Lookup::Explicit
        } else {
            Lookup::Search
        },
{
    if components > 1 {
        Lookup::Explicit
    } else {
        Lookup::Search
    }
}

/// Whether an explicit path names a file that can be executed.
pub fn explicit_binary(
    name: &str,
    is_dir: bool,
    is_file: bool,
    extension: &Option<String>,
    windows: bool,
    live: &str,
) -> (r: Result<(), String>)
    ensures
        match r {
            Ok(()) => !is_dir && is_file && !(windows && batch_shim(optional_text(*extension))),
            Err(text) => if is_dir {
                text@ == name@ + " is a directory, not an executable"@
            } else if !is_file {
                text@ == name@ + " does not exist"@
            } else {
                windows && batch_shim(optional_text(*extension)) && text@ == shim_fault(
                    name@,
                    live@,
                )
            },
        },
{
    if is_dir {
        let mut text = name.to_owned();
        text.append(" is a directory, not an executable");
        return Err(text);
    }
    if !is_file {
        let mut text = name.to_owned();
        text.append(" does not exist");
        return Err(text);
    }
    reject_batch_shim(name, extension, windows, live)
}

/// The files that one directory of the search path has under a name: as it is,
/// and with the suffixes that count on Windows.
#[derive(Debug)]
pub struct PathHit {
    pub exe: Option<String>,
    pub plain: Option<String>,
    pub cmd: Option<String>,
    pub bat: Option<String>,
}

/// What a directory of the search path decides: the file to run, a refusal, or
/// nothing.
pub open spec fn hit_decides(hit: PathHit, windows: bool, live: Seq<char>) -> Option<
    Result<Seq<char>, Seq<char>>,
> {
    if windows && hit.exe is Some {
        Some(Ok(hit.exe->Some_0@))
    } else if hit.plain is Some {
        Some(Ok(hit.plain->Some_0@))
    } else if windows && hit.cmd is Some {
        Some(Err(shim_fault(hit.cmd->Some_0@, live)))
    } else if windows && hit.bat is Some {
        Some(Err(shim_fault(hit.bat->Some_0@, live)))
    } else {
        None
    }
}

/// What a search path decides: what its first directory that decides does.
pub open spec fn path_decides(
    name: Seq<char>,
    hits: Seq<PathHit>,
    windows: bool,
    live: Seq<char>,
) -> Result<Seq<char>, Seq<char>>
    decreases hits.len(),
{
    if hits.len() == 0 {
        Err(name + " not found on PATH"@)
    } else {
        match hit_decides(hits[0], windows, live) {
            Some(r) => r,
            None => path_decides(name, hits.drop_first(), windows, live),
        }
    }
}

/// Find a binary on the search path. `None` stands for a path that is not set.
pub fn find_on_path(
    name: &str,
    hits: &Option<Vec<PathHit>>,
    windows: bool,
    live: &str,
) -> (r: Result<String, String>)
    ensures
        match (*hits, r) {
            (None, Err(text)) => text@ == "PATH is not set"@,
            (Some(list), Ok(path)) => path_decides(name@, list@, windows, live@) == Ok::<
                Seq<char>,
                Seq<char>,
            >(path@),
            (Some(list), Err(text)) => path_decides(name@, list@, windows, live@) == Err::<
                Seq<char>,
                Seq<char>,
            >(text@),
            _ => false,
        },
{
    let list = match hits {
        Some(list) => list,
        None => {
            return Err("PATH is not set".to_owned());
        },
    };
    let mut i: usize = 0;
    assert(list@.skip(0) =~= list@);
    while i < list.len()
        invariant
            *hits == Some(*list),
            i <= list@.len(),
            path_decides(name@, list@, windows, live@) == path_decides(
                name@,
                list@.skip(i as int),
                windows,
                live@,
            ),
        decreases list@.len() - i,
    {
        assert(list@.skip(i as int).drop_first() =~= list@.skip(i + 1));
        let hit = &list[i];
        if windows {
            match &hit.exe {
                Some(path) => {
                    return Ok(path.clone());
                },
                None => {},
            }
        }
        match &hit.plain {
            Some(path) => {
                return Ok(path.clone());
            },
            None => {},
        }
        if windows {
            match &hit.cmd {
                Some(path) => {
                    return Err(shim_text(path.as_str(), live));
                },
                None => {},
            }
            match &hit.bat {
                Some(path) => {
                    return Err(shim_text(path.as_str(), live));
                },
                None => {},
            }
        }
        i += 1;
    }
    let mut text = name.to_owned();
    text.append(" not found on PATH");
    Err(text)
}

/// One poll of the child that is asked its version.
#[derive(Debug)]
pub enum VersionPoll {
    Exited,
    Running,
    Failed { error: String },
}

/// What a poll comes to.
#[derive(Debug)]
pub enum VersionStep {
    /// Read the answer.
    Read,
    Wait,
    /// Kill the child: it did not answer in time.
    Kill,
    /// Kill the child: it cannot be waited on.
    Fail(String),
}

/// Decide a poll of the child that is asked its version.
pub fn version_step(binary: &str, poll: &VersionPoll, waited_ns: u64) -> (s: VersionStep)
    ensures
        match s {
            VersionStep::Read => poll is Exited,
            VersionStep::Wait => poll is Running && waited_ns < VERSION_TIMEOUT,
            VersionStep::Kill => poll is Running && waited_ns >= VERSION_TIMEOUT,
            VersionStep::Fail(text) => *poll matches VersionPoll::Failed { error } && text@
                == "waiting on `"@ + binary@ + " --version` failed: "@ + error@,
        },
{
    match poll {
        VersionPoll::Exited => VersionStep::Read,
        VersionPoll::Running => {
            if waited_ns >= VERSION_TIMEOUT {
                VersionStep::Kill
            } else {
                VersionStep::Wait
            }
        },
        VersionPoll::Failed { error } => {
            let mut text = "waiting on `".to_owned();
            text.append(binary);
            text.append(" --version` failed: ");
            text.append(error.as_str());
            VersionStep::Fail(text)
        },
    }
}

/// What is said of a child that did not answer in time, killed or not.
pub fn version_timeout(binary: &str, killed: bool) -> (text: String)
    ensures
        text@ == "`"@ + binary@ + " --version` did not answer within "@ + decimal(20) + "s; "@
            + if killed {
            "it was killed and reaped"@
        } else {
            "and it could not be killed"@
        },
{
    let mut text = "`".to_owned();
    text.append(binary);
    text.append(" --version` did not answer within ");
    push_u64(&mut text, VERSION_TIMEOUT / 1_000_000_000);
    text.append("s; ");
    if killed {
        text.append("it was killed and reaped");
    } else {
        text.append("and it could not be killed");
    }
    text
}

/// The version that a child answered, or why it did not.
pub fn version_answer(
    binary: &str,
    success: bool,
    status: &str,
    stdout: &[u8],
    stderr: &[u8],
) -> (r: Result<String, String>)
    ensures
        match r {
            Ok(version) => success && version@ == trimmed(lossy(stdout@)),
            Err(text) => !success && text@ == "`"@ + binary@ + " --version` exited with "@ + status@
                + ": "@ + trimmed(lossy(stderr@)),
        },
{
    if success {
        return Ok(trim(decode_lossy(stdout).as_str()));
    }
    let mut text = "`".to_owned();
    text.append(binary);
    text.append(" --version` exited with ");
    text.append(status);
    text.append(": ");
    text.append(trim(decode_lossy(stderr).as_str()).as_str());
    Err(text)
}

/// The first directory of the search path that decides is the one that counts, and
/// where none does the binary is not found.
pub proof fn law_the_first_directory_that_decides_counts(
    name: Seq<char>,
    hits: Seq<PathHit>,
    windows: bool,
    live: Seq<char>,
    k: int,
)
    requires
        0 <= k <= hits.len(),
        forall|j: int| 0 <= j < k ==> hit_decides(#[trigger] hits[j], windows, live) is None,
        k < hits.len() ==> hit_decides(hits[k], windows, live) is Some,
    ensures
        k < hits.len() ==> path_decides(name, hits, windows, live) == hit_decides(
            hits[k],
            windows,
            live,
        )->0,
        k == hits.len() ==> path_decides(name, hits, windows, live) == Err::<Seq<char>, Seq<char>>(
            name + " not found on PATH"@,
        ),
    decreases hits.len(),
{
    if k > 0 {
        assert(hit_decides(hits[0], windows, live) is None);
        let rest = hits.drop_first();
        assert forall|j: int| 0 <= j < k - 1 implies hit_decides(
            #[trigger] rest[j],
            windows,
            live,
        ) is None by {
            assert(rest[j] == hits[j + 1]);
        }
        law_the_first_directory_that_decides_counts(name, rest, windows, live, k - 1);
    }
}

/// A directory offers its file of the plain name; on Windows its program comes
/// before that, and a batch shim is refused where there is neither.
pub proof fn law_what_a_directory_offers(hit: PathHit, live: Seq<char>)
    ensures
        hit_decides(hit, false, live) == match hit.plain {
            Some(path) => Some(Ok::<Seq<char>, Seq<char>>(path@)),
            None => None,
        },
        hit.exe matches Some(path) ==> hit_decides(hit, true, live) == Some(
            Ok::<Seq<char>, Seq<char>>(path@),
        ),
        hit.exe is None ==> (hit.plain matches Some(path) ==> hit_decides(hit, true, live) == Some(
            Ok::<Seq<char>, Seq<char>>(path@),
        )),
        hit.exe is None && hit.plain is None ==> (hit_decides(hit, true, live) is Some
            <==> hit.cmd is Some || hit.bat is Some),
        hit.exe is None && hit.plain is None ==> !(hit_decides(hit, true, live) matches Some(
            Ok(_),
        )),
{
}

/// A batch shim is known by its extension, in any case.
pub proof fn law_a_shim_is_known_by_its_extension(extension: Seq<char>)
    ensures
        batch_shim(Some(extension)) <==> same_but_case(extension, "cmd"@) || same_but_case(
            extension,
            "bat"@,
        ),
        !batch_shim(None),
{
}

/// A version is read exactly when the child has exited, and the child is killed
/// exactly when it still runs after twenty seconds.
pub proof fn law_a_version_is_waited_for_twenty_seconds(
    binary: &str,
    poll: VersionPoll,
    waited_ns: u64,
    s: VersionStep,
)
    requires
        call_ensures(version_step, (binary, &poll, waited_ns), s),
    ensures
        s is Read <==> poll is Exited,
        s is Wait <==> poll is Running && waited_ns < 20_000_000_000,
        s is Kill <==> poll is Running && waited_ns >= 20_000_000_000,
        s is Fail <==> poll is Failed,
{
}

} // verus!
