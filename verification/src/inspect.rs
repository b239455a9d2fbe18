//! What "nothing left behind" means, measured: open channels against a
//! baseline, process groups, jobs and console hosts.
//!
//! The answers of the operating system come in as values; intervals are in
//! nanoseconds.
use vstd::prelude::*;
use vstd::string::*;

use crate::text::{
    decimal, lowercase, lowered, push_i64, push_u128, push_u64, push_usize, same_text,
    signed_decimal,
};

verus! {

/// How often emptiness and baselines are looked at again.
pub const POLL: u64 = 25_000_000;

/// What an open channel is called.
pub open spec fn channel_word(windows: bool) -> Seq<char> {
    if windows {
        "handle"@
    } else {
        "fd"@
    }
}

/// What an open channel is called.
pub fn channel_kind(windows: bool) -> (word: &'static str)
    ensures
        word@ == channel_word(windows),
{
    if windows {
        "handle"
    } else {
        "fd"
    }
}

/// What a look at the open channels comes to.
#[derive(Debug)]
pub enum BaselineLook {
    Wait,
    Settled(String),
    Leak(String),
}

/// One look at whether the open channels are back at the baseline, with at most
/// a declared residue. The residue is a declaration, not a tolerance: one
/// channel beyond it is a leak, and what it absorbs is reported.
pub fn await_baseline(
    windows: bool,
    count: usize,
    baseline: usize,
    allowed_residue: usize,
    elapsed_ns: u64,
    timeout_ns: u128,
) -> (look: BaselineLook)
    ensures
        match look {
            BaselineLook::Wait => count > baseline + allowed_residue && elapsed_ns < timeout_ns,
            BaselineLook::Leak(text) => {
                &&& count > baseline + allowed_residue
                &&& elapsed_ns >= timeout_ns
                &&& text@ == "open "@ + channel_word(windows) + " count is still "@ + decimal(
                    count as nat,
                ) + " after "@ + decimal((timeout_ns / 1_000_000) as nat) + "ms (baseline "@
                    + decimal(baseline as nat) + ", allowed platform residue +"@ + decimal(
                    allowed_residue as nat,
                ) + ", delta +"@ + decimal((count - baseline) as nat)
                    + ") \u{2014} something the run opened was never released"@
            },
            BaselineLook::Settled(text) => {
                &&& count <= baseline + allowed_residue
                &&& text@ == if count <= baseline {
                    channel_word(windows) + "_delta=0 (baseline "@ + decimal(baseline as nat)
                        + ", now "@ + decimal(count as nat) + ", settled in "@ + decimal(
                        (elapsed_ns / 1_000_000) as nat,
                    ) + "ms)"@
                } else {
                    channel_word(windows) + "_delta=+"@ + decimal((count - baseline) as nat)
                        + " \u{2014} entirely inside the declared platform residue of +"@ + decimal(
                        allowed_residue as nat,
                    ) + " (baseline "@ + decimal(baseline as nat) + ", now "@ + decimal(
                        count as nat,
                    ) + ", settled in "@ + decimal((elapsed_ns / 1_000_000) as nat) + "ms)"@
                }
            },
        },
{
    let over = count > baseline && count - baseline > allowed_residue;
    if over {
        if (elapsed_ns as u128) < timeout_ns {
            return BaselineLook::Wait;
        }
        let mut text = "open ".to_owned();
        text.append(channel_kind(windows));
        text.append(" count is still ");
        push_usize(&mut text, count);
        text.append(" after ");
        push_u128(&mut text, timeout_ns / 1_000_000);
        text.append("ms (baseline ");
        push_usize(&mut text, baseline);
        text.append(", allowed platform residue +");
        push_usize(&mut text, allowed_residue);
        text.append(", delta +");
        push_usize(&mut text, count - baseline);
        text.append(") \u{2014} something the run opened was never released");
        return BaselineLook::Leak(text);
    }
    let mut text = channel_kind(windows).to_owned();
    if count <= baseline {
        text.append("_delta=0 (baseline ");
    } else {
        text.append("_delta=+");
        push_usize(&mut text, count - baseline);
        text.append(" \u{2014} entirely inside the declared platform residue of +");
        push_usize(&mut text, allowed_residue);
        text.append(" (baseline ");
    }
    push_usize(&mut text, baseline);
    text.append(", now ");
    push_usize(&mut text, count);
    text.append(", settled in ");
    push_u64(&mut text, elapsed_ns / 1_000_000);
    text.append("ms)");
    BaselineLook::Settled(text)
}

/// Where a process stands relative to a process group.
#[derive(Debug, Clone, Copy, PartialEq, Eq, Structural)]
pub enum GroupStanding {
    /// Alive and in the group.
    Member,
    /// Alive and outside the group: the group it is in, or `None` where the
    /// system refuses to say, which is itself proof that it left ours.
    Outside { pgid: Option<i32> },
    /// No such process.
    Gone,
}

/// What the system answers when asked for a process's group.
#[derive(Debug, Clone, Copy, PartialEq, Eq, Structural)]
pub enum GroupAnswer {
    Group(i32),
    NoSuchProcess,
    Refused,
}

/// Where a process stands, by what the system answered.
pub open spec fn standing(pgid: i32, answer: GroupAnswer) -> GroupStanding {
    match answer {
        GroupAnswer::Group(actual) => if actual == pgid {
            GroupStanding::Member
        } else {
            GroupStanding::Outside { pgid: Some(actual) }
        },
        GroupAnswer::NoSuchProcess => GroupStanding::Gone,
        GroupAnswer::Refused => GroupStanding::Outside { pgid: None },
    }
}

/// Where a process stands, by what the system answered.
pub fn standing_in(pgid: i32, answer: GroupAnswer) -> (s: GroupStanding)
    ensures
        s == standing(pgid, answer),
{
    match answer {
        GroupAnswer::Group(actual) => {
            if actual == pgid {
                GroupStanding::Member
            } else {
                GroupStanding::Outside { pgid: Some(actual) }
            }
        },
        GroupAnswer::NoSuchProcess => GroupStanding::Gone,
        GroupAnswer::Refused => GroupStanding::Outside { pgid: None },
    }
}

/// The processes among the asked ones that are in the group, in order.
pub open spec fn survivors(pgid: i32, asked: Seq<(i32, GroupAnswer)>) -> Seq<i32>
    decreases asked.len(),
{
    if asked.len() == 0 {
        Seq::empty()
    } else if standing(pgid, asked.last().1) == GroupStanding::Member {
        survivors(pgid, asked.drop_last()).push(asked.last().0)
    } else {
        survivors(pgid, asked.drop_last())
    }
}

/// The processes among the asked ones that are still in the group.
pub fn surviving_members(pgid: i32, asked: &Vec<(i32, GroupAnswer)>) -> (pids: Vec<i32>)
    ensures
        pids@ == survivors(pgid, asked@),
{
    let mut pids: Vec<i32> = Vec::new();
    let mut i: usize = 0;
    assert(asked@.take(0) =~= Seq::empty());
    while i < asked.len()
        invariant
            i <= asked@.len(),
            pids@ == survivors(pgid, asked@.take(i as int)),
        decreases asked@.len() - i,
    {
        assert(asked@.take(i + 1).drop_last() =~= asked@.take(i as int));
        let (pid, answer) = asked[i];
        if standing_in(pgid, answer) == GroupStanding::Member {
            pids.push(pid);
        }
        i += 1;
    }
    assert(asked@.take(i as int) =~= asked@);
    pids
}

/// What the system answers to a signal that is validated and never delivered.
#[derive(Debug)]
pub enum SignalAnswer {
    Delivered,
    NoSuchProcess,
    NotPermitted,
    Failed { error: String },
}

/// Whether a group has any member: one that is not ours to signal counts.
pub fn group_has_members(pgid: i32, answer: &SignalAnswer) -> (r: Result<bool, String>)
    ensures
        match *answer {
            SignalAnswer::Delivered => r == Ok::<bool, String>(true),
            SignalAnswer::NotPermitted => r == Ok::<bool, String>(true),
            SignalAnswer::NoSuchProcess => r == Ok::<bool, String>(false),
            SignalAnswer::Failed { error } => r matches Err(text) && text@ == "kill(-"@
                + signed_decimal(pgid as int) + ", 0) failed: "@ + error@,
        },
{
    match answer {
        SignalAnswer::Delivered => Ok(true),
        SignalAnswer::NotPermitted => Ok(true),
        SignalAnswer::NoSuchProcess => Ok(false),
        SignalAnswer::Failed { error } => {
            let mut text = "kill(-".to_owned();
            push_i64(&mut text, pgid as i64);
            text.append(", 0) failed: ");
            text.append(error.as_str());
            Err(text)
        },
    }
}

/// Whether a process exists: one that is not ours to signal does.
pub fn process_alive(answer: &SignalAnswer) -> (alive: bool)
    ensures
        alive == (answer is Delivered || answer is NotPermitted),
{
    match answer {
        SignalAnswer::Delivered => true,
        SignalAnswer::NotPermitted => true,
        _ => false,
    }
}

/// What a look at a process tree comes to.
#[derive(Debug)]
pub enum EmptyLook {
    Wait,
    /// Empty, after so many milliseconds.
    Empty { ms: u64 },
    Fail(String),
}

/// One look at whether a group is empty.
pub fn await_group_empty(pgid: i32, answer: &SignalAnswer, elapsed_ns: u64, timeout_ns: u128) -> (look:
    EmptyLook)
    ensures
        match look {
            EmptyLook::Empty { ms } => answer is NoSuchProcess && ms == elapsed_ns / 1_000_000,
            EmptyLook::Wait => (answer is Delivered || answer is NotPermitted) && elapsed_ns
                < timeout_ns,
            EmptyLook::Fail(text) => match *answer {
                SignalAnswer::Failed { error } => text@ == "kill(-"@ + signed_decimal(pgid as int)
                    + ", 0) failed: "@ + error@,
                SignalAnswer::NoSuchProcess => false,
                _ => elapsed_ns >= timeout_ns && text@ == "process group "@ + signed_decimal(
                    pgid as int,
                ) + " still has members after "@ + decimal((timeout_ns / 1_000_000) as nat)
                    + "ms"@,
            },
        },
{
    match group_has_members(pgid, answer) {
        Err(text) => EmptyLook::Fail(text),
        Ok(false) => EmptyLook::Empty { ms: elapsed_ns / 1_000_000 },
        Ok(true) => {
            if elapsed_ns as u128 >= timeout_ns {
                let mut text = "process group ".to_owned();
                push_i64(&mut text, pgid as i64);
                text.append(" still has members after ");
                push_u128(&mut text, timeout_ns / 1_000_000);
                text.append("ms");
                EmptyLook::Fail(text)
            } else {
                EmptyLook::Wait
            }
        },
    }
}

/// A list of process ids as a diagnostic shows it.
pub open spec fn pid_list(pids: Seq<u32>) -> Seq<char> {
    "["@ + pid_items(pids) + "]"@
}

/// Process ids with commas between.
pub open spec fn pid_items(pids: Seq<u32>) -> Seq<char>
    decreases pids.len(),
{
    if pids.len() == 0 {
        Seq::empty()
    } else if pids.len() == 1 {
        decimal(pids[0] as nat)
    } else {
        pid_items(pids.drop_last()) + ", "@ + decimal(pids.last() as nat)
    }
}

/// A list of process ids as a diagnostic shows it.
pub fn show_pids(pids: &Vec<u32>) -> (text: String)
    ensures
        text@ == pid_list(pids@),
{
    let mut text = "[".to_owned();
    let mut i: usize = 0;
    assert(pids@.take(0) =~= Seq::empty());
    assert(text@ =~= "["@ + pid_items(pids@.take(0)));
    while i < pids.len()
        invariant
            i <= pids@.len(),
            text@ == "["@ + pid_items(pids@.take(i as int)),
        decreases pids@.len() - i,
    {
        let ghost before = text@;
        assert(pids@.take(i + 1).drop_last() =~= pids@.take(i as int));
        if i > 0 {
            text.append(", ");
        }
        push_u64(&mut text, pids[i] as u64);
        i += 1;
        assert(text@ =~= "["@ + pid_items(pids@.take(i as int)));
    }
    assert(pids@.take(i as int) =~= pids@);
    text.append("]");
    text
}

/// One look at whether a job is empty.
pub fn await_job_empty(members: &Vec<u32>, elapsed_ns: u64, timeout_ns: u128) -> (look: EmptyLook)
    ensures
        match look {
            EmptyLook::Empty { ms } => members@.len() == 0 && ms == elapsed_ns / 1_000_000,
            EmptyLook::Wait => members@.len() > 0 && elapsed_ns < timeout_ns,
            EmptyLook::Fail(text) => members@.len() > 0 && elapsed_ns >= timeout_ns && text@
                == "the job still holds "@ + pid_list(members@) + " after "@ + decimal(
                (timeout_ns / 1_000_000) as nat,
            ) + "ms"@,
        },
{
    if members.len() == 0 {
        return EmptyLook::Empty { ms: elapsed_ns / 1_000_000 };
    }
    if (elapsed_ns as u128) < timeout_ns {
        return EmptyLook::Wait;
    }
    let mut text = "the job still holds ".to_owned();
    text.append(show_pids(members).as_str());
    text.append(" after ");
    push_u128(&mut text, timeout_ns / 1_000_000);
    text.append("ms");
    EmptyLook::Fail(text)
}

/// A process of a census.
#[derive(Debug)]
pub struct CensusEntry {
    pub pid: u32,
    pub parent: u32,
    /// The name of its executable.
    pub name: String,
}

/// Whether a process is a console host whose parent is `me`.
pub open spec fn hosted_here(entry: CensusEntry, me: u32) -> bool {
    entry.parent == me && (lowered(entry.name@) == "conhost.exe"@ || lowered(entry.name@)
        == "openconsole.exe"@)
}

/// The console hosts of a census whose parent is `me`, in order.
pub open spec fn hosts_in(census: Seq<CensusEntry>, me: u32) -> Seq<u32>
    decreases census.len(),
{
    if census.len() == 0 {
        Seq::empty()
    } else if hosted_here(census.last(), me) {
        hosts_in(census.drop_last(), me).push(census.last().pid)
    } else {
        hosts_in(census.drop_last(), me)
    }
}

/// The console hosts of a census whose parent is `me`.
pub fn console_hosts(census: &Vec<CensusEntry>, me: u32) -> (hosts: Vec<u32>)
    ensures
        hosts@ == hosts_in(census@, me),
{
    let mut hosts: Vec<u32> = Vec::new();
    let mut i: usize = 0;
    assert(census@.take(0) =~= Seq::empty());
    while i < census.len()
        invariant
            i <= census@.len(),
            hosts@ == hosts_in(census@.take(i as int), me),
        decreases census@.len() - i,
    {
        assert(census@.take(i + 1).drop_last() =~= census@.take(i as int));
        let entry = &census[i];
        let name = lowercase(entry.name.as_str());
        if entry.parent == me && (same_text(name.as_str(), "conhost.exe") || same_text(
            name.as_str(),
            "openconsole.exe",
        )) {
            hosts.push(entry.pid);
        }
        i += 1;
    }
    assert(census@.take(i as int) =~= census@);
    hosts
}

/// The hosts that were not there before, in order.
pub open spec fn added(now: Seq<u32>, before: Seq<u32>) -> Seq<u32>
    decreases now.len(),
{
    if now.len() == 0 {
        Seq::empty()
    } else if before.contains(now.last()) {
        added(now.drop_last(), before)
    } else {
        added(now.drop_last(), before).push(now.last())
    }
}

/// Whether a list holds a process id.
fn has_pid(list: &Vec<u32>, pid: u32) -> (yes: bool)
    ensures
        yes == list@.contains(pid),
{
    let mut i: usize = 0;
    while i < list.len()
        invariant
            i <= list@.len(),
            forall|j: int| 0 <= j < i ==> list@[j] != pid,
        decreases list@.len() - i,
    {
        if list[i] == pid {
            assert(list@[i as int] == pid);
            return true;
        }
        i += 1;
    }
    false
}

/// The console hosts alive now that were not in an earlier census: the ones a
/// run created and, after teardown, leaked.
pub fn new_console_hosts(now: &Vec<u32>, before: &Vec<u32>) -> (leaked: Vec<u32>)
    ensures
        leaked@ == added(now@, before@),
{
    let mut leaked: Vec<u32> = Vec::new();
    let mut i: usize = 0;
    assert(now@.take(0) =~= Seq::empty());
    while i < now.len()
        invariant
            i <= now@.len(),
            leaked@ == added(now@.take(i as int), before@),
        decreases now@.len() - i,
    {
        assert(now@.take(i + 1).drop_last() =~= now@.take(i as int));
        if !has_pid(before, now[i]) {
            leaked.push(now[i]);
        }
        i += 1;
    }
    assert(now@.take(i as int) =~= now@);
    leaked
}

/// A host that was there before is never this run's, and one that was not
/// always is.
pub proof fn law_only_new_hosts_are_leaks(now: Seq<u32>, before: Seq<u32>, pid: u32)
    ensures
        added(now, before).contains(pid) <==> now.contains(pid) && !before.contains(pid),
    decreases now.len(),
{
    if now.len() > 0 {
        let less = now.drop_last();
        let rest = added(less, before);
        law_only_new_hosts_are_leaks(less, before, pid);
        if now.contains(pid) && pid != now.last() {
            let i = choose|i: int| 0 <= i < now.len() && now[i] == pid;
            assert(less[i] == pid);
        }
        if less.contains(pid) {
            let i = choose|i: int| 0 <= i < less.len() && less[i] == pid;
            assert(now[i] == pid);
        }
        assert(now[now.len() - 1] == now.last());
        if rest.contains(pid) {
            let i = choose|i: int| 0 <= i < rest.len() && rest[i] == pid;
            assert(rest.push(now.last())[i] == pid);
        }
        assert(rest.push(now.last())[rest.len() as int] == now.last());
        if rest.push(now.last()).contains(pid) && pid != now.last() {
            let i = choose|i: int| 0 <= i <= rest.len() && rest.push(now.last())[i] == pid;
            assert(rest[i] == pid);
        }
    }
}

/// A process is in a group exactly when the system answers with that group, and is
/// gone exactly when there is no such process.
pub proof fn law_a_process_stands_where_the_system_says(pgid: i32, answer: GroupAnswer)
    ensures
        standing(pgid, answer) == GroupStanding::Member <==> answer == GroupAnswer::Group(pgid),
        standing(pgid, answer) == GroupStanding::Gone <==> answer == GroupAnswer::NoSuchProcess,
        answer matches GroupAnswer::Group(actual) && actual != pgid ==> standing(pgid, answer)
            is Outside,
        answer == GroupAnswer::Refused ==> standing(pgid, answer) is Outside,
{
}

/// The survivors are those that the system places in the group, each once and in
/// the order in which they were asked for.
pub proof fn law_survivors_are_the_members(
    pgid: i32,
    asked: Seq<(i32, GroupAnswer)>,
    pid: i32,
    answer: GroupAnswer,
)
    ensures
        survivors(pgid, Seq::empty()).len() == 0,
        survivors(pgid, asked.push((pid, answer))) == if answer == GroupAnswer::Group(pgid) {
            survivors(pgid, asked).push(pid)
        } else {
            survivors(pgid, asked)
        },
{
    assert(asked.push((pid, answer)).drop_last() =~= asked);
}

/// The console hosts of a census are the children of that process that have a
/// console host's name, in order.
pub proof fn law_console_hosts_are_children_by_name(
    census: Seq<CensusEntry>,
    entry: CensusEntry,
    me: u32,
)
    ensures
        hosts_in(Seq::empty(), me).len() == 0,
        hosts_in(census.push(entry), me) == if entry.parent == me && (lowered(entry.name@)
            == "conhost.exe"@ || lowered(entry.name@) == "openconsole.exe"@) {
            hosts_in(census, me).push(entry.pid)
        } else {
            hosts_in(census, me)
        },
{
    assert(census.push(entry).drop_last() =~= census);
}

/// The hosts that a run added are those that were not there before, in their
/// order.
pub proof fn law_added_hosts_keep_their_order(now: Seq<u32>, before: Seq<u32>)
    ensures
        added(now, before) == now.filter(|pid: u32| !before.contains(pid)),
    decreases now.len(),
{
    reveal(Seq::filter);
    if now.len() > 0 {
        law_added_hosts_keep_their_order(now.drop_last(), before);
    }
}

/// Process ids are listed in order, with a comma and a space between two.
pub proof fn law_pids_are_listed_in_order(pids: Seq<u32>, pid: u32)
    ensures
        pid_items(Seq::empty()).len() == 0,
        pids.len() == 0 ==> pid_items(pids.push(pid)) == decimal(pid as nat),
        pids.len() > 0 ==> pid_items(pids.push(pid)) == pid_items(pids) + ", "@ + decimal(
            pid as nat,
        ),
{
    assert(pids.push(pid).drop_last() =~= pids);
}

/// The open channels are back once they are no more than the baseline and the
/// declared residue, and a leak exactly when they are more once the time is up.
/// What is said of them carries the channels beyond the baseline.
pub proof fn law_one_channel_beyond_the_residue_is_a_leak(
    windows: bool,
    count: usize,
    baseline: usize,
    residue: usize,
    elapsed_ns: u64,
    timeout_ns: u128,
    look: BaselineLook,
)
    requires
        call_ensures(
            await_baseline,
            (windows, count, baseline, residue, elapsed_ns, timeout_ns),
            look,
        ),
    ensures
        look is Settled <==> count - baseline <= residue,
        look is Leak <==> count - baseline > residue && elapsed_ns >= timeout_ns,
        ({
            let word = if windows {
                "handle"@
            } else {
                "fd"@
            };
            let counts = " (baseline "@ + decimal(baseline as nat) + ", now "@ + decimal(
                count as nat,
            ) + ", settled in "@ + decimal((elapsed_ns / 1_000_000) as nat) + "ms)"@;
            look matches BaselineLook::Settled(text) ==> text@ == if count <= baseline {
                word + "_delta=0"@ + counts
            } else {
                word + "_delta=+"@ + decimal((count - baseline) as nat)
                    + " \u{2014} entirely inside the declared platform residue of +"@ + decimal(
                    residue as nat,
                ) + counts
            }
        }),
{
    reveal_strlit("_delta=0");
    reveal_strlit(" (baseline ");
    reveal_strlit("_delta=0 (baseline ");
    assert("_delta=0 (baseline "@ =~= "_delta=0"@ + " (baseline "@);
}

/// A group is empty exactly when the system knows none of its processes; one whose
/// members are not ours to signal is not. An answer that says nothing fails at
/// once, and so does a group that has members once the time is up.
pub proof fn law_a_group_is_empty_when_no_process_answers(
    pgid: i32,
    answer: SignalAnswer,
    elapsed_ns: u64,
    timeout_ns: u128,
    look: EmptyLook,
)
    requires
        call_ensures(await_group_empty, (pgid, &answer, elapsed_ns, timeout_ns), look),
    ensures
        look is Empty <==> answer is NoSuchProcess,
        look matches EmptyLook::Empty { ms } ==> ms == elapsed_ns / 1_000_000,
        look is Fail <==> answer is Failed || ((answer is Delivered || answer is NotPermitted)
            && elapsed_ns >= timeout_ns),
{
}

/// A job is empty exactly when it holds no process, and fails when it still holds
/// one once the time is up.
pub proof fn law_a_job_is_empty_without_a_process(
    members: Vec<u32>,
    elapsed_ns: u64,
    timeout_ns: u128,
    look: EmptyLook,
)
    requires
        call_ensures(await_job_empty, (&members, elapsed_ns, timeout_ns), look),
    ensures
        look is Empty <==> members@.len() == 0,
        look matches EmptyLook::Empty { ms } ==> ms == elapsed_ns / 1_000_000,
        look is Fail <==> members@.len() > 0 && elapsed_ns >= timeout_ns,
{
}

} // verus!
