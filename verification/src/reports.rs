//! Waiting on and counting a fixture's reports in a terminal's output.
//!
//! The fixture's own protocol reads reports out of the visible text; a lane says
//! of each, in order, whether it is one that it asked for.
use vstd::prelude::*;

use crate::pty::{OutputTracker, WaitStep};
use crate::total::{lemma_sum_same, sum};

verus! {

/// What a look in a wait for a report comes to.
#[derive(Debug)]
pub enum ReportStep {
    /// The first report that was asked for, by its index among those visible.
    Found(usize),
    /// Wait on.
    Wait,
    /// It will not come.
    Fail(String),
}

/// How many reports were asked for.
pub open spec fn asked_for(asked: Seq<bool>) -> nat
    decreases asked.len(),
{
    if asked.len() == 0 {
        0
    } else {
        asked_for(asked.drop_last()) + if asked.last() {
            1nat
        } else {
            0nat
        }
    }
}

/// One look in a wait for a report: `asked` says of each visible report whether
/// it is the one, `what` names it in the diagnostics.
pub fn wait_for_report(
    tracker: &OutputTracker,
    what: &str,
    asked: &Vec<bool>,
    waited_ns: u64,
    timeout_ns: u128,
) -> (s: ReportStep)
    ensures
        match s {
            ReportStep::Found(at) => {
                &&& at < asked@.len()
                &&& asked@[at as int]
                &&& forall|i: int| 0 <= i < at ==> !asked@[i]
            },
            ReportStep::Wait => {
                &&& !asked@.contains(true)
                &&& tracker.waits(what@, false, waited_ns, timeout_ns, WaitStep::Wait)
            },
            ReportStep::Fail(text) => {
                &&& !asked@.contains(true)
                &&& tracker.waits(what@, false, waited_ns, timeout_ns, WaitStep::Fail(text))
            },
        },
{
    let mut i: usize = 0;
    while i < asked.len()
        invariant
            i <= asked@.len(),
            forall|k: int| 0 <= k < i ==> !asked@[k],
        decreases asked@.len() - i,
    {
        if asked[i] {
            return ReportStep::Found(i);
        }
        i += 1;
    }
    match tracker.wait_for(what, false, waited_ns, timeout_ns) {
        WaitStep::Fail(text) => ReportStep::Fail(text),
        _ => ReportStep::Wait,
    }
}

/// How many of the visible reports were asked for. A terminal that repaints can
/// show one report more than once.
pub fn count_reports(asked: &Vec<bool>) -> (n: usize)
    ensures
        n == asked_for(asked@),
{
    let mut n: usize = 0;
    let mut i: usize = 0;
    while i < asked.len()
        invariant
            n <= i <= asked@.len(),
            n == asked_for(asked@.take(i as int)),
        decreases asked@.len() - i,
    {
        assert(asked@.take(i + 1).drop_last() =~= asked@.take(i as int));
        if asked[i] {
            n += 1;
        }
        i += 1;
    }
    assert(asked@.take(i as int) =~= asked@);
    n
}

/// Every report that was asked for is counted once.
pub proof fn law_each_report_asked_for_counts(asked: Seq<bool>)
    ensures
        asked_for(asked) == sum(
            |i: int| if asked[i] { 1int } else { 0int },
            asked.len() as int,
        ),
        asked_for(asked) > 0 <==> asked.contains(true),
    decreases asked.len(),
{
    if asked.len() > 0 {
        let front = asked.drop_last();
        law_each_report_asked_for_counts(front);
        lemma_sum_same(
            |i: int| if asked[i] { 1int } else { 0int },
            |i: int| if front[i] { 1int } else { 0int },
            front.len() as int,
        );
        if front.contains(true) {
            let i = choose|i: int| 0 <= i < front.len() && front[i] == true;
            assert(asked[i] == true);
        }
        if asked.last() {
            assert(asked[asked.len() - 1] == true);
        }
        if asked.contains(true) && !asked.last() {
            let i = choose|i: int| 0 <= i < asked.len() && asked[i] == true;
            assert(front[i] == true);
        }
    }
}

/// A wait finds the first report that is the one asked for, and ends without one
/// exactly when none is and the stream has ended or the time is up.
pub proof fn law_a_wait_finds_the_first_report_asked_for(
    tracker: OutputTracker,
    what: &str,
    asked: Vec<bool>,
    waited_ns: u64,
    timeout_ns: u128,
    s: ReportStep,
)
    requires
        call_ensures(wait_for_report, (&tracker, what, &asked, waited_ns, timeout_ns), s),
    ensures
        s is Found <==> exists|i: int| 0 <= i < asked@.len() && #[trigger] asked@[i],
        s matches ReportStep::Found(at) ==> 0 <= at < asked@.len() && asked@[at as int]
            && forall|i: int| 0 <= i < at ==> !(#[trigger] asked@[i]),
        s is Fail <==> !(s is Found) && (tracker.closing() is Some || waited_ns >= timeout_ns),
{
    if s is Found {
        assert(asked@[s->Found_0 as int]);
    } else {
        assert forall|i: int| 0 <= i < asked@.len() implies !(#[trigger] asked@[i]) by {
            assert(asked@[i] ==> asked@.contains(true));
        }
    }
}

} // verus!
