//! What the streaming lanes share: when a generated stream has been accounted
//! for, and how a run's resource use enters its report.
use vstd::prelude::*;
use vstd::string::*;

use crate::double::{human_bytes, human_bytes_text, per_second, rate};
use crate::monitor::{descriptor_noun, descriptor_noun_text, Assessment, RSS_GROWTH_BUDGET_BYTES};
use crate::report::{noted_view, Budget, Measurement, MeasurementView};
use crate::text::{decimal, push_i64, push_u64, push_usize, signed_decimal};
use crate::verify::{Standing, Verifier};

verus! {

/// Whether everything that a stream promised is accounted for: every payload
/// line, and every checkpoint whether it verified or faulted.
pub open spec fn is_accounted(s: Standing, lines: u64, checkpoints: u64) -> bool {
    s.next >= lines && s.found.checksums_verified + s.found.checksum_faults >= checkpoints
}

/// Whether everything that a stream promised is accounted for.
pub fn accounted_for(verifier: &Verifier, lines: u64, checkpoints: u64) -> (done: bool)
    ensures
        done == is_accounted(verifier.standing(), lines, checkpoints),
{
    let found = verifier.findings();
    verifier.accounted() >= lines && found.checksums_verified as u128
        + found.checksum_faults as u128 >= checkpoints as u128
}

/// How many checkpoints a stream of `lines` payload lines carries.
pub open spec fn checkpoints_of(lines: u64, every: u64) -> u64 {
    if every == 0 {
        0
    } else {
        lines / every
    }
}

/// How many checkpoints a stream of `lines` payload lines carries.
pub fn expected_checkpoints(lines: u64, every: u64) -> (n: u64)
    ensures
        n == checkpoints_of(lines, every),
{
    if every == 0 {
        0
    } else {
        lines / every
    }
}

/// A rate over a time that may be zero: nothing in no time is nothing, and
/// anything in no time is beyond counting.
pub open spec fn sustained(count: nat, ns: nat) -> nat {
    if ns > 0 {
        per_second(count, ns)
    } else if count == 0 {
        0
    } else {
        u64::MAX as nat
    }
}

/// A rate over a time that may be zero.
pub fn sustained_rate(count: u64, ns: u64) -> (r: u64)
    ensures
        r == sustained(count as nat, ns as nat),
{
    if ns > 0 {
        rate(count, ns)
    } else if count == 0 {
        0
    } else {
        u64::MAX
    }
}

/// What is above zero of a signed number.
pub open spec fn growth(delta: i64) -> u64 {
    if delta > 0 {
        delta as u64
    } else {
        0
    }
}

fn growth_of(delta: i64) -> (g: u64)
    ensures
        g == growth(delta),
{
    if delta > 0 {
        delta as u64
    } else {
        0
    }
}

/// How a run's remark on its resource use is worded.
#[derive(Clone, Copy, Debug, PartialEq, Eq, Structural)]
pub enum Wording {
    /// With where the growth was measured from.
    Full,
    /// Without it.
    Short,
}

/// The remark on descriptors.
pub open spec fn descriptor_note(a: Assessment, handles: bool, wording: Wording) -> Seq<char> {
    let head = descriptor_noun_text(handles) + " went from "@ + decimal(
        a.baseline_descriptors as nat,
    ) + " to "@ + decimal(a.final_descriptors as nat) + " over "@ + decimal(a.samples as nat);
    let middle = match wording {
        Wording::Full => head
            + " samples, measured from the first sample past the warm-up window (net delta "@,
        Wording::Short => head + " samples (net delta "@,
    };
    middle + signed_decimal(a.descriptor_delta as int) + ")"@
}

/// The remark on resident memory.
pub open spec fn memory_note(a: Assessment, wording: Wording) -> Seq<char> {
    let head = "resident memory went from "@ + human_bytes_text(a.baseline_rss_bytes as nat)
        + " to "@ + human_bytes_text(a.final_rss_bytes as nat);
    let middle = match wording {
        Wording::Full => head + " (net delta "@ + signed_decimal(a.rss_growth_bytes as int)
            + " bytes), peaking at "@,
        Wording::Short => head + ", peaking at "@,
    };
    middle + human_bytes_text(a.peak_rss_bytes as nat)
}

/// The measurement of descriptor growth: none is allowed.
pub open spec fn descriptor_row(a: Assessment, handles: bool, wording: Wording) -> MeasurementView {
    noted_view(
        "descriptor_growth"@,
        "descriptors"@,
        growth(a.descriptor_delta),
        Some(Budget::AtMost(0)),
        descriptor_note(a, handles, wording),
    )
}

/// The measurement of memory growth, against its budget.
pub open spec fn memory_row(a: Assessment, wording: Wording) -> MeasurementView {
    noted_view(
        "rss_growth"@,
        "bytes"@,
        growth(a.rss_growth_bytes),
        Some(Budget::AtMost(RSS_GROWTH_BUDGET_BYTES)),
        memory_note(a, wording),
    )
}

/// What is said of a run without a steady state.
pub open spec fn unassessed_note() -> Seq<char> {
    "the run was too short to have a steady state, so no resource growth was assessed"@
}

/// What is said of a run without a steady state.
pub fn unassessed() -> (note: &'static str)
    ensures
        note@ == unassessed_note(),
{
    "the run was too short to have a steady state, so no resource growth was assessed"
}

/// The measurement of descriptor growth.
pub fn descriptor_growth(a: &Assessment, handles: bool, wording: Wording) -> (m: Measurement)
    ensures
        m@ == descriptor_row(*a, handles, wording),
{
    let mut note = descriptor_noun(handles).to_owned();
    note.append(" went from ");
    push_u64(&mut note, a.baseline_descriptors);
    note.append(" to ");
    push_u64(&mut note, a.final_descriptors);
    note.append(" over ");
    push_usize(&mut note, a.samples);
    match wording {
        Wording::Full => note.append(
            " samples, measured from the first sample past the warm-up window (net delta ",
        ),
        Wording::Short => note.append(" samples (net delta "),
    }
    push_i64(&mut note, a.descriptor_delta);
    note.append(")");
    Measurement::scalar(
        "descriptor_growth",
        "descriptors",
        growth_of(a.descriptor_delta),
        Some(Budget::AtMost(0)),
    ).with_note(note.as_str())
}

/// The measurement of memory growth.
pub fn memory_growth(a: &Assessment, wording: Wording) -> (m: Measurement)
    ensures
        m@ == memory_row(*a, wording),
{
    let mut note = "resident memory went from ".to_owned();
    note.append(human_bytes(a.baseline_rss_bytes).as_str());
    note.append(" to ");
    note.append(human_bytes(a.final_rss_bytes).as_str());
    match wording {
        Wording::Full => {
            note.append(" (net delta ");
            push_i64(&mut note, a.rss_growth_bytes);
            note.append(" bytes), peaking at ");
        },
        Wording::Short => note.append(", peaking at "),
    }
    note.append(human_bytes(a.peak_rss_bytes).as_str());
    Measurement::scalar(
        "rss_growth",
        "bytes",
        growth_of(a.rss_growth_bytes),
        Some(Budget::AtMost(RSS_GROWTH_BUDGET_BYTES)),
    ).with_note(note.as_str())
}

/// The resource rows of a report are over their budgets exactly when the
/// assessment says so.
pub proof fn law_resource_verdicts_agree_with_the_assessment(
    samples: Seq<crate::monitor::Sample>,
    i: int,
    handles: bool,
    wording: Wording,
)
    requires
        0 <= i < samples.len(),
    ensures
        ({
            let a = crate::monitor::assessment_from(samples, i);
            &&& descriptor_row(a, handles, wording).verdict is Exceeded <==> a.descriptors_leaked
            &&& memory_row(a, wording).verdict is Exceeded <==> a.rss_over_budget
        }),
{
}

/// A stream is accounted for once every payload line and every checkpoint was
/// seen, checkpoints counting whether they verified or not, and no sooner.
pub proof fn law_a_stream_is_accounted_for_whole(s: Standing, lines: u64, checkpoints: u64)
    ensures
        is_accounted(s, lines, checkpoints) <==> lines <= s.next && checkpoints
            <= s.found.checksums_verified + s.found.checksum_faults,
{
}

/// There is a checkpoint behind each full run of `every` lines, and none where
/// none is asked for.
pub proof fn law_a_checkpoint_follows_each_full_run(lines: u64, every: u64)
    ensures
        every == 0 ==> checkpoints_of(lines, every) == 0,
        every > 0 ==> checkpoints_of(lines, every) * every <= lines < (checkpoints_of(lines, every)
            + 1) * every,
{
    if every > 0 {
        let n = lines as int;
        let d = every as int;
        assert((n / d) * d <= n < (n / d + 1) * d) by (nonlinear_arith)
            requires
                n >= 0,
                d > 0,
        ;
    }
}

/// The resource rows of a report say by how much the last sample holds more than
/// the baseline sample, and nothing where it holds less; no descriptor and ten
/// mebibytes are allowed. Readings past what a signed number holds are left out.
pub proof fn law_resource_rows_say_the_growth(
    samples: Seq<crate::monitor::Sample>,
    i: int,
    handles: bool,
    wording: Wording,
)
    requires
        0 <= i < samples.len() <= usize::MAX,
        samples[i].descriptors <= i64::MAX,
        samples[i].rss_bytes <= i64::MAX,
        samples.last().descriptors <= i64::MAX,
        samples.last().rss_bytes <= i64::MAX,
    ensures
        ({
            let a = crate::monitor::assessment_from(samples, i);
            let base = samples[i];
            let end = samples[samples.len() - 1];
            let opened = descriptor_row(a, handles, wording);
            let grown = memory_row(a, wording);
            &&& opened.name == "descriptor_growth"@ && opened.unit == "descriptors"@
            &&& opened.value == if end.descriptors > base.descriptors {
                end.descriptors - base.descriptors
            } else {
                0
            }
            &&& opened.budget == Some(Budget::AtMost(0))
            &&& grown.name == "rss_growth"@ && grown.unit == "bytes"@
            &&& grown.value == if end.rss_bytes > base.rss_bytes {
                end.rss_bytes - base.rss_bytes
            } else {
                0
            }
            &&& grown.budget == Some(Budget::AtMost(10_485_760))
        }),
{
    crate::monitor::law_growth_is_from_the_baseline_to_the_end(samples, i);
}

/// Nothing in no time is nothing, anything in no time is beyond counting, and over
/// some time it is the rate.
pub proof fn law_a_rate_needs_time(count: nat, ns: nat)
    ensures
        ns > 0 ==> sustained(count, ns) == per_second(count, ns),
        ns == 0 && count == 0 ==> sustained(count, ns) == 0,
        ns == 0 && count > 0 ==> sustained(count, ns) == u64::MAX,
{
}

} // verus!
