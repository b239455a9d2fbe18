//! Did a change make it worse? Two reports of one lane on one platform,
//! measurement by measurement, against a relative threshold.
//!
//! Only latency percentiles gate. Other numbers are reported as drift.
use vstd::prelude::*;
use vstd::string::*;

use crate::double::{human_ns, human_ns_text};
use crate::report::{
    optional_text, rows, texts, Budget, Measurement, MeasurementView, Report, ReportView,
};
use crate::text::{begins_with, decimal, push_u64, same_text};
use crate::total::sum;

verus! {

/// How much worse a gated number may get before the comparison fails, in percent.
pub const REGRESSION_THRESHOLD_PERCENT: u64 = 20;

/// Whether a measurement gates: a latency percentile, with nothing declaring
/// that bigger is better.
pub open spec fn is_gated(m: MeasurementView) -> bool {
    &&& m.statistic is Some
    &&& m.unit == "ns"@
    &&& (m.budget matches Some(b) ==> !(b is AtLeast))
}

/// Whether two measurements are of one series: the same name and statistic.
pub open spec fn same_series(a: MeasurementView, b: MeasurementView) -> bool {
    a.name == b.name && a.statistic == b.statistic
}

/// The first measurement of a list that is of the same series as `m`.
pub open spec fn counterpart(list: Seq<MeasurementView>, m: MeasurementView) -> Option<
    MeasurementView,
>
    decreases list.len(),
{
    if list.len() == 0 {
        None
    } else if same_series(list[0], m) {
        Some(list[0])
    } else {
        counterpart(list.drop_first(), m)
    }
}

/// The highest value that still passes against a baseline.
pub open spec fn limit_of(baseline: u64) -> nat {
    baseline as nat * 120 / 100
}

/// The value below which a change counts as an improvement.
pub open spec fn improvement_mark_of(baseline: u64) -> nat {
    baseline as nat * 80 / 100
}

/// Whether a measurement got worse past the threshold.
pub open spec fn regressed(baseline: Seq<MeasurementView>, m: MeasurementView) -> bool {
    counterpart(baseline, m) matches Some(b) && is_gated(m) && m.value > limit_of(b.value)
}

/// What is said of a measurement that got worse past the threshold.
pub open spec fn regression_of(baseline: Seq<MeasurementView>, m: MeasurementView) -> Option<
    Seq<char>,
> {
    match counterpart(baseline, m) {
        Some(b) => if is_gated(m) && m.value > limit_of(b.value) {
            Some(
                m.name + ": "@ + human_ns_text(m.value as nat) + " against a baseline of "@
                    + human_ns_text(b.value as nat) + " \u{2014} past the 20% threshold ("@
                    + human_ns_text(limit_of(b.value)) + ")"@,
            )
        } else {
            None
        },
        None => None,
    }
}

/// What is said of a measurement that got markedly better.
pub open spec fn improvement_of(baseline: Seq<MeasurementView>, m: MeasurementView) -> Option<
    Seq<char>,
> {
    match counterpart(baseline, m) {
        Some(b) => if is_gated(m) && m.value <= limit_of(b.value) && m.value < improvement_mark_of(
            b.value,
        ) {
            Some(
                m.name + ": "@ + human_ns_text(m.value as nat) + " against a baseline of "@
                    + human_ns_text(b.value as nat)
                    + " \u{2014} worth noting in the change's description"@,
            )
        } else {
            None
        },
        None => None,
    }
}

/// What is said of a measurement that moved without gating, or is new.
pub open spec fn drift_of(baseline: Seq<MeasurementView>, m: MeasurementView) -> Option<Seq<char>> {
    match counterpart(baseline, m) {
        Some(b) => if !is_gated(m) && b.value != m.value {
            Some(
                m.name + ": "@ + decimal(b.value as nat) + " -> "@ + decimal(m.value as nat) + " "@
                    + m.unit + " (ungated)"@,
            )
        } else {
            None
        },
        None => Some(m.name + ": no baseline recorded"@),
    }
}

/// What is said of a gated measurement that the current run no longer carries.
pub open spec fn absence_of(current: Seq<MeasurementView>, b: MeasurementView) -> Option<
    Seq<char>,
> {
    if counterpart(current, b) is None && is_gated(b) {
        Some(
            b.name
                + ": baselined but absent from this run \u{2014} a gated measurement cannot disappear silently; re-record the baseline if the removal is deliberate"@,
        )
    } else {
        None
    }
}

/// What is said of an ungated measurement that the current run no longer carries.
pub open spec fn retirement_of(current: Seq<MeasurementView>, b: MeasurementView) -> Option<
    Seq<char>,
> {
    if counterpart(current, b) is None && !is_gated(b) {
        Some(b.name + ": no longer measured"@)
    } else {
        None
    }
}

/// Whether a measurement and its baseline are in different units.
pub open spec fn units_clash(baseline: Seq<MeasurementView>, m: MeasurementView) -> bool {
    counterpart(baseline, m) matches Some(b) && b.unit != m.unit
}

/// Whether the measurement at `i` is the first whose baseline is in another unit.
pub open spec fn first_clash(
    baseline: Seq<MeasurementView>,
    current: Seq<MeasurementView>,
    i: int,
) -> bool {
    &&& 0 <= i < current.len()
    &&& units_clash(baseline, current[i])
    &&& forall|j: int| 0 <= j < i ==> !units_clash(baseline, #[trigger] current[j])
}

/// The refusal of a measurement whose baseline is in another unit.
pub open spec fn clash_text(baseline: Seq<MeasurementView>, m: MeasurementView) -> Seq<char> {
    match counterpart(baseline, m) {
        Some(b) => m.name + ": baseline is in "@ + b.unit + " and the current run in "@ + m.unit
            + " \u{2014} raw numbers across units are not comparable; re-record the baseline"@,
        None => Seq::empty(),
    }
}

/// The findings of the comparison, by kind.
pub open spec fn all_regressions(
    baseline: Seq<MeasurementView>,
    current: Seq<MeasurementView>,
) -> Seq<Seq<char>> {
    current.filter_map(|m: MeasurementView| regression_of(baseline, m)) + baseline.filter_map(
        |b: MeasurementView| absence_of(current, b),
    )
}

/// The improvements of the comparison.
pub open spec fn all_improvements(
    baseline: Seq<MeasurementView>,
    current: Seq<MeasurementView>,
) -> Seq<Seq<char>> {
    current.filter_map(|m: MeasurementView| improvement_of(baseline, m))
}

/// The drift of the comparison.
pub open spec fn all_drift(
    baseline: Seq<MeasurementView>,
    current: Seq<MeasurementView>,
) -> Seq<Seq<char>> {
    current.filter_map(|m: MeasurementView| drift_of(baseline, m)) + baseline.filter_map(
        |b: MeasurementView| retirement_of(current, b),
    )
}

/// The refusal of reports from two lanes.
pub open spec fn lane_refusal(baseline: ReportView, current: ReportView) -> Seq<char> {
    "comparing lane "@ + current.lane + " against baseline lane "@ + baseline.lane
        + " \u{2014} two lanes are two measurements"@
}

/// The refusal of reports from two platforms.
pub open spec fn platform_refusal(baseline: ReportView, current: ReportView) -> Seq<char> {
    "comparing "@ + current.os + "/"@ + current.arch + " against a "@ + baseline.os + "/"@
        + baseline.arch
        + " baseline \u{2014} cross-platform latency deltas are not evidence of anything"@
}

/// The findings of one comparison.
#[derive(Debug)]
pub struct Comparison {
    pub regressions: Vec<String>,
    pub improvements: Vec<String>,
    pub drift: Vec<String>,
}

impl Comparison {
    /// Whether the run passed: nothing regressed.
    pub fn passed(&self) -> (passed: bool)
        ensures
            passed == (self.regressions@.len() == 0),
    {
        self.regressions.len() == 0
    }
}

fn same_statistic(a: &Option<String>, b: &Option<String>) -> (same: bool)
    ensures
        same == (optional_text(*a) == optional_text(*b)),
{
    match (a, b) {
        (Some(x), Some(y)) => same_text(x.as_str(), y.as_str()),
        (None, None) => true,
        _ => false,
    }
}

/// Whether a measurement gates the comparison.
fn gated(m: &Measurement) -> (gates: bool)
    ensures
        gates == is_gated(m@),
{
    let budgeted_high = match m.budget {
        Some(b) => b.higher_is_better(),
        None => false,
    };
    m.statistic.is_some() && same_text(m.unit.as_str(), "ns") && !budgeted_high
}

proof fn lemma_counterpart_skip(list: Seq<MeasurementView>, m: MeasurementView, i: int)
    requires
        0 <= i <= list.len(),
        forall|j: int| 0 <= j < i ==> !same_series(#[trigger] list[j], m),
    ensures
        counterpart(list, m) == counterpart(list.skip(i), m),
    decreases i,
{
    if i == 0 {
        assert(list.skip(0) =~= list);
    } else {
        assert(!same_series(list[0], m));
        lemma_counterpart_skip(list.drop_first(), m, i - 1);
        assert(list.drop_first().skip(i - 1) =~= list.skip(i));
    }
}

/// The first measurement of the same series as `m`.
fn find_counterpart<'a>(list: &'a Vec<Measurement>, m: &Measurement) -> (found: Option<
    &'a Measurement,
>)
    ensures
        match found {
            Some(b) => counterpart(rows(list@), m@) == Some(b@),
            None => counterpart(rows(list@), m@) is None,
        },
{
    let mut i: usize = 0;
    while i < list.len()
        invariant
            i <= list@.len(),
            forall|j: int| 0 <= j < i ==> !same_series(#[trigger] rows(list@)[j], m@),
        decreases list@.len() - i,
    {
        if same_text(list[i].name.as_str(), m.name.as_str()) && same_statistic(
            &list[i].statistic,
            &m.statistic,
        ) {
            proof {
                lemma_counterpart_skip(rows(list@), m@, i as int);
                assert(rows(list@).skip(i as int)[0] == list@[i as int]@);
            }
            return Some(&list[i]);
        }
        i += 1;
    }
    proof {
        lemma_counterpart_skip(rows(list@), m@, i as int);
    }
    None
}

proof fn lemma_filter_map_step(
    s: Seq<MeasurementView>,
    i: int,
    f: spec_fn(MeasurementView) -> Option<Seq<char>>,
)
    requires
        0 <= i < s.len(),
    ensures
        s.take(i + 1).filter_map(f) == match f(s[i]) {
            Some(t) => s.take(i).filter_map(f).push(t),
            None => s.take(i).filter_map(f),
        },
{
    assert(s.take(i + 1).drop_last() =~= s.take(i));
    match f(s[i]) {
        Some(t) => {
            assert(s.take(i).filter_map(f) + seq![t] =~= s.take(i).filter_map(f).push(t));
        },
        None => {},
    }
}

/// Whether two reports are comparable at all: of one lane, from one platform,
/// with no measurement in two units.
pub open spec fn comparable(baseline: ReportView, current: ReportView) -> bool {
    &&& baseline.lane == current.lane
    &&& baseline.os == current.os
    &&& baseline.arch == current.arch
    &&& forall|i: int|
        0 <= i < current.measurements.len() ==> !units_clash(
            baseline.measurements,
            #[trigger] current.measurements[i],
        )
}

/// Whether a text says why two reports are not comparable.
pub open spec fn refused(baseline: ReportView, current: ReportView, text: Seq<char>) -> bool {
    if baseline.lane != current.lane {
        text == lane_refusal(baseline, current)
    } else if baseline.os != current.os || baseline.arch != current.arch {
        text == platform_refusal(baseline, current)
    } else {
        exists|i: int| #[trigger]
            first_clash(baseline.measurements, current.measurements, i) && text == clash_text(
                baseline.measurements,
                current.measurements[i],
            )
    }
}

/// Compare a run against its baseline. An error means that the two are not
/// comparable at all: different lanes, platforms or units.
pub fn compare(baseline: &Report, current: &Report) -> (r: Result<Comparison, String>)
    ensures
        match r {
            Ok(found) => {
                &&& comparable(baseline@, current@)
                &&& texts(found.regressions@) == all_regressions(
                    baseline@.measurements,
                    current@.measurements,
                )
                &&& texts(found.improvements@) == all_improvements(
                    baseline@.measurements,
                    current@.measurements,
                )
                &&& texts(found.drift@) == all_drift(
                    baseline@.measurements,
                    current@.measurements,
                )
            },
            Err(text) => refused(baseline@, current@, text@),
        },
{
    broadcast use crate::report::lemma_texts_push;

    if !same_text(baseline.lane.as_str(), current.lane.as_str()) {
        let mut text = "comparing lane ".to_owned();
        text.append(current.lane.as_str());
        text.append(" against baseline lane ");
        text.append(baseline.lane.as_str());
        text.append(" \u{2014} two lanes are two measurements");
        return Err(text);
    }
    if !same_text(baseline.os.as_str(), current.os.as_str()) || !same_text(
        baseline.arch.as_str(),
        current.arch.as_str(),
    ) {
        let mut text = "comparing ".to_owned();
        text.append(current.os.as_str());
        text.append("/");
        text.append(current.arch.as_str());
        text.append(" against a ");
        text.append(baseline.os.as_str());
        text.append("/");
        text.append(baseline.arch.as_str());
        text.append(" baseline \u{2014} cross-platform latency deltas are not evidence of anything");
        return Err(text);
    }
    let ghost base = rows(baseline.measurements@);
    let ghost cur = rows(current.measurements@);
    let ghost regression = |m: MeasurementView| regression_of(base, m);
    let ghost improvement = |m: MeasurementView| improvement_of(base, m);
    let ghost drifted = |m: MeasurementView| drift_of(base, m);
    let ghost absence = |b: MeasurementView| absence_of(cur, b);
    let ghost retirement = |b: MeasurementView| retirement_of(cur, b);
    let mut regressions: Vec<String> = Vec::new();
    let mut improvements: Vec<String> = Vec::new();
    let mut drift: Vec<String> = Vec::new();
    let mut i: usize = 0;
    proof {
        assert(texts(regressions@) =~= cur.take(0).filter_map(regression));
        assert(texts(improvements@) =~= cur.take(0).filter_map(improvement));
        assert(texts(drift@) =~= cur.take(0).filter_map(drifted));
    }
    while i < current.measurements.len()
        invariant
            i <= current.measurements@.len(),
            base == rows(baseline.measurements@),
            cur == rows(current.measurements@),
            baseline@.lane == current@.lane,
            baseline@.os == current@.os,
            baseline@.arch == current@.arch,
            regression == (|m: MeasurementView| regression_of(base, m)),
            improvement == (|m: MeasurementView| improvement_of(base, m)),
            drifted == (|m: MeasurementView| drift_of(base, m)),
            forall|j: int| 0 <= j < i ==> !units_clash(base, #[trigger] cur[j]),
            texts(regressions@) == cur.take(i as int).filter_map(regression),
            texts(improvements@) == cur.take(i as int).filter_map(improvement),
            texts(drift@) == cur.take(i as int).filter_map(drifted),
        decreases current.measurements@.len() - i,
    {
        let m = &current.measurements[i];
        proof {
            assert(cur[i as int] == m@);
            lemma_filter_map_step(cur, i as int, regression);
            lemma_filter_map_step(cur, i as int, improvement);
            lemma_filter_map_step(cur, i as int, drifted);
        }
        match find_counterpart(&baseline.measurements, m) {
            None => {
                let mut text = m.name.clone();
                text.append(": no baseline recorded");
                drift.push(text);
            },
            Some(b) => {
                if !same_text(b.unit.as_str(), m.unit.as_str()) {
                    let mut text = m.name.clone();
                    text.append(": baseline is in ");
                    text.append(b.unit.as_str());
                    text.append(" and the current run in ");
                    text.append(m.unit.as_str());
                    text.append(
                        " \u{2014} raw numbers across units are not comparable; re-record the baseline",
                    );
                    assert(base == baseline@.measurements && cur == current@.measurements);
                    assert(text@ == clash_text(base, cur[i as int]));
                    assert(first_clash(base, cur, i as int));
                    return Err(text);
                }
                if !gated(m) {
                    if b.value != m.value {
                        let mut text = m.name.clone();
                        text.append(": ");
                        push_u64(&mut text, b.value);
                        text.append(" -> ");
                        push_u64(&mut text, m.value);
                        text.append(" ");
                        text.append(m.unit.as_str());
                        text.append(" (ungated)");
                        drift.push(text);
                    }
                } else {
                    let limit: u128 = b.value as u128 * (100 + REGRESSION_THRESHOLD_PERCENT) as u128
                        / 100;
                    let mark: u128 = b.value as u128 * (100 - REGRESSION_THRESHOLD_PERCENT) as u128
                        / 100;
                    if m.value as u128 > limit {
                        let mut text = m.name.clone();
                        text.append(": ");
                        text.append(human_ns(m.value).as_str());
                        text.append(" against a baseline of ");
                        text.append(human_ns(b.value).as_str());
                        text.append(" \u{2014} past the 20% threshold (");
                        text.append(human_ns(limit as u64).as_str());
                        text.append(")");
                        regressions.push(text);
                    } else if (m.value as u128) < mark {
                        let mut text = m.name.clone();
                        text.append(": ");
                        text.append(human_ns(m.value).as_str());
                        text.append(" against a baseline of ");
                        text.append(human_ns(b.value).as_str());
                        text.append(" \u{2014} worth noting in the change's description");
                        improvements.push(text);
                    }
                }
            },
        }
        i += 1;
    }
    let ghost first_regressions = texts(regressions@);
    let ghost first_drift = texts(drift@);
    let mut k: usize = 0;
    proof {
        assert(cur.take(i as int) =~= cur);
        assert(texts(regressions@) =~= first_regressions + base.take(0).filter_map(absence));
        assert(texts(drift@) =~= first_drift + base.take(0).filter_map(retirement));
    }
    while k < baseline.measurements.len()
        invariant
            k <= baseline.measurements@.len(),
            base == rows(baseline.measurements@),
            cur == rows(current.measurements@),
            absence == (|b: MeasurementView| absence_of(cur, b)),
            retirement == (|b: MeasurementView| retirement_of(cur, b)),
            texts(regressions@) == first_regressions + base.take(k as int).filter_map(absence),
            texts(drift@) == first_drift + base.take(k as int).filter_map(retirement),
        decreases baseline.measurements@.len() - k,
    {
        let b = &baseline.measurements[k];
        let ghost said = base.take(k as int).filter_map(absence);
        let ghost retired = base.take(k as int).filter_map(retirement);
        proof {
            assert(base[k as int] == b@);
            lemma_filter_map_step(base, k as int, absence);
            lemma_filter_map_step(base, k as int, retirement);
        }
        if find_counterpart(&current.measurements, b).is_none() {
            if gated(b) {
                let mut text = b.name.clone();
                text.append(
                    ": baselined but absent from this run \u{2014} a gated measurement cannot disappear silently; re-record the baseline if the removal is deliberate",
                );
                assert(first_regressions + said.push(text@) =~= (first_regressions + said).push(
                    text@,
                ));
                regressions.push(text);
            } else {
                let mut text = b.name.clone();
                text.append(": no longer measured");
                assert(first_drift + retired.push(text@) =~= (first_drift + retired).push(text@));
                drift.push(text);
            }
        }
        k += 1;
    }
    assert(base.take(k as int) =~= base);
    Ok(Comparison { regressions, improvements, drift })
}

/// Whether a baselined measurement that gates is missing from the current run.
pub open spec fn vanished(current: Seq<MeasurementView>, b: MeasurementView) -> bool {
    is_gated(b) && counterpart(current, b) is None
}

/// A comparison passes if and only if no measurement got worse past the threshold
/// and no gated measurement of the baseline has disappeared.
pub proof fn law_the_gate_passes_without_regression_or_disappearance(
    baseline: Seq<MeasurementView>,
    current: Seq<MeasurementView>,
)
    ensures
        all_regressions(baseline, current).len() == 0 <==> {
            &&& forall|i: int| 0 <= i < current.len() ==> !regressed(baseline, #[trigger] current[i])
            &&& forall|i: int| 0 <= i < baseline.len() ==> !vanished(current, #[trigger] baseline[i])
        },
{
    lemma_filter_map_empty(current, |m: MeasurementView| regression_of(baseline, m));
    lemma_filter_map_empty(baseline, |b: MeasurementView| absence_of(current, b));
    assert forall|i: int| 0 <= i < current.len() implies (regressed(baseline, #[trigger] current[i])
        <==> regression_of(baseline, current[i]) is Some) by {}
    assert forall|i: int| 0 <= i < baseline.len() implies (vanished(current, #[trigger] baseline[i])
        <==> absence_of(current, baseline[i]) is Some) by {}
}

proof fn lemma_filter_map_empty(
    s: Seq<MeasurementView>,
    f: spec_fn(MeasurementView) -> Option<Seq<char>>,
)
    ensures
        s.filter_map(f).len() == 0 <==> forall|i: int| 0 <= i < s.len() ==> f(#[trigger] s[i]) is None,
    decreases s.len(),
{
    if s.len() > 0 {
        lemma_filter_map_empty(s.drop_last(), f);
        if s.filter_map(f).len() == 0 {
            assert forall|i: int| 0 <= i < s.len() implies f(#[trigger] s[i]) is None by {
                if i < s.len() - 1 {
                    assert(s[i] == s.drop_last()[i]);
                }
            }
        }
        if forall|i: int| 0 <= i < s.len() ==> f(#[trigger] s[i]) is None {
            assert forall|i: int| 0 <= i < s.drop_last().len() implies f(
                #[trigger] s.drop_last()[i],
            ) is None by {
                assert(s[i] == s.drop_last()[i]);
            }
            assert(f(s[s.len() - 1]) is None);
        }
    }
}

/// A measurement of the same series is found, no later than at a known place.
proof fn lemma_counterpart_is_first(list: Seq<MeasurementView>, m: MeasurementView, i: int)
    requires
        0 <= i < list.len(),
        same_series(list[i], m),
    ensures
        exists|k: int|
            0 <= k <= i && same_series(#[trigger] list[k], m) && counterpart(list, m) == Some(
                list[k],
            ),
    decreases list.len(),
{
    if !same_series(list[0], m) {
        let rest = list.drop_first();
        assert(rest[i - 1] == list[i]);
        lemma_counterpart_is_first(rest, m, i - 1);
        let k = choose|k: int|
            0 <= k <= i - 1 && same_series(#[trigger] rest[k], m) && counterpart(rest, m) == Some(
                rest[k],
            );
        assert(rest[k] == list[k + 1]);
    } else {
        assert(same_series(list[0], m));
    }
}

/// A run that measures no series twice with different results passes against
/// itself, with no improvement and no drift, whatever its values.
pub proof fn law_a_run_passes_against_itself(list: Seq<MeasurementView>)
    requires
        forall|i: int, j: int|
            0 <= i < j < list.len() && same_series(#[trigger] list[i], #[trigger] list[j])
                ==> list[i].value == list[j].value && list[i].unit == list[j].unit,
    ensures
        all_regressions(list, list).len() == 0,
        all_improvements(list, list).len() == 0,
        all_drift(list, list).len() == 0,
        forall|i: int| 0 <= i < list.len() ==> !units_clash(list, #[trigger] list[i]),
{
    assert forall|i: int| 0 <= i < list.len() implies counterpart(
        list,
        #[trigger] list[i],
    ) matches Some(b) && b.value == list[i].value && b.unit == list[i].unit by {
        lemma_counterpart_is_first(list, list[i], i);
    }
    lemma_filter_map_empty(list, |m: MeasurementView| regression_of(list, m));
    lemma_filter_map_empty(list, |m: MeasurementView| improvement_of(list, m));
    lemma_filter_map_empty(list, |m: MeasurementView| drift_of(list, m));
    lemma_filter_map_empty(list, |b: MeasurementView| absence_of(list, b));
    lemma_filter_map_empty(list, |b: MeasurementView| retirement_of(list, b));
}

/// A step line of a comparison.
#[derive(Debug)]
pub struct GateStep {
    pub pass: bool,
    pub detail: String,
}

/// What a comparison reports, and whether it passed.
#[derive(Debug)]
pub struct Gate {
    pub steps: Vec<GateStep>,
    pub passed: bool,
}

/// The contents of a list of step lines.
pub open spec fn step_views(steps: Seq<GateStep>) -> Seq<(bool, Seq<char>)> {
    steps.map_values(|s: GateStep| (s.pass, s.detail@))
}

/// The step lines of findings of one sort.
pub open spec fn finding_steps(pass: bool, lead: Seq<char>, findings: Seq<Seq<char>>) -> Seq<
    (bool, Seq<char>),
> {
    findings.map_values(|f: Seq<char>| (pass, lead + f))
}

/// The step lines of a comparison: regressions, improvements and drift, and a
/// last one where nothing regressed.
pub open spec fn gate_steps(baseline: ReportView, current: ReportView) -> Seq<(bool, Seq<char>)> {
    let regressions = all_regressions(baseline.measurements, current.measurements);
    let found = finding_steps(false, "regression: "@, regressions) + finding_steps(
        true,
        "improvement: "@,
        all_improvements(baseline.measurements, current.measurements),
    ) + finding_steps(
        true,
        "drift: "@,
        all_drift(baseline.measurements, current.measurements),
    );
    if regressions.len() == 0 {
        found.push(
            (
                true,
                current.lane + " within "@ + decimal(REGRESSION_THRESHOLD_PERCENT as nat)
                    + "% of its baseline"@,
            ),
        )
    } else {
        found
    }
}

fn push_findings(
    steps: &mut Vec<GateStep>,
    pass: bool,
    lead: &str,
    findings: &Vec<String>,
)
    ensures
        step_views(final(steps)@) == step_views(old(steps)@) + finding_steps(
            pass,
            lead@,
            texts(findings@),
        ),
{
    let ghost all = finding_steps(pass, lead@, texts(findings@));
    let ghost start = step_views(steps@);
    let mut i: usize = 0;
    assert(start + all.take(0) =~= start);
    while i < findings.len()
        invariant
            all == finding_steps(pass, lead@, texts(findings@)),
            start == step_views(old(steps)@),
            i <= findings@.len(),
            step_views(steps@) == start + all.take(i as int),
        decreases findings@.len() - i,
    {
        let ghost before = steps@;
        let mut detail = lead.to_owned();
        detail.append(findings[i].as_str());
        assert(all[i as int] == (pass, detail@));
        steps.push(GateStep { pass, detail });
        i += 1;
        assert(step_views(steps@) =~= step_views(before).push(all[i - 1]));
        assert(all.take(i as int) =~= all.take(i - 1).push(all[i - 1]));
    }
    assert(all.take(i as int) =~= all);
}

/// Hold a run against its baseline. Where there is none, the run passes and
/// is told so: a baseline is recorded deliberately, from a trusted run.
pub fn run(baseline: &Option<Report>, baseline_path: &str, current: &Report) -> (r: Result<
    Gate,
    String,
>)
    ensures
        match (*baseline, r) {
            (None, Ok(gate)) => gate.passed && step_views(gate.steps@) == seq![
                (
                    true,
                    "no baseline at "@ + baseline_path@ + " \u{2014} nothing to hold "@
                        + current.lane@
                        + " against; record one deliberately from a trusted run"@,
                ),
            ],
            (Some(base), Ok(gate)) => {
                &&& comparable(base@, current@)
                &&& step_views(gate.steps@) == gate_steps(base@, current@)
                &&& gate.passed == (all_regressions(
                    base@.measurements,
                    current@.measurements,
                ).len() == 0)
            },
            (Some(base), Err(text)) => refused(base@, current@, text@),
            _ => false,
        },
{
    let mut steps: Vec<GateStep> = Vec::new();
    assert(step_views(steps@) =~= Seq::empty());
    let base = match baseline {
        Some(base) => base,
        None => {
            let mut detail = "no baseline at ".to_owned();
            detail.append(baseline_path);
            detail.append(" \u{2014} nothing to hold ");
            detail.append(current.lane.as_str());
            detail.append(" against; record one deliberately from a trusted run");
            steps.push(GateStep { pass: true, detail });
            assert(step_views(steps@) =~= seq![(true, detail@)]);
            return Ok(Gate { steps, passed: true });
        },
    };
    let found = match compare(base, current) {
        Ok(found) => found,
        Err(why) => {
            return Err(why);
        },
    };
    push_findings(&mut steps, false, "regression: ", &found.regressions);
    assert(step_views(steps@) =~= finding_steps(
        false,
        "regression: "@,
        texts(found.regressions@),
    ));
    push_findings(&mut steps, true, "improvement: ", &found.improvements);
    push_findings(&mut steps, true, "drift: ", &found.drift);
    let passed = found.passed();
    assert(texts(found.regressions@).len() == found.regressions@.len());
    if passed {
        let ghost before = steps@;
        let mut detail = current.lane.clone();
        detail.append(" within ");
        push_u64(&mut detail, REGRESSION_THRESHOLD_PERCENT);
        detail.append("% of its baseline");
        steps.push(GateStep { pass: true, detail });
        assert(step_views(steps@) =~= step_views(before).push((true, detail@)));
    }
    Ok(Gate { steps, passed })
}

/// Whether the measurement at `j` is the first of a list with the name and the
/// statistic of `m`.
pub open spec fn stands_first(list: Seq<MeasurementView>, m: MeasurementView, j: int) -> bool {
    &&& 0 <= j < list.len()
    &&& list[j].name == m.name && list[j].statistic == m.statistic
    &&& forall|k: int|
        0 <= k < j ==> !((#[trigger] list[k]).name == m.name && list[k].statistic == m.statistic)
}

/// Whether a measurement is a statistic in nanoseconds that should be small.
pub open spec fn is_latency(m: MeasurementView) -> bool {
    m.statistic is Some && m.unit == "ns"@ && !(m.budget matches Some(Budget::AtLeast(_)))
}

/// A measurement is held against the first of its series in the baseline: it got
/// worse when it is more than 120 hundredths of that, better when the next number
/// after it is still no more than 80 hundredths, and only a latency does either.
/// Any other number drifts when it is not the same.
pub proof fn law_a_measurement_is_held_against_its_first_baseline(
    baseline: Seq<MeasurementView>,
    m: MeasurementView,
    j: int,
)
    requires
        stands_first(baseline, m, j),
    ensures
        regression_of(baseline, m) is Some <==> is_latency(m) && m.value * 100 > baseline[j].value
            * 120,
        improvement_of(baseline, m) is Some <==> is_latency(m) && (m.value + 1) * 100
            <= baseline[j].value * 80,
        drift_of(baseline, m) is Some <==> !is_latency(m) && m.value != baseline[j].value,
        units_clash(baseline, m) <==> m.unit != baseline[j].unit,
        regression_of(baseline, m) matches Some(text) ==> begins_with(
            text,
            m.name + ": "@ + human_ns_text(m.value as nat) + " against a baseline of "@
                + human_ns_text(baseline[j].value as nat),
        ),
        improvement_of(baseline, m) matches Some(text) ==> begins_with(
            text,
            m.name + ": "@ + human_ns_text(m.value as nat) + " against a baseline of "@
                + human_ns_text(baseline[j].value as nat),
        ),
        drift_of(baseline, m) matches Some(text) ==> begins_with(
            text,
            m.name + ": "@ + decimal(baseline[j].value as nat) + " -> "@ + decimal(m.value as nat)
                + " "@ + m.unit,
        ),
{
    lemma_counterpart_is_first(baseline, m, j);
    let k = choose|k: int|
        0 <= k <= j && same_series(#[trigger] baseline[k], m) && counterpart(baseline, m) == Some(
            baseline[k],
        );
    assert(k == j);
    let b = baseline[j];
    let head = m.name + ": "@ + human_ns_text(m.value as nat) + " against a baseline of "@
        + human_ns_text(b.value as nat);
    if let Some(text) = regression_of(baseline, m) {
        assert(text.subrange(0, head.len() as int) =~= head);
    }
    if let Some(text) = improvement_of(baseline, m) {
        assert(text.subrange(0, head.len() as int) =~= head);
    }
    if let Some(text) = drift_of(baseline, m) {
        let drifted = m.name + ": "@ + decimal(b.value as nat) + " -> "@ + decimal(m.value as nat)
            + " "@ + m.unit;
        assert(text.subrange(0, drifted.len() as int) =~= drifted);
    }
}

/// A measurement without its series on the other side neither gets worse nor
/// better: a new one drifts, and one that is gone fails the run where it is a
/// latency and drifts where it is not.
pub proof fn law_a_series_on_one_side_alone(list: Seq<MeasurementView>, m: MeasurementView)
    requires
        forall|k: int|
            0 <= k < list.len() ==> !((#[trigger] list[k]).name == m.name && list[k].statistic
                == m.statistic),
    ensures
        regression_of(list, m) is None,
        improvement_of(list, m) is None,
        drift_of(list, m) is Some,
        !units_clash(list, m),
        absence_of(list, m) is Some <==> is_latency(m),
        retirement_of(list, m) is Some <==> !is_latency(m),
{
    lemma_counterpart_skip(list, m, list.len() as int);
    assert(list.skip(list.len() as int).len() == 0);
}

/// A baselined measurement whose series the run carries is neither absent nor
/// retired.
pub proof fn law_a_carried_series_is_not_missed(
    current: Seq<MeasurementView>,
    b: MeasurementView,
    j: int,
)
    requires
        0 <= j < current.len(),
        current[j].name == b.name,
        current[j].statistic == b.statistic,
    ensures
        absence_of(current, b) is None,
        retirement_of(current, b) is None,
{
    lemma_counterpart_is_first(current, b, j);
}

/// There is one finding for each measurement that gives one: none is dropped and
/// none is said twice.
pub proof fn law_every_finding_is_said_once(
    baseline: Seq<MeasurementView>,
    current: Seq<MeasurementView>,
)
    ensures
        all_regressions(baseline, current).len() == sum(
            |i: int| if regression_of(baseline, current[i]) is Some { 1int } else { 0int },
            current.len() as int,
        ) + sum(
            |i: int| if absence_of(current, baseline[i]) is Some { 1int } else { 0int },
            baseline.len() as int,
        ),
        all_improvements(baseline, current).len() == sum(
            |i: int| if improvement_of(baseline, current[i]) is Some { 1int } else { 0int },
            current.len() as int,
        ),
        all_drift(baseline, current).len() == sum(
            |i: int| if drift_of(baseline, current[i]) is Some { 1int } else { 0int },
            current.len() as int,
        ) + sum(
            |i: int| if retirement_of(current, baseline[i]) is Some { 1int } else { 0int },
            baseline.len() as int,
        ),
{
    lemma_filter_map_counts(
        current,
        |m: MeasurementView| regression_of(baseline, m),
        |i: int| if regression_of(baseline, current[i]) is Some { 1int } else { 0int },
        current.len() as int,
    );
    lemma_filter_map_counts(
        baseline,
        |b: MeasurementView| absence_of(current, b),
        |i: int| if absence_of(current, baseline[i]) is Some { 1int } else { 0int },
        baseline.len() as int,
    );
    lemma_filter_map_counts(
        current,
        |m: MeasurementView| improvement_of(baseline, m),
        |i: int| if improvement_of(baseline, current[i]) is Some { 1int } else { 0int },
        current.len() as int,
    );
    lemma_filter_map_counts(
        current,
        |m: MeasurementView| drift_of(baseline, m),
        |i: int| if drift_of(baseline, current[i]) is Some { 1int } else { 0int },
        current.len() as int,
    );
    lemma_filter_map_counts(
        baseline,
        |b: MeasurementView| retirement_of(current, b),
        |i: int| if retirement_of(current, baseline[i]) is Some { 1int } else { 0int },
        baseline.len() as int,
    );
    assert(current.take(current.len() as int) =~= current);
    assert(baseline.take(baseline.len() as int) =~= baseline);
}

proof fn lemma_filter_map_counts(
    s: Seq<MeasurementView>,
    f: spec_fn(MeasurementView) -> Option<Seq<char>>,
    found: spec_fn(int) -> int,
    n: int,
)
    requires
        0 <= n <= s.len(),
        forall|i: int|
            0 <= i < s.len() ==> #[trigger] found(i) == if f(s[i]) is Some {
                1int
            } else {
                0int
            },
    ensures
        s.take(n).filter_map(f).len() == sum(found, n),
    decreases n,
{
    if n > 0 {
        lemma_filter_map_counts(s, f, found, n - 1);
        lemma_filter_map_step(s, n - 1, f);
        assert(found(n - 1) == if f(s[n - 1]) is Some { 1int } else { 0int });
    } else {
        lemma_filter_map_empty(s.take(0), f);
    }
}

/// A gate's steps are its findings, the failing ones first and none failing but
/// regressions, and where nothing failed one more that says so.
pub proof fn law_a_gate_fails_a_step_for_each_regression(baseline: ReportView, current: ReportView)
    ensures
        ({
            let steps = gate_steps(baseline, current);
            let failing = all_regressions(baseline.measurements, current.measurements).len() as int;
            &&& failing <= steps.len()
            &&& forall|k: int| 0 <= k < steps.len() ==> ((#[trigger] steps[k]).0 <==> k >= failing)
            &&& steps.len() == failing + all_improvements(
                baseline.measurements,
                current.measurements,
            ).len() + all_drift(baseline.measurements, current.measurements).len() + if failing
                == 0 {
                1int
            } else {
                0int
            }
        }),
{
}

/// Reports of two lanes, of two platforms, or with a measurement in another unit
/// than the first of its series in the baseline are never compared.
pub proof fn law_only_like_reports_are_compared(
    baseline: ReportView,
    current: ReportView,
    i: int,
    j: int,
)
    requires
        0 <= i < current.measurements.len(),
        stands_first(baseline.measurements, current.measurements[i], j),
        current.lane != baseline.lane || current.os != baseline.os || current.arch != baseline.arch
            || current.measurements[i].unit != baseline.measurements[j].unit,
    ensures
        !comparable(baseline, current),
{
    law_a_measurement_is_held_against_its_first_baseline(
        baseline.measurements,
        current.measurements[i],
        j,
    );
}

/// A refusal names both sides of what differs: the lanes where they do, else the
/// platforms where they do, else the units of the first measurement that has
/// another than the first of its series in the baseline.
pub proof fn law_a_refusal_names_what_differs(
    baseline: ReportView,
    current: ReportView,
    text: Seq<char>,
    i: int,
    j: int,
)
    requires
        refused(baseline, current, text),
        0 <= i < current.measurements.len(),
        stands_first(baseline.measurements, current.measurements[i], j),
        current.measurements[i].unit != baseline.measurements[j].unit,
        forall|k: int, l: int|
            0 <= k < i && #[trigger] stands_first(
                baseline.measurements,
                #[trigger] current.measurements[k],
                l,
            ) ==> current.measurements[k].unit == baseline.measurements[l].unit,
    ensures
        current.lane != baseline.lane ==> text == "comparing lane "@ + current.lane
            + " against baseline lane "@ + baseline.lane
            + " \u{2014} two lanes are two measurements"@,
        current.lane == baseline.lane && (current.os != baseline.os || current.arch
            != baseline.arch) ==> text == "comparing "@ + current.os + "/"@ + current.arch
            + " against a "@ + baseline.os + "/"@ + baseline.arch
            + " baseline \u{2014} cross-platform latency deltas are not evidence of anything"@,
        current.lane == baseline.lane && current.os == baseline.os && current.arch == baseline.arch
            ==> text == current.measurements[i].name + ": baseline is in "@
            + baseline.measurements[j].unit + " and the current run in "@
            + current.measurements[i].unit
            + " \u{2014} raw numbers across units are not comparable; re-record the baseline"@,
{
    let base = baseline.measurements;
    let cur = current.measurements;
    if current.lane == baseline.lane && current.os == baseline.os && current.arch == baseline.arch {
        law_a_measurement_is_held_against_its_first_baseline(base, cur[i], j);
        let at = choose|at: int| #[trigger]
            first_clash(base, cur, at) && text == clash_text(base, cur[at]);
        if at < i {
            if exists|l: int| stands_first(base, cur[at], l) {
                let l = choose|l: int| stands_first(base, cur[at], l);
                law_a_measurement_is_held_against_its_first_baseline(base, cur[at], l);
            } else {
                lemma_no_first(base, cur[at]);
                law_a_series_on_one_side_alone(base, cur[at]);
            }
        }
        assert(at == i);
        lemma_counterpart_is_first(base, cur[i], j);
    }
}

/// A list without a first measurement of a series has none of it.
proof fn lemma_no_first(list: Seq<MeasurementView>, m: MeasurementView)
    requires
        forall|l: int| !stands_first(list, m, l),
    ensures
        forall|k: int|
            0 <= k < list.len() ==> !((#[trigger] list[k]).name == m.name && list[k].statistic
                == m.statistic),
{
    assert forall|k: int| 0 <= k < list.len() implies !((#[trigger] list[k]).name == m.name
        && list[k].statistic == m.statistic) by {
        lemma_none_up_to(list, m, k + 1);
    }
}

proof fn lemma_none_up_to(list: Seq<MeasurementView>, m: MeasurementView, n: int)
    requires
        0 <= n <= list.len(),
        forall|l: int| !stands_first(list, m, l),
    ensures
        forall|k: int|
            0 <= k < n ==> !((#[trigger] list[k]).name == m.name && list[k].statistic
                == m.statistic),
    decreases n,
{
    if n > 0 {
        lemma_none_up_to(list, m, n - 1);
        assert(!stands_first(list, m, n - 1));
    }
}

} // verus!
