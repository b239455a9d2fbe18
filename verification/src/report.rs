//! The machine-readable result of a run: what was measured, how much of it,
//! against which budget, and whether it is met. A report records where it ran and
//! leaves the judgement about the machine to whoever compares two of them.
use vstd::prelude::*;
use vstd::string::*;

use crate::stats::Summary;
use crate::text::{decimal, push_u64};

verus! {

/// Bumped when a field changes meaning.
pub const SCHEMA: u32 = 1;

/// The texts of a list of strings.
pub open spec fn texts(list: Seq<String>) -> Seq<Seq<char>> {
    list.map_values(|s: String| s@)
}

/// The text of an optional string.
pub open spec fn optional_text(s: Option<String>) -> Option<Seq<char>> {
    match s {
        Some(s) => Some(s@),
        None => None,
    }
}

/// Appending to a list appends to its texts.
pub broadcast proof fn lemma_texts_push(list: Seq<String>, s: String)
    ensures
        #[trigger] texts(list.push(s)) == texts(list).push(s@),
{
    assert(texts(list.push(s)) =~= texts(list).push(s@));
}

/// A budget and the direction that satisfies it.
#[derive(Clone, Copy, Debug, PartialEq, Eq, Structural)]
pub enum Budget {
    /// Latencies and resource growth: at or under the limit.
    AtMost(u64),
    /// Throughput: at or above the floor.
    AtLeast(u64),
}

impl Budget {
    /// Whether a value satisfies this budget.
    pub open spec fn met(self, value: u64) -> bool {
        match self {
            Budget::AtMost(limit) => value <= limit,
            Budget::AtLeast(floor) => value >= floor,
        }
    }

    /// Whether a value satisfies this budget.
    pub fn met_by(self, value: u64) -> (met: bool)
        ensures
            met == self.met(value),
    {
        match self {
            Budget::AtMost(limit) => value <= limit,
            Budget::AtLeast(floor) => value >= floor,
        }
    }

    /// The number that the budget holds a value to.
    pub fn limit(self) -> (limit: u64)
        ensures
            self == Budget::AtMost(limit) || self == Budget::AtLeast(limit),
    {
        match self {
            Budget::AtMost(value) => value,
            Budget::AtLeast(value) => value,
        }
    }

    /// Whether a larger number is a better one, for this budget.
    pub fn higher_is_better(self) -> (higher: bool)
        ensures
            higher == (self is AtLeast),
    {
        matches!(self, Budget::AtLeast(_))
    }
}

/// What a measurement's budget says of its value.
#[derive(Clone, Copy, Debug, PartialEq, Eq, Structural)]
pub enum Verdict {
    /// Inside the budget on this machine.
    Met,
    /// Outside it.
    Exceeded,
    /// Measured, with no budget to hold it to.
    Unbudgeted,
}

/// What a budget says of a value.
pub open spec fn verdict_of(value: u64, budget: Option<Budget>) -> Verdict {
    match budget {
        Some(b) => if b.met(value) {
            Verdict::Met
        } else {
            Verdict::Exceeded
        },
        None => Verdict::Unbudgeted,
    }
}

/// One number of a report, with what it is held to.
#[derive(Clone, Debug)]
pub struct Measurement {
    pub name: String,
    pub unit: String,
    /// The number that the budget is checked against and that two runs are
    /// compared by.
    pub value: u64,
    /// Which statistic `value` is, when it came from a distribution.
    pub statistic: Option<String>,
    pub distribution: Option<Summary>,
    pub budget: Option<Budget>,
    pub verdict: Verdict,
    pub note: Option<String>,
}

/// A measurement's contents.
pub struct MeasurementView {
    pub name: Seq<char>,
    pub unit: Seq<char>,
    pub value: u64,
    pub statistic: Option<Seq<char>>,
    pub distribution: Option<Summary>,
    pub budget: Option<Budget>,
    pub verdict: Verdict,
    pub note: Option<Seq<char>>,
}

impl View for Measurement {
    type V = MeasurementView;

    open spec fn view(&self) -> MeasurementView {
        MeasurementView {
            name: self.name@,
            unit: self.unit@,
            value: self.value,
            statistic: optional_text(self.statistic),
            distribution: self.distribution,
            budget: self.budget,
            verdict: self.verdict,
            note: optional_text(self.note),
        }
    }
}

/// A bare number under a budget.
pub open spec fn scalar_view(
    name: Seq<char>,
    unit: Seq<char>,
    value: u64,
    budget: Option<Budget>,
) -> MeasurementView {
    MeasurementView {
        name,
        unit,
        value,
        statistic: None,
        distribution: None,
        budget,
        verdict: verdict_of(value, budget),
        note: None,
    }
}

/// A bare number under a budget, with a remark.
pub open spec fn noted_view(
    name: Seq<char>,
    unit: Seq<char>,
    value: u64,
    budget: Option<Budget>,
    note: Seq<char>,
) -> MeasurementView {
    MeasurementView { note: Some(note), ..scalar_view(name, unit, value, budget) }
}

impl Measurement {
    /// A measurement drawn from a distribution, judged at its P99.
    pub fn from_p99(name: &str, unit: &str, summary: Summary, budget: Option<Budget>) -> (m: Self)
        ensures
            m@ == (MeasurementView {
                statistic: Some("p99"@),
                distribution: Some(summary),
                ..scalar_view(name@, unit@, summary.p99, budget)
            }),
    {
        Measurement::scalar(name, unit, summary.p99, budget).with_statistic(
            "p99",
        ).with_distribution(summary)
    }

    /// A bare number, judged against its budget.
    pub fn scalar(name: &str, unit: &str, value: u64, budget: Option<Budget>) -> (m: Self)
        ensures
            m@ == scalar_view(name@, unit@, value, budget),
    {
        let verdict = match budget {
            Some(b) => if b.met_by(value) {
                Verdict::Met
            } else {
                Verdict::Exceeded
            },
            None => Verdict::Unbudgeted,
        };
        Measurement {
            name: name.to_owned(),
            unit: unit.to_owned(),
            value,
            statistic: None,
            distribution: None,
            budget,
            verdict,
            note: None,
        }
    }

    /// The measurement, with the name of its statistic.
    pub fn with_statistic(self, statistic: &str) -> (m: Self)
        ensures
            m@ == (MeasurementView { statistic: Some(statistic@), ..self@ }),
    {
        let mut m = self;
        m.statistic = Some(statistic.to_owned());
        m
    }

    /// The measurement, with the distribution it came from.
    pub fn with_distribution(self, summary: Summary) -> (m: Self)
        ensures
            m@ == (MeasurementView { distribution: Some(summary), ..self@ }),
    {
        let mut m = self;
        m.distribution = Some(summary);
        m
    }

    /// The measurement, with a remark.
    pub fn with_note(self, note: &str) -> (m: Self)
        ensures
            m@ == (MeasurementView { note: Some(note@), ..self@ }),
    {
        let mut m = self;
        m.note = Some(note.to_owned());
        m
    }
}

/// Where and when a run took place.
#[derive(Clone, Debug)]
pub struct Origin {
    pub os: String,
    pub arch: String,
    pub host: String,
    pub captured_unix_s: u64,
}

/// The result of one lane.
#[derive(Clone, Debug)]
pub struct Report {
    pub schema: u32,
    /// The lane that produced this.
    pub lane: String,
    /// What was streaming: the generated stream, or a named recording.
    pub workload: String,
    pub os: String,
    pub arch: String,
    /// Where this ran, as far as the probe can tell.
    pub host: String,
    /// Wall-clock seconds, for provenance only.
    pub captured_unix_s: u64,
    /// What a reader needs in order not to misread the numbers.
    pub notes: Vec<String>,
    pub measurements: Vec<Measurement>,
}

/// A report's contents.
pub struct ReportView {
    pub schema: u32,
    pub lane: Seq<char>,
    pub workload: Seq<char>,
    pub os: Seq<char>,
    pub arch: Seq<char>,
    pub host: Seq<char>,
    pub captured_unix_s: u64,
    pub notes: Seq<Seq<char>>,
    pub measurements: Seq<MeasurementView>,
}

/// The contents of a list of measurements.
pub open spec fn rows(list: Seq<Measurement>) -> Seq<MeasurementView> {
    list.map_values(|m: Measurement| m@)
}

/// Appending to a list of measurements appends to its contents.
pub broadcast proof fn lemma_rows_push(list: Seq<Measurement>, m: Measurement)
    ensures
        #[trigger] rows(list.push(m)) == rows(list).push(m@),
{
    assert(rows(list.push(m)) =~= rows(list).push(m@));
}

impl View for Report {
    type V = ReportView;

    open spec fn view(&self) -> ReportView {
        ReportView {
            schema: self.schema,
            lane: self.lane@,
            workload: self.workload@,
            os: self.os@,
            arch: self.arch@,
            host: self.host@,
            captured_unix_s: self.captured_unix_s,
            notes: texts(self.notes@),
            measurements: rows(self.measurements@),
        }
    }
}

/// A report with nothing measured yet.
pub open spec fn empty_report(lane: Seq<char>, workload: Seq<char>, origin: Origin) -> ReportView {
    ReportView {
        schema: SCHEMA,
        lane,
        workload,
        os: origin.os@,
        arch: origin.arch@,
        host: origin.host@,
        captured_unix_s: origin.captured_unix_s,
        notes: Seq::empty(),
        measurements: Seq::empty(),
    }
}

impl Report {
    /// A report with nothing measured yet.
    pub fn new(lane: &str, workload: &str, origin: &Origin) -> (report: Self)
        ensures
            report@ == empty_report(lane@, workload@, *origin),
    {
        let report = Report {
            schema: SCHEMA,
            lane: lane.to_owned(),
            workload: workload.to_owned(),
            os: origin.os.clone(),
            arch: origin.arch.clone(),
            host: origin.host.clone(),
            captured_unix_s: origin.captured_unix_s,
            notes: Vec::new(),
            measurements: Vec::new(),
        };
        assert(report@.notes =~= Seq::empty());
        assert(report@.measurements =~= Seq::empty());
        report
    }

    /// Add a remark.
    pub fn note(&mut self, note: &str)
        ensures
            final(self)@ == (ReportView { notes: old(self)@.notes.push(note@), ..old(self)@ }),
    {
        broadcast use lemma_texts_push;

        self.notes.push(note.to_owned());
    }

    /// Add a measurement.
    pub fn add(&mut self, measurement: Measurement)
        ensures
            final(self)@ == (ReportView {
                measurements: old(self)@.measurements.push(measurement@),
                ..old(self)@
            }),
    {
        broadcast use lemma_rows_push;

        self.measurements.push(measurement);
    }

    /// Every measurement that missed its budget, in the order of the report.
    pub fn exceeded(&self) -> (missed: Vec<&Measurement>)
        ensures
            missed@.map_values(|m: &Measurement| *m) == self.measurements@.filter(
                |m: Measurement| m.verdict == Verdict::Exceeded,
            ),
    {
        let ghost over = |m: Measurement| m.verdict == Verdict::Exceeded;
        let ghost plain = |m: &Measurement| *m;
        let mut missed: Vec<&Measurement> = Vec::new();
        let mut i: usize = 0;
        proof {
            reveal(Seq::filter);
            assert(missed@.map_values(plain) =~= self.measurements@.take(0).filter(over));
        }
        while i < self.measurements.len()
            invariant
                i <= self.measurements@.len(),
                over == (|m: Measurement| m.verdict == Verdict::Exceeded),
                plain == (|m: &Measurement| *m),
                missed@.map_values(plain) == self.measurements@.take(i as int).filter(over),
            decreases self.measurements@.len() - i,
        {
            let ghost before = missed@;
            proof {
                reveal(Seq::filter);
                assert(self.measurements@.take(i + 1).drop_last() =~= self.measurements@.take(
                    i as int,
                ));
            }
            if self.measurements[i].verdict == Verdict::Exceeded {
                missed.push(&self.measurements[i]);
                assert(missed@.map_values(plain) =~= before.map_values(plain).push(
                    self.measurements@[i as int],
                ));
            }
            i += 1;
        }
        assert(self.measurements@.take(i as int) =~= self.measurements@);
        missed
    }
}

/// The refusal of a report written under another schema.
pub open spec fn schema_refusal(path: Seq<char>, schema: u32) -> Seq<char> {
    path + ": report schema "@ + decimal(schema as nat)
        + " \u{2014} this build reads schema 1, and two schemas are two different measurements"@
}

/// Accept a report read from `path`, unless it was written under another schema.
pub fn accept_report(path: &str, report: Report) -> (r: Result<Report, String>)
    ensures
        match r {
            Ok(accepted) => report.schema == SCHEMA && accepted == report,
            Err(text) => report.schema != SCHEMA && text@ == schema_refusal(path@, report.schema),
        },
{
    if report.schema != SCHEMA {
        let mut text = path.to_owned();
        text.append(": report schema ");
        push_u64(&mut text, report.schema as u64);
        text.append(
            " \u{2014} this build reads schema 1, and two schemas are two different measurements",
        );
        return Err(text);
    }
    Ok(report)
}

/// What kind of machine a run took place on.
pub open spec fn host_text(actions: bool, runner: Option<Seq<char>>, ci: bool) -> Seq<char> {
    if actions {
        match runner {
            Some(name) => "ci-runner ("@ + name + ")"@,
            None => "ci-runner (unnamed)"@,
        }
    } else if ci {
        "ci-runner (unidentified)"@
    } else {
        "unidentified machine"@
    }
}

/// What kind of machine this is, as far as the environment admits: whether it
/// says that it is an Actions runner, that runner's name where it gives one,
/// and whether it says that it is some CI machine.
pub fn host_kind(actions: bool, runner: Option<&str>, ci: bool) -> (host: String)
    ensures
        host@ == host_text(
            actions,
            match runner {
                Some(name) => Some(name@),
                None => None,
            },
            ci,
        ),
{
    if actions {
        match runner {
            Some(name) => {
                let mut host = "ci-runner (".to_owned();
                host.append(name);
                host.append(")");
                host
            },
            None => "ci-runner (unnamed)".to_owned(),
        }
    } else if ci {
        "ci-runner (unidentified)".to_owned()
    } else {
        "unidentified machine".to_owned()
    }
}

/// A budget that reads the other way round judges the other way round: beyond
/// the limit itself, a value meets exactly one of the two directions.
pub proof fn law_directions_are_opposite(limit: u64, value: u64)
    ensures
        value != limit ==> (Budget::AtMost(limit).met(value) <==> !Budget::AtLeast(limit).met(
            value,
        )),
        Budget::AtMost(limit).met(limit) && Budget::AtLeast(limit).met(limit),
{
}

/// Whether a measurement carries what its budget says of its value.
pub open spec fn judged(m: MeasurementView) -> bool {
    m.verdict == verdict_of(m.value, m.budget)
}

/// Whether every measurement of a list is judged.
pub open spec fn all_judged(list: Seq<MeasurementView>) -> bool {
    forall|i: int| 0 <= i < list.len() ==> judged(#[trigger] list[i])
}

/// Whether a measurement of a list missed its budget.
pub open spec fn any_exceeded(list: Seq<MeasurementView>) -> bool {
    exists|i: int| 0 <= i < list.len() && (#[trigger] list[i]).verdict is Exceeded
}

/// A budget is met or exceeded, never left unjudged.
pub proof fn law_a_budget_is_met_or_exceeded(m: MeasurementView)
    requires
        judged(m),
    ensures
        m.budget matches Some(b) ==> m.verdict == if b.met(m.value) {
            Verdict::Met
        } else {
            Verdict::Exceeded
        },
        m.budget is None <==> m.verdict is Unbudgeted,
{
}

/// A row says its value and what its budget makes of it: a limit is met at or
/// under it, a floor at or above it, and without a budget nothing is judged.
pub proof fn law_a_row_is_judged_by_its_value(
    name: Seq<char>,
    unit: Seq<char>,
    value: u64,
    bound: u64,
    note: Seq<char>,
)
    ensures
        scalar_view(name, unit, value, None).verdict is Unbudgeted,
        scalar_view(name, unit, value, Some(Budget::AtMost(bound))).verdict is Met <==> value
            <= bound,
        scalar_view(name, unit, value, Some(Budget::AtMost(bound))).verdict is Exceeded <==> value
            > bound,
        scalar_view(name, unit, value, Some(Budget::AtLeast(bound))).verdict is Met <==> value
            >= bound,
        scalar_view(name, unit, value, Some(Budget::AtLeast(bound))).verdict is Exceeded <==> value
            < bound,
        forall|budget: Option<Budget>|
            {
                let row = #[trigger] scalar_view(name, unit, value, budget);
                &&& row.name == name && row.unit == unit && row.value == value
                &&& row.budget == budget && row.statistic is None && row.distribution is None
                &&& row.note is None
            },
        forall|budget: Option<Budget>|
            {
                let row = #[trigger] noted_view(name, unit, value, budget, note);
                &&& row.note == Some(note)
                &&& row.name == name && row.unit == unit && row.value == value
                &&& row.budget == budget && row.verdict == scalar_view(
                    name,
                    unit,
                    value,
                    budget,
                ).verdict
            },
{
}

} // verus!
