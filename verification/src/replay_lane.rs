//! The replay lane around a plan: judging each tick of the run, folding the
//! verification into notes and measurements, and the report.
use vstd::prelude::*;
use vstd::string::*;

use crate::double::{human_bytes, human_bytes_text, human_ns, human_ns_text};
use crate::lane::{
    descriptor_growth, descriptor_row, memory_growth, memory_row, unassessed, unassessed_note,
    Wording,
};
use crate::monitor::{assessment_from, Assessment, Sample};
use crate::recorded::RecordedFindings;
use crate::replay::{span, volume, Mode, Plan, OVERRUN_GRACE, STALL};
use crate::report::{
    all_judged, any_exceeded, empty_report, judged, noted_view, optional_text, rows, scalar_view,
    texts, Budget, Measurement, MeasurementView, Origin, Report, ReportView,
};
use crate::session::{elapsed, is_over, watch_after, EndWatch, Pump, Step};
use crate::soak::integrity_rows;
use crate::text::{debug, debug_text, decimal, push_u64, push_usize};
use crate::verify::Findings;

verus! {

/// What a run came to.
#[derive(Debug)]
pub struct Outcome {
    pub bytes_read: u64,
    pub elapsed_ns: u64,
    pub scheduled_ns: u64,
    pub faults: u64,
    pub monitor: Option<Assessment>,
}

/// Where a run stands when a tick is judged.
#[derive(Clone, Copy, Debug)]
pub struct Progress {
    /// Readings of the shared clock: when the run started, and now.
    pub started_ns: u64,
    pub now_ns: u64,
    pub scheduled_ns: u64,
    /// Whether the plan's own expectation is met: every byte matched, or every
    /// line and checkpoint accounted for.
    pub done: bool,
}

/// What is said of a replay that went silent.
pub open spec fn stalled_text(p: Progress) -> Seq<char> {
    "nothing arrived for 120 s, "@ + human_ns_text(elapsed(p.started_ns, p.now_ns)) + " into a "@
        + human_ns_text(p.scheduled_ns as nat) + " plan \u{2014} the replay stalled"@
}

/// What is said of a replay that outlasted its schedule.
pub open spec fn overrun_text(p: Progress) -> Seq<char> {
    "the replay was still running "@ + human_ns_text(
        (p.now_ns - p.started_ns - p.scheduled_ns) as nat,
    ) + " past its schedule"@
}

/// Whether a replay is past its schedule and the grace after it.
pub open spec fn overran(p: Progress) -> bool {
    p.now_ns > p.started_ns + p.scheduled_ns + OVERRUN_GRACE
}

/// Whether a tick ends the replay well.
pub open spec fn finishes(w: EndWatch, tick: Pump, p: Progress) -> bool {
    match tick {
        Pump::Data { .. } => p.done,
        Pump::Ended => true,
        Pump::Quiet { exited } => is_over(w, exited, p.now_ns),
    }
}

/// Judge one tick of the replay: data that was already checked, a quiet tick,
/// or the end of the stream.
pub fn step(watch: &mut EndWatch, tick: &Pump, p: Progress) -> (s: Step)
    ensures
        *final(watch) == watch_after(*old(watch), *tick, p.now_ns),
        ({
            let silent = tick is Quiet && elapsed(old(watch).last_data, p.now_ns) >= STALL;
            match s {
                Step::Finish => finishes(*old(watch), *tick, p),
                Step::Fail(text) => {
                    &&& !finishes(*old(watch), *tick, p)
                    &&& silent || overran(p)
                    &&& text@ == if silent {
                        stalled_text(p)
                    } else {
                        overrun_text(p)
                    }
                },
                Step::Continue => !finishes(*old(watch), *tick, p) && !silent && !overran(p),
            }
        }),
{
    match tick {
        Pump::Data { .. } => {
            watch.data(p.now_ns);
            if p.done {
                return Step::Finish;
            }
        },
        Pump::Ended => {
            return Step::Finish;
        },
        Pump::Quiet { exited } => {
            if watch.ended(*exited, p.now_ns) {
                return Step::Finish;
            }
            if watch.since_data(p.now_ns) >= STALL {
                let mut text = "nothing arrived for 120 s, ".to_owned();
                text.append(human_ns(p.now_ns.saturating_sub(p.started_ns)).as_str());
                text.append(" into a ");
                text.append(human_ns(p.scheduled_ns).as_str());
                text.append(" plan \u{2014} the replay stalled");
                return Step::Fail(text);
            }
        },
    }
    if p.now_ns as u128 > p.started_ns as u128 + p.scheduled_ns as u128 + OVERRUN_GRACE as u128 {
        let mut text = "the replay was still running ".to_owned();
        text.append(human_ns(p.now_ns - p.started_ns - p.scheduled_ns).as_str());
        text.append(" past its schedule");
        return Step::Fail(text);
    }
    Step::Continue
}

/// Recorded content needs a terminal that pipes rather than re-renders.
pub fn check_mode(mode: Mode, rerenders: bool) -> (r: Result<(), String>)
    ensures
        r is Err <==> mode == Mode::Recorded && rerenders,
        r matches Err(text) ==> text@
            == "recorded-content replay needs a terminal that pipes rather than re-renders; on this platform run the generated-content mode"@,
{
    if mode == Mode::Recorded && rerenders {
        Err(
            "recorded-content replay needs a terminal that pipes rather than re-renders; on this platform run the generated-content mode".to_owned(),
        )
    } else {
        Ok(())
    }
}

/// What the verification of a replay came to.
#[derive(Debug)]
pub struct Conclusion {
    pub notes: Vec<String>,
    pub measurements: Vec<Measurement>,
    pub faults: u64,
}

/// The remarks on a byte-for-byte comparison.
pub open spec fn recorded_notes(f: RecordedFindings) -> Seq<Seq<char>> {
    let first = decimal(f.matched as nat) + " of "@ + decimal(f.expected as nat)
        + " bytes matched byte-for-byte"@;
    match optional_text(f.divergence) {
        Some(divergence) => seq![first, divergence],
        None => seq![first],
    }
}

/// How many faults a byte-for-byte comparison counts for: one, or none.
pub open spec fn recorded_faults(f: RecordedFindings) -> u64 {
    if f.divergence is None && f.matched == f.expected {
        0
    } else {
        1
    }
}

/// The rows of a byte-for-byte comparison.
pub open spec fn recorded_rows(f: RecordedFindings) -> Seq<MeasurementView> {
    seq![
        noted_view(
            "byte_divergences"@,
            "divergences"@,
            recorded_faults(f),
            Some(Budget::AtMost(0)),
            "byte-for-byte comparison against the captured stream"@,
        ),
        scalar_view("bytes_matched"@, "bytes"@, f.matched, None),
    ]
}

/// Fold a byte-for-byte comparison.
pub fn conclude_recorded(findings: &RecordedFindings) -> (c: Conclusion)
    ensures
        texts(c.notes@) == recorded_notes(*findings),
        rows(c.measurements@) == recorded_rows(*findings),
        c.faults == recorded_faults(*findings),
{
    let mut first = String::new();
    push_u64(&mut first, findings.matched);
    assert(first@ =~= decimal(findings.matched as nat));
    first.append(" of ");
    push_u64(&mut first, findings.expected);
    first.append(" bytes matched byte-for-byte");
    let mut notes: Vec<String> = Vec::new();
    notes.push(first);
    match &findings.divergence {
        Some(divergence) => {
            notes.push(divergence.clone());
        },
        None => {},
    }
    assert(texts(notes@) =~= recorded_notes(*findings));
    let faults: u64 = if findings.clean() {
        0
    } else {
        1
    };
    let mut measurements: Vec<Measurement> = Vec::new();
    measurements.push(
        Measurement::scalar(
            "byte_divergences",
            "divergences",
            faults,
            Some(Budget::AtMost(0)),
        ).with_note("byte-for-byte comparison against the captured stream"),
    );
    measurements.push(Measurement::scalar("bytes_matched", "bytes", findings.matched, None));
    assert(rows(measurements@) =~= recorded_rows(*findings));
    Conclusion { notes, measurements, faults }
}

/// Fold the verification of a generated stream.
pub fn conclude_generated(findings: &Findings) -> (c: Conclusion)
    requires
        findings@.faults() <= u64::MAX,
    ensures
        texts(c.notes@) == seq![findings@.summary_text()] + findings@.detail,
        rows(c.measurements@) == integrity_rows(*findings),
        c.faults == findings@.faults(),
{
    broadcast use crate::report::lemma_texts_push;

    let mut notes: Vec<String> = Vec::new();
    notes.push(findings.summary());
    let ghost first = seq![findings@.summary_text()];
    let ghost all = texts(findings.detail@);
    let mut i: usize = 0;
    assert(texts(notes@) =~= first + all.take(0));
    while i < findings.detail.len()
        invariant
            i <= findings.detail@.len(),
            all == texts(findings.detail@),
            texts(notes@) == first + all.take(i as int),
        decreases findings.detail@.len() - i,
    {
        notes.push(findings.detail[i].clone());
        proof {
            assert(all.take(i + 1) =~= all.take(i as int).push(all[i as int]));
            assert(first + all.take(i as int).push(all[i as int]) =~= (first + all.take(
                i as int,
            )).push(all[i as int]));
        }
        i += 1;
    }
    assert(all.take(i as int) =~= all);
    let mut measurements: Vec<Measurement> = Vec::new();
    measurements.push(
        Measurement::scalar("lines_lost", "lines", findings.lines_lost, Some(Budget::AtMost(0))),
    );
    measurements.push(
        Measurement::scalar(
            "content_faults",
            "lines",
            findings.content_faults,
            Some(Budget::AtMost(0)),
        ),
    );
    measurements.push(
        Measurement::scalar(
            "checksum_faults",
            "checkpoints",
            findings.checksum_faults,
            Some(Budget::AtMost(0)),
        ),
    );
    assert(rows(measurements@) =~= integrity_rows(*findings));
    Conclusion { notes, measurements, faults: findings.faults() }
}

/// Texts in their `Debug` form, with commas between them.
pub open spec fn listed(list: Seq<Seq<char>>) -> Seq<char>
    decreases list.len(),
{
    if list.len() == 0 {
        Seq::empty()
    } else if list.len() == 1 {
        debug_text(list[0])
    } else {
        listed(list.drop_last()) + ", "@ + debug_text(list.last())
    }
}

/// A list of texts in its `Debug` form.
pub open spec fn list_text(list: Seq<Seq<char>>) -> Seq<char> {
    "["@ + listed(list) + "]"@
}

/// A list of texts in its `Debug` form.
pub fn debug_list(list: &Vec<String>) -> (text: String)
    ensures
        text@ == list_text(texts(list@)),
{
    let mut text = "[".to_owned();
    let ghost head = text@;
    let ghost all = texts(list@);
    let mut i: usize = 0;
    assert(head + listed(all.take(0)) =~= head);
    while i < list.len()
        invariant
            i <= list@.len(),
            all == texts(list@),
            text@ == head + listed(all.take(i as int)),
        decreases list@.len() - i,
    {
        let ghost before = listed(all.take(i as int));
        let ghost shown = debug_text(all[i as int]);
        assert(all.take(i + 1).drop_last() =~= all.take(i as int));
        if i > 0 {
            text.append(", ");
            text.append(debug(list[i].as_str()).as_str());
            assert(head + before + ", "@ + shown =~= head + (before + ", "@ + shown));
        } else {
            text.append(debug(list[i].as_str()).as_str());
            assert(head + before + shown =~= head + shown);
        }
        i += 1;
    }
    assert(all.take(i as int) =~= all);
    text.append("]");
    text
}

/// The low 64 bits of a duration, which are what is rendered of it.
pub open spec fn low_bits(ns: u128) -> nat {
    ns as nat % 0x1_0000_0000_0000_0000
}

fn low_word(ns: u128) -> (low: u64)
    ensures
        low == low_bits(ns),
{
    (ns % 0x1_0000_0000_0000_0000u128) as u64
}

/// What the lane says of its plan before it starts.
pub fn plan_text(plan: &Plan) -> (text: String)
    requires
        span(plan.entries@) <= u64::MAX,
        volume(plan.entries@) <= u64::MAX,
    ensures
        text@ == decimal(plan.entries@.len()) + " chunks, "@ + human_bytes_text(
            volume(plan.entries@),
        ) + " over "@ + human_ns_text(span(plan.entries@)) + " scheduled, sources "@ + list_text(
            texts(plan.sources@),
        ) + ", mode "@ + plan.mode.label() + ", idle gaps over "@ + human_ns_text(
            low_bits(plan.idle_threshold_ns),
        ) + " divided by "@ + decimal(plan.idle_divisor as nat),
{
    let mut text = String::new();
    push_usize(&mut text, plan.entries.len());
    assert(text@ =~= decimal(plan.entries@.len()));
    text.append(" chunks, ");
    text.append(human_bytes(plan.total_bytes()).as_str());
    text.append(" over ");
    text.append(human_ns(plan.scheduled_ns()).as_str());
    text.append(" scheduled, sources ");
    text.append(debug_list(&plan.sources).as_str());
    text.append(", mode ");
    text.append(plan.mode.name());
    text.append(", idle gaps over ");
    text.append(human_ns(low_word(plan.idle_threshold_ns)).as_str());
    text.append(" divided by ");
    push_u64(&mut text, plan.idle_divisor);
    text
}

/// The first remark of a replay report.
pub open spec fn source_note(plan: Plan) -> Seq<char> {
    "sources "@ + list_text(texts(plan.sources@)) + " looped to "@ + human_ns_text(
        span(plan.entries@),
    ) + "; idle gaps over "@ + human_ns_text(low_bits(plan.idle_threshold_ns)) + " divided by "@
        + decimal(plan.idle_divisor as nat) + "; content "@ + plan.mode.label()
}

/// The workload's name.
pub open spec fn workload_text(mode: Mode) -> Seq<char> {
    "bimodal-"@ + mode.label()
}

/// The workload's name.
pub fn workload_name(plan: &Plan) -> (name: String)
    ensures
        name@ == workload_text(plan.mode),
{
    let mut name = "bimodal-".to_owned();
    name.append(plan.mode.name());
    name
}

/// The rows on how much was read and how long it took.
pub open spec fn volume_rows(outcome: Outcome) -> Seq<MeasurementView> {
    seq![
        scalar_view("bytes_read"@, "bytes"@, outcome.bytes_read, None),
        scalar_view("elapsed"@, "ns"@, outcome.elapsed_ns, None),
        noted_view(
            "scheduled"@,
            "ns"@,
            outcome.scheduled_ns,
            None,
            "how far elapsed runs past scheduled is the cost of performing the pacing, not a property of the workload"@,
        ),
    ]
}

/// The rows on resource use, where there was a steady state.
pub open spec fn resource_rows(monitor: Option<Assessment>, handles: bool) -> Seq<MeasurementView> {
    match monitor {
        Some(a) => seq![
            descriptor_row(a, handles, Wording::Short),
            memory_row(a, Wording::Short),
        ],
        None => Seq::empty(),
    }
}

/// The whole report of a replay.
pub open spec fn replay_report(
    plan: Plan,
    outcome: Outcome,
    conclusion: Conclusion,
    origin: Origin,
    handles: bool,
) -> ReportView {
    let noted = seq![source_note(plan)] + texts(conclusion.notes@);
    ReportView {
        notes: if outcome.monitor is None {
            noted.push(unassessed_note())
        } else {
            noted
        },
        measurements: rows(conclusion.measurements@) + volume_rows(outcome) + resource_rows(
            outcome.monitor,
            handles,
        ),
        ..empty_report("replay"@, workload_text(plan.mode), origin)
    }
}

/// Fold a replay into a report.
pub fn build_report(
    plan: &Plan,
    outcome: &Outcome,
    conclusion: Conclusion,
    origin: &Origin,
    handles: bool,
) -> (report: Report)
    requires
        span(plan.entries@) <= u64::MAX,
    ensures
        report@ == replay_report(*plan, *outcome, conclusion, *origin, handles),
{
    let workload = workload_name(plan);
    let mut report = Report::new("replay", workload.as_str(), origin);
    let mut note = "sources ".to_owned();
    note.append(debug_list(&plan.sources).as_str());
    note.append(" looped to ");
    note.append(human_ns(plan.scheduled_ns()).as_str());
    note.append("; idle gaps over ");
    note.append(human_ns(low_word(plan.idle_threshold_ns)).as_str());
    note.append(" divided by ");
    push_u64(&mut note, plan.idle_divisor);
    note.append("; content ");
    note.append(plan.mode.name());
    report.note(note.as_str());
    let ghost base = empty_report("replay"@, workload@, *origin);
    let ghost first = seq![source_note(*plan)];
    let ghost remarks = texts(conclusion.notes@);
    let ghost judged = rows(conclusion.measurements@);
    proof {
        assert(report@.notes =~= first + remarks.take(0));
    }
    let mut i: usize = 0;
    while i < conclusion.notes.len()
        invariant
            i <= conclusion.notes@.len(),
            remarks == texts(conclusion.notes@),
            report@ == (ReportView { notes: first + remarks.take(i as int), ..base }),
        decreases conclusion.notes@.len() - i,
    {
        report.note(conclusion.notes[i].as_str());
        proof {
            assert(remarks.take(i + 1) =~= remarks.take(i as int).push(remarks[i as int]));
            assert(first + remarks.take(i as int).push(remarks[i as int]) =~= (first + remarks.take(
                i as int,
            )).push(remarks[i as int]));
        }
        i += 1;
    }
    proof {
        assert(remarks.take(i as int) =~= remarks);
        assert(report@.measurements =~= judged.take(0));
    }
    let mut measurements = conclusion.measurements;
    let mut k: usize = 0;
    let n: usize = measurements.len();
    while k < n
        invariant
            k <= n,
            n == judged.len(),
            rows(measurements@) == judged.skip(k as int),
            measurements@.len() == n - k,
            report@ == (ReportView {
                notes: first + remarks,
                measurements: judged.take(k as int),
                ..base
            }),
        decreases n - k,
    {
        let ghost before = measurements@;
        let m = measurements.remove(0);
        proof {
            assert(rows(before)[0] == m@);
            assert(judged[k as int] == m@);
            assert(rows(measurements@) =~= rows(before).skip(1));
            assert(judged.skip(k as int).skip(1) =~= judged.skip(k + 1));
            assert(judged.take(k + 1) =~= judged.take(k as int).push(judged[k as int]));
        }
        report.add(m);
        k += 1;
    }
    assert(judged.take(k as int) =~= judged);
    report.add(Measurement::scalar("bytes_read", "bytes", outcome.bytes_read, None));
    report.add(Measurement::scalar("elapsed", "ns", outcome.elapsed_ns, None));
    report.add(
        Measurement::scalar("scheduled", "ns", outcome.scheduled_ns, None).with_note(
            "how far elapsed runs past scheduled is the cost of performing the pacing, not a property of the workload",
        ),
    );
    match &outcome.monitor {
        Some(a) => {
            report.add(descriptor_growth(a, handles, Wording::Short));
            report.add(memory_growth(a, Wording::Short));
        },
        None => {
            report.note(unassessed());
        },
    }
    proof {
        let whole = replay_report(*plan, *outcome, conclusion, *origin, handles);
        assert(report@.notes =~= whole.notes);
        assert(report@.measurements =~= whole.measurements);
    }
    report
}

/// A lane's own failure stays the headline over a failure to stop its sampler.
pub fn lane_failure(lane: &str, sampler: Option<&str>) -> (text: String)
    ensures
        text@ == match sampler {
            Some(failure) => lane@ + " (stopping the resource sampler also failed: "@ + failure@
                + ")"@,
            None => lane@,
        },
{
    let mut text = lane.to_owned();
    match sampler {
        Some(failure) => {
            text.append(" (stopping the resource sampler also failed: ");
            text.append(failure);
            text.append(")");
        },
        None => {},
    }
    text
}

/// What a report says of a load that ran beside its measurement.
pub open spec fn loaded(report: ReportView, load: Seq<Seq<char>>) -> ReportView {
    ReportView {
        workload: report.workload + "+bimodal-load"@,
        notes: report.notes.push(
            "measured while a generated-content replay of "@ + list_text(load)
                + " streamed in a second session"@,
        ),
        ..report
    }
}

/// Annotate a report with the load that ran beside its measurement.
pub fn note_load(report: &mut Report, load: &Vec<String>)
    ensures
        final(report)@ == loaded(old(report)@, texts(load@)),
{
    report.workload.append("+bimodal-load");
    let mut note = "measured while a generated-content replay of ".to_owned();
    note.append(debug_list(load).as_str());
    note.append(" streamed in a second session");
    report.note(note.as_str());
}

/// Every number of a replay report is judged where the conclusion's are, and a
/// budget is missed exactly when the conclusion missed one or the run outgrew
/// its resources. The resources are those of a series assessed from its sample
/// `i` on.
pub proof fn law_a_replay_report_says_what_the_run_found(
    plan: Plan,
    outcome: Outcome,
    conclusion: Conclusion,
    origin: Origin,
    handles: bool,
    samples: Seq<Sample>,
    i: int,
)
    requires
        all_judged(rows(conclusion.measurements@)),
        0 <= i < samples.len(),
        outcome.monitor matches Some(a) ==> a == assessment_from(samples, i),
    ensures
        ({
            let report = replay_report(plan, outcome, conclusion, origin, handles);
            &&& all_judged(report.measurements)
            &&& any_exceeded(report.measurements) <==> any_exceeded(rows(conclusion.measurements@))
                || (outcome.monitor matches Some(a) && (a.descriptors_leaked || a.rss_over_budget))
        }),
{
    let whole = replay_report(plan, outcome, conclusion, origin, handles).measurements;
    let first = rows(conclusion.measurements@);
    let n = first.len() as int;
    let more = volume_rows(outcome) + resource_rows(outcome.monitor, handles);
    assert(whole =~= first + more);
    assert forall|k: int| 0 <= k < whole.len() implies judged(#[trigger] whole[k]) by {
        if k < n {
            assert(whole[k] == first[k]);
        } else {
            assert(whole[k] == more[k - n]);
        }
    }
    if any_exceeded(first) {
        let k = choose|k: int| 0 <= k < first.len() && (#[trigger] first[k]).verdict is Exceeded;
        assert(whole[k] == first[k]);
    }
    match outcome.monitor {
        Some(a) => {
            assert(whole[n + 3] == descriptor_row(a, handles, Wording::Short));
            assert(whole[n + 4] == memory_row(a, Wording::Short));
        },
        None => {},
    }
    if any_exceeded(whole) {
        let k = choose|k: int| 0 <= k < whole.len() && (#[trigger] whole[k]).verdict is Exceeded;
        if k < n {
            assert(whole[k] == first[k]);
        } else {
            assert(whole[k] == more[k - n]);
            assert(k - n >= 3);
        }
    }
}

/// A conclusion misses a budget exactly when it counts a fault, for recorded
/// content and for generated content.
pub proof fn law_a_conclusion_misses_a_budget_on_a_fault(
    recorded: RecordedFindings,
    generated: Findings,
)
    ensures
        all_judged(recorded_rows(recorded)),
        any_exceeded(recorded_rows(recorded)) <==> recorded_faults(recorded) > 0,
        all_judged(integrity_rows(generated)),
        any_exceeded(integrity_rows(generated)) <==> generated@.faults() > 0,
{
    let byte_rows = recorded_rows(recorded);
    assert(byte_rows[0].value == recorded_faults(recorded));
    if any_exceeded(byte_rows) {
        let k = choose|k: int| 0 <= k < byte_rows.len() && (#[trigger] byte_rows[k]).verdict is Exceeded;
        assert(k == 0);
    }
    let line_rows = integrity_rows(generated);
    assert(line_rows[0].value == generated.lines_lost);
    assert(line_rows[1].value == generated.content_faults);
    assert(line_rows[2].value == generated.checksum_faults);
}

/// A tick ends a replay well when its data is the last that was promised, when the
/// stream ended, or when an exited child has been quiet for two seconds. A replay
/// may go on for a minute past its schedule.
pub proof fn law_when_a_replay_is_over(w: EndWatch, tick: Pump, p: Progress)
    ensures
        tick is Data ==> (finishes(w, tick, p) <==> p.done),
        tick is Ended ==> finishes(w, tick, p),
        tick matches Pump::Quiet { exited } ==> (finishes(w, tick, p) <==> exited == Some(true)
            && w.exit_quiet_since is Some && p.now_ns >= w.exit_quiet_since->0 + 2_000_000_000),
        overran(p) <==> p.now_ns - p.started_ns > p.scheduled_ns + 60_000_000_000,
{
}

/// A replay of recorded bytes is without fault exactly when all that was expected
/// came and nothing else did; the rows say so and how much came.
pub proof fn law_a_recorded_replay_is_faultless_when_whole(f: RecordedFindings)
    ensures
        recorded_faults(f) == 0 <==> f.divergence is None && f.matched == f.expected,
        recorded_faults(f) <= 1,
        recorded_rows(f).len() == 2,
        recorded_rows(f)[0].name == "byte_divergences"@,
        recorded_rows(f)[0].value == recorded_faults(f),
        recorded_rows(f)[0].budget == Some(Budget::AtMost(0)),
        recorded_rows(f)[1].name == "bytes_matched"@,
        recorded_rows(f)[1].value == f.matched,
        recorded_rows(f)[1].budget is None,
        recorded_notes(f).len() == if f.divergence is Some { 2int } else { 1int },
        f.divergence matches Some(text) ==> recorded_notes(f)[1] == text@,
{
}

/// The rows of a replay report are the conclusion's, then how much was read and
/// how long it took against how long it should, then the resources.
pub proof fn law_each_replay_row_carries_its_number(
    plan: Plan,
    outcome: Outcome,
    conclusion: Conclusion,
    origin: Origin,
    handles: bool,
)
    ensures
        ({
            let report = replay_report(plan, outcome, conclusion, origin, handles);
            let rows = report.measurements;
            let n = conclusion.measurements@.len() as int;
            &&& rows.len() == n + if outcome.monitor is Some { 5int } else { 3int }
            &&& forall|i: int| 0 <= i < n ==> #[trigger] rows[i] == conclusion.measurements@[i]@
            &&& rows[n].name == "bytes_read"@ && rows[n].value == outcome.bytes_read
            &&& rows[n + 1].name == "elapsed"@ && rows[n + 1].value == outcome.elapsed_ns
            &&& rows[n + 2].name == "scheduled"@ && rows[n + 2].value == outcome.scheduled_ns
            &&& outcome.monitor matches Some(a) ==> rows[n + 3] == descriptor_row(
                a,
                handles,
                Wording::Short,
            ) && rows[n + 4] == memory_row(a, Wording::Short)
            &&& report.notes.len() == 1 + conclusion.notes@.len() + if outcome.monitor is None {
                1int
            } else {
                0int
            }
            &&& forall|i: int|
                0 <= i < conclusion.notes@.len() ==> report.notes[i + 1]
                    == #[trigger] conclusion.notes@[i]@
        }),
{
}

/// A run that is over is finished whatever else holds. One that is not fails
/// exactly on a quiet tick two minutes or more after its last data, or a minute
/// and more past its time; silence is what it is then blamed on first.
pub proof fn law_a_run_fails_by_silence_or_overrun(
    watch: &mut EndWatch,
    tick: Pump,
    p: Progress,
    s: Step,
)
    requires
        call_ensures(step, (watch, &tick, p), s),
    ensures
        tick is Ended ==> s is Finish,
        tick is Data ==> (s is Finish <==> p.done),
        tick matches Pump::Quiet { exited } ==> (s is Finish <==> exited == Some(true) && old(
            watch,
        ).exit_quiet_since is Some && p.now_ns >= old(watch).exit_quiet_since->0 + 2_000_000_000),
        s is Fail <==> !(s is Finish) && (tick is Quiet && p.now_ns >= old(watch).last_data
            + 120_000_000_000 || p.now_ns - p.started_ns > p.scheduled_ns + 60_000_000_000),
        s matches Step::Fail(text) ==> text@ == if tick is Quiet && p.now_ns >= old(watch).last_data
            + 120_000_000_000 {
            stalled_text(p)
        } else {
            overrun_text(p)
        },
        tick is Data ==> final(watch).last_data == p.now_ns,
        !(tick is Data) ==> final(watch).last_data == old(watch).last_data,
{
}

/// A list of texts stands in brackets, in order, with a comma and a space between
/// two.
pub proof fn law_a_list_is_shown_in_order(list: Seq<Seq<char>>, text: Seq<char>)
    ensures
        list_text(Seq::empty()) == "["@ + "]"@,
        list_text(seq![text]) == "["@ + debug_text(text) + "]"@,
        list.len() > 0 ==> listed(list.push(text)) == listed(list) + ", "@ + debug_text(text),
{
    assert(list.push(text).drop_last() =~= list);
    assert("["@ + Seq::<char>::empty() =~= "["@);
}

} // verus!
