//! The endurance lane: stream continuously for a scripted duration and check
//! every line of it.
use vstd::prelude::*;
use vstd::string::*;

use crate::double::{human_bytes, human_bytes_text, human_ns, human_ns_text};
use crate::lane::{
    descriptor_growth, descriptor_row, memory_growth, memory_row, sustained, sustained_rate,
    unassessed, unassessed_note, Wording,
};
use crate::monitor::{assessment_from, Assessment, Sample, DEFAULT_INTERVAL, DEFAULT_WARMUP};
use crate::report::{
    all_judged, any_exceeded, empty_report, noted_view, scalar_view, texts, Budget, Measurement,
    MeasurementView, Origin, Report, ReportView,
};
use crate::session::{elapsed, is_over, watch_after, EndWatch, Pump, Step};
use crate::text::{decimal, push_u128, push_u64, push_usize};
use crate::verify::Findings;

verus! {

/// Longest the lane waits with nothing arriving, in nanoseconds.
pub const STALL: u64 = 30_000_000_000;

/// How long past its scheduled end the child gets, in nanoseconds.
pub const OVERRUN_GRACE: u64 = 60_000_000_000;

/// What a run is asked for. Times are in nanoseconds.
#[derive(Clone, Debug)]
pub struct Options {
    pub duration_ns: u128,
    pub lines_per_second: u64,
    pub line_bytes: usize,
    pub checksum_every: u64,
    pub monitor_out: Option<String>,
    pub monitor_interval_ns: u128,
    pub warmup_ns: u128,
}

impl Options {
    /// Half an hour at a thousand lines a second, in lines of `line_bytes`.
    pub fn standard(line_bytes: usize) -> (options: Self)
        ensures
            options.duration_ns == 1_800_000_000_000,
            options.lines_per_second == 1000,
            options.line_bytes == line_bytes,
            options.checksum_every == 1000,
            options.monitor_out is None,
            options.monitor_interval_ns == DEFAULT_INTERVAL,
            options.warmup_ns == DEFAULT_WARMUP,
    {
        Options {
            duration_ns: 1_800_000_000_000,
            lines_per_second: 1000,
            line_bytes,
            checksum_every: 1000,
            monitor_out: None,
            monitor_interval_ns: DEFAULT_INTERVAL,
            warmup_ns: DEFAULT_WARMUP,
        }
    }

    /// How many payload lines the run asks for: at least one.
    pub open spec fn line_total(&self) -> nat {
        let n = (self.duration_ns / 1_000_000_000) as nat * self.lines_per_second as nat;
        if n < 1 {
            1
        } else {
            n
        }
    }

    /// How many payload lines the run asks for.
    pub fn lines(&self) -> (n: u64)
        requires
            self.line_total() <= u64::MAX,
        ensures
            n == self.line_total(),
    {
        let seconds: u128 = self.duration_ns / 1_000_000_000;
        if seconds == 0 || self.lines_per_second == 0 {
            assert(seconds as nat * self.lines_per_second as nat == 0) by (nonlinear_arith)
                requires
                    seconds == 0 || self.lines_per_second == 0,
            ;
            return 1;
        }
        assert(seconds as nat * self.lines_per_second as nat >= seconds) by (nonlinear_arith)
            requires
                self.lines_per_second >= 1,
        ;
        assert(seconds as nat * self.lines_per_second as nat >= 1);
        seconds as u64 * self.lines_per_second
    }

    /// The scenario that produces the run.
    pub open spec fn scenario(&self) -> Seq<char> {
        "{\"name\":\"perf-soak\",\"steps\":[{\"generate\":"@ + decimal(self.line_total())
            + ",\"channel\":\"stdout\",\"line_bytes\":"@ + decimal(self.line_bytes as nat)
            + ",\"checksum_every\":"@ + decimal(self.checksum_every as nat)
            + ",\"line_interval_us\":"@ + decimal(
            if self.lines_per_second == 0 {
                0
            } else {
                1_000_000nat / self.lines_per_second as nat
            },
        ) + "},{\"exit\":0}]}"@
    }

    /// The scenario that produces the run.
    pub fn scenario_json(&self) -> (json: String)
        requires
            self.line_total() <= u64::MAX,
        ensures
            json@ == self.scenario(),
    {
        let interval_us: u64 = if self.lines_per_second == 0 {
            0
        } else {
            1_000_000 / self.lines_per_second
        };
        let mut json = "{\"name\":\"perf-soak\",\"steps\":[{\"generate\":".to_owned();
        push_u64(&mut json, self.lines());
        json.append(",\"channel\":\"stdout\",\"line_bytes\":");
        push_usize(&mut json, self.line_bytes);
        json.append(",\"checksum_every\":");
        push_u64(&mut json, self.checksum_every);
        json.append(",\"line_interval_us\":");
        push_u64(&mut json, interval_us);
        json.append("},{\"exit\":0}]}");
        json
    }

    /// What the lane says of its plan before it starts.
    pub fn plan_text(&self) -> (text: String)
        requires
            self.line_total() <= u64::MAX,
        ensures
            text@ == decimal(self.line_total()) + " lines of "@ + decimal(self.line_bytes as nat)
                + " bytes at "@ + decimal(self.lines_per_second as nat) + "/s over "@ + decimal(
                (self.duration_ns / 1_000_000_000) as nat,
            ) + " s, checksum every "@ + decimal(self.checksum_every as nat) + " lines"@,
    {
        let mut text = String::new();
        push_u64(&mut text, self.lines());
        assert(text@ =~= decimal(self.line_total()));
        text.append(" lines of ");
        push_usize(&mut text, self.line_bytes);
        text.append(" bytes at ");
        push_u64(&mut text, self.lines_per_second);
        text.append("/s over ");
        push_u128(&mut text, self.duration_ns / 1_000_000_000);
        text.append(" s, checksum every ");
        push_u64(&mut text, self.checksum_every);
        text.append(" lines");
        text
    }
}

/// What a run came to.
#[derive(Debug)]
pub struct Outcome {
    pub findings: Findings,
    pub bytes_read: u64,
    pub chunks_read: u64,
    pub elapsed_ns: u64,
    pub monitor: Option<Assessment>,
    pub teardown: String,
}

/// Where a run stands when a tick is judged.
#[derive(Clone, Copy, Debug)]
pub struct Progress {
    /// Readings of the shared clock: when the run started, and now.
    pub started_ns: u64,
    pub now_ns: u64,
    pub duration_ns: u128,
    /// Payload lines accounted for, and how many were asked for.
    pub accounted: u64,
    pub expected_lines: u64,
    pub bytes_read: u64,
    /// Whether everything promised is accounted for.
    pub done: bool,
}

/// What is said of a run that went silent.
pub open spec fn stalled_text(p: Progress) -> Seq<char> {
    "nothing arrived for 30 s, "@ + decimal(elapsed(p.started_ns, p.now_ns) / 1_000_000_000)
        + " s into the run \u{2014} the stream stalled after "@ + decimal(p.accounted as nat)
        + " lines and "@ + human_bytes_text(p.bytes_read as nat)
}

/// What is said of a run that outlasted its schedule.
pub open spec fn overrun_text(p: Progress) -> Seq<char> {
    "the child was still streaming 60 s past its scheduled end ("@ + decimal(p.accounted as nat)
        + " of "@ + decimal(p.expected_lines as nat)
        + " lines) \u{2014} pacing overran by more than the grace window"@
}

/// Whether a run is past its schedule and the grace after it.
pub open spec fn overran(p: Progress) -> bool {
    p.now_ns > p.started_ns + p.duration_ns + OVERRUN_GRACE
}

/// Whether a tick ends the run well.
pub open spec fn finishes(w: EndWatch, tick: Pump, p: Progress) -> bool {
    match tick {
        Pump::Data { .. } => p.done,
        Pump::Ended => true,
        Pump::Quiet { exited } => is_over(w, exited, p.now_ns),
    }
}

/// Judge one tick of the run: data that was already checked, a quiet tick, or
/// the end of the stream.
pub fn step(watch: &mut EndWatch, tick: &Pump, p: Progress) -> (s: Step)
    ensures
        *final(watch) == watch_after(*old(watch), *tick, p.now_ns),
        ({
            let silent = tick is Quiet && elapsed(old(watch).last_data, p.now_ns) >= STALL;
            match s {
                Step::Finish => finishes(*old(watch), *tick, p),
                Step::Fail(text) => {
                    &&& !finishes(*old(watch), *tick, p)
                    &&& silent || overran(p)
                    &&& text@ == if silent {
                        stalled_text(p)
                    } else {
                        overrun_text(p)
                    }
                },
                Step::Continue => !finishes(*old(watch), *tick, p) && !silent && !overran(p),
            }
        }),
{
    match tick {
        Pump::Data { .. } => {
            watch.data(p.now_ns);
            if p.done {
                return Step::Finish;
            }
        },
        Pump::Ended => {
            return Step::Finish;
        },
        Pump::Quiet { exited } => {
            if watch.ended(*exited, p.now_ns) {
                return Step::Finish;
            }
            if watch.since_data(p.now_ns) >= STALL {
                let mut text = "nothing arrived for 30 s, ".to_owned();
                push_u64(&mut text, p.now_ns.saturating_sub(p.started_ns) / 1_000_000_000);
                text.append(" s into the run \u{2014} the stream stalled after ");
                push_u64(&mut text, p.accounted);
                text.append(" lines and ");
                text.append(human_bytes(p.bytes_read).as_str());
                return Step::Fail(text);
            }
        },
    }
    let late: u128 = (p.now_ns as u128).saturating_sub(p.started_ns as u128 + OVERRUN_GRACE as u128);
    if late > p.duration_ns {
        let mut text = "the child was still streaming 60 s past its scheduled end (".to_owned();
        push_u64(&mut text, p.accounted);
        text.append(" of ");
        push_u64(&mut text, p.expected_lines);
        text.append(" lines) \u{2014} pacing overran by more than the grace window");
        return Step::Fail(text);
    }
    Step::Continue
}

/// What is said on a platform whose terminal re-renders.
pub open spec fn rerender_note() -> Seq<char> {
    "the terminal re-renders its child's output on this platform, so repeated and truncated lines are counted as repaints rather than faults; lines that never arrive are counted as lost on every platform"@
}

/// The rows that say whether the stream survived.
pub open spec fn integrity_rows(f: Findings) -> Seq<MeasurementView> {
    seq![
        scalar_view("lines_lost"@, "lines"@, f.lines_lost, Some(Budget::AtMost(0))),
        scalar_view("content_faults"@, "lines"@, f.content_faults, Some(Budget::AtMost(0))),
        scalar_view("checksum_faults"@, "checkpoints"@, f.checksum_faults, Some(Budget::AtMost(0))),
    ]
}

/// The rows that say how much and how fast.
pub open spec fn volume_rows(outcome: Outcome) -> Seq<MeasurementView> {
    seq![
        noted_view(
            "sustained_throughput"@,
            "lines_per_second"@,
            sustained(outcome.findings.lines_verified as nat, outcome.elapsed_ns as nat) as u64,
            None,
            "the rate this run actually achieved, which is the requested pacing rather than the path's capacity \u{2014} the throughput lane measures capacity"@,
        ),
        scalar_view("bytes_read"@, "bytes"@, outcome.bytes_read, None),
        scalar_view("elapsed"@, "ns"@, outcome.elapsed_ns, None),
    ]
}

/// The rows on resource use, where there was a steady state.
pub open spec fn resource_rows(monitor: Option<Assessment>, handles: bool) -> Seq<MeasurementView> {
    match monitor {
        Some(a) => seq![
            descriptor_row(a, handles, Wording::Full),
            memory_row(a, Wording::Full),
        ],
        None => Seq::empty(),
    }
}

/// The remarks of a soak report, in order.
pub open spec fn soak_notes(options: Options, outcome: Outcome, rerenders: bool) -> Seq<Seq<char>> {
    let first = outcome.findings@.summary_text() + " over "@ + human_ns_text(
        outcome.elapsed_ns as nat,
    ) + " at a requested "@ + decimal(options.lines_per_second as nat) + " lines/s"@;
    let platform = if rerenders {
        seq![first, rerender_note()]
    } else {
        seq![first]
    };
    let resources = if outcome.monitor is None {
        platform.push(unassessed_note())
    } else {
        platform
    };
    resources + outcome.findings@.detail
}

/// The whole report of a soak run.
pub open spec fn soak_report(
    lane: Seq<char>,
    workload: Seq<char>,
    options: Options,
    outcome: Outcome,
    origin: Origin,
    rerenders: bool,
) -> ReportView {
    ReportView {
        notes: soak_notes(options, outcome, rerenders),
        measurements: integrity_rows(outcome.findings) + volume_rows(outcome) + resource_rows(
            outcome.monitor,
            rerenders,
        ),
        ..empty_report(lane, workload, origin)
    }
}

/// Fold an outcome into the report shape every lane shares. Integrity is
/// expressed as budgets, so it travels the same road as the other numbers.
/// `rerenders` says whether the terminal re-renders its child's output; such a
/// platform counts handles rather than descriptors.
pub fn build_report(
    lane: &str,
    workload: &str,
    options: &Options,
    outcome: &Outcome,
    origin: &Origin,
    rerenders: bool,
) -> (report: Report)
    ensures
        report@ == soak_report(lane@, workload@, *options, *outcome, *origin, rerenders),
{
    let mut report = Report::new(lane, workload, origin);
    let findings = &outcome.findings;
    let mut first = findings.summary();
    first.append(" over ");
    first.append(human_ns(outcome.elapsed_ns).as_str());
    first.append(" at a requested ");
    push_u64(&mut first, options.lines_per_second);
    first.append(" lines/s");
    report.note(first.as_str());
    if rerenders {
        report.note(
            "the terminal re-renders its child's output on this platform, so repeated and truncated lines are counted as repaints rather than faults; lines that never arrive are counted as lost on every platform",
        );
    }
    report.add(
        Measurement::scalar("lines_lost", "lines", findings.lines_lost, Some(Budget::AtMost(0))),
    );
    report.add(
        Measurement::scalar(
            "content_faults",
            "lines",
            findings.content_faults,
            Some(Budget::AtMost(0)),
        ),
    );
    report.add(
        Measurement::scalar(
            "checksum_faults",
            "checkpoints",
            findings.checksum_faults,
            Some(Budget::AtMost(0)),
        ),
    );
    report.add(
        Measurement::scalar(
            "sustained_throughput",
            "lines_per_second",
            sustained_rate(findings.lines_verified, outcome.elapsed_ns),
            None,
        ).with_note(
            "the rate this run actually achieved, which is the requested pacing rather than the path's capacity \u{2014} the throughput lane measures capacity",
        ),
    );
    report.add(Measurement::scalar("bytes_read", "bytes", outcome.bytes_read, None));
    report.add(Measurement::scalar("elapsed", "ns", outcome.elapsed_ns, None));
    match &outcome.monitor {
        Some(a) => {
            report.add(descriptor_growth(a, rerenders, Wording::Full));
            report.add(memory_growth(a, Wording::Full));
        },
        None => {
            report.note(unassessed());
        },
    }
    let ghost notes = report@.notes;
    let ghost rows = report@.measurements;
    assert(rows =~= integrity_rows(outcome.findings) + volume_rows(*outcome) + resource_rows(
        outcome.monitor,
        rerenders,
    ));
    let mut i: usize = 0;
    assert(notes + texts(findings.detail@).take(0) =~= notes);
    while i < findings.detail.len()
        invariant
            i <= findings.detail@.len(),
            report@ == (ReportView {
                notes: notes + texts(findings.detail@).take(i as int),
                measurements: rows,
                ..empty_report(lane@, workload@, *origin)
            }),
        decreases findings.detail@.len() - i,
    {
        report.note(findings.detail[i].as_str());
        proof {
            let all = texts(findings.detail@);
            assert(all.take(i + 1) =~= all.take(i as int).push(all[i as int]));
            assert(notes + all.take(i as int).push(all[i as int]) =~= (notes + all.take(
                i as int,
            )).push(all[i as int]));
        }
        i += 1;
    }
    proof {
        assert(texts(findings.detail@).take(i as int) =~= texts(findings.detail@));
        assert(report@.notes =~= soak_notes(*options, *outcome, rerenders));
    }
    report
}

/// Every number of a soak report is judged, and a budget is missed exactly when
/// the stream did not survive intact or the run outgrew its resources. The
/// resources are those of a series assessed from its sample `i` on.
pub proof fn law_a_soak_report_says_what_the_run_found(
    lane: Seq<char>,
    workload: Seq<char>,
    options: Options,
    outcome: Outcome,
    origin: Origin,
    rerenders: bool,
    samples: Seq<Sample>,
    i: int,
)
    requires
        0 <= i < samples.len(),
        outcome.monitor matches Some(a) ==> a == assessment_from(samples, i),
    ensures
        ({
            let report = soak_report(lane, workload, options, outcome, origin, rerenders);
            &&& all_judged(report.measurements)
            &&& any_exceeded(report.measurements) <==> outcome.findings@.faults() > 0 || (
            outcome.monitor matches Some(a) && (a.descriptors_leaked || a.rss_over_budget))
        }),
{
    let rows = soak_report(lane, workload, options, outcome, origin, rerenders).measurements;
    assert(rows[0].value == outcome.findings.lines_lost);
    assert(rows[1].value == outcome.findings.content_faults);
    assert(rows[2].value == outcome.findings.checksum_faults);
    match outcome.monitor {
        Some(a) => {
            assert(rows.len() == 8);
            assert(rows[6] == descriptor_row(a, rerenders, Wording::Full));
            assert(rows[7] == memory_row(a, Wording::Full));
            if any_exceeded(rows) {
                let k = choose|k: int| 0 <= k < rows.len() && (#[trigger] rows[k]).verdict is Exceeded;
                assert(k < 3 || k == 6 || k == 7);
            }
        },
        None => {
            assert(rows.len() == 6);
            if any_exceeded(rows) {
                let k = choose|k: int| 0 <= k < rows.len() && (#[trigger] rows[k]).verdict is Exceeded;
                assert(k < 3);
            }
        },
    }
}

/// A run asks for a line for each line of each whole second, and for one where
/// that would be none.
pub proof fn law_a_run_asks_for_its_rate_over_its_time(options: Options, seconds: nat)
    requires
        seconds * 1_000_000_000 <= options.duration_ns < (seconds + 1) * 1_000_000_000,
    ensures
        seconds * options.lines_per_second > 0 ==> options.line_total() == seconds
            * options.lines_per_second,
        seconds * options.lines_per_second == 0 ==> options.line_total() == 1,
{
    assert(options.duration_ns / 1_000_000_000 == seconds);
}

/// A tick ends a run well when its data is the last that was promised, when the
/// stream ended, or when an exited child has been quiet for two seconds. A run
/// may go on for a minute past its schedule.
pub proof fn law_when_a_run_is_over(w: EndWatch, tick: Pump, p: Progress)
    ensures
        tick is Data ==> (finishes(w, tick, p) <==> p.done),
        tick is Ended ==> finishes(w, tick, p),
        tick matches Pump::Quiet { exited } ==> (finishes(w, tick, p) <==> exited == Some(true)
            && w.exit_quiet_since is Some && p.now_ns >= w.exit_quiet_since->0 + 2_000_000_000),
        overran(p) <==> p.now_ns - p.started_ns > p.duration_ns + 60_000_000_000,
{
}

/// Each row of a soak report carries the number that its name says.
pub proof fn law_each_soak_row_carries_its_number(
    lane: Seq<char>,
    workload: Seq<char>,
    options: Options,
    outcome: Outcome,
    origin: Origin,
    rerenders: bool,
)
    ensures
        ({
            let found = outcome.findings;
            let rows = soak_report(lane, workload, options, outcome, origin, rerenders).measurements;
            &&& rows.len() == if outcome.monitor is Some { 8int } else { 6int }
            &&& rows[0].name == "lines_lost"@ && rows[0].value == found.lines_lost
            &&& rows[1].name == "content_faults"@ && rows[1].value == found.content_faults
            &&& rows[2].name == "checksum_faults"@ && rows[2].value == found.checksum_faults
            &&& forall|i: int| 0 <= i < 3 ==> (#[trigger] rows[i]).budget == Some(Budget::AtMost(0))
            &&& rows[3].name == "sustained_throughput"@ && rows[3].value == sustained(
                found.lines_verified as nat,
                outcome.elapsed_ns as nat,
            ) as u64
            &&& rows[4].name == "bytes_read"@ && rows[4].value == outcome.bytes_read
            &&& rows[5].name == "elapsed"@ && rows[5].value == outcome.elapsed_ns
            &&& forall|i: int| 3 <= i < 6 ==> (#[trigger] rows[i]).budget is None
            &&& outcome.monitor matches Some(a) ==> rows[6] == descriptor_row(
                a,
                rerenders,
                Wording::Full,
            ) && rows[7] == memory_row(a, Wording::Full)
        }),
{
}

/// A run that is over is finished whatever else holds. One that is not fails
/// exactly on a quiet tick thirty seconds or more after its last data, or a minute
/// and more past its time; silence is what it is then blamed on first.
pub proof fn law_a_run_fails_by_silence_or_overrun(
    watch: &mut EndWatch,
    tick: Pump,
    p: Progress,
    s: Step,
)
    requires
        call_ensures(step, (watch, &tick, p), s),
    ensures
        tick is Ended ==> s is Finish,
        tick is Data ==> (s is Finish <==> p.done),
        tick matches Pump::Quiet { exited } ==> (s is Finish <==> exited == Some(true) && old(
            watch,
        ).exit_quiet_since is Some && p.now_ns >= old(watch).exit_quiet_since->0 + 2_000_000_000),
        s is Fail <==> !(s is Finish) && (tick is Quiet && p.now_ns >= old(watch).last_data
            + 30_000_000_000 || p.now_ns - p.started_ns > p.duration_ns + 60_000_000_000),
        s matches Step::Fail(text) ==> text@ == if tick is Quiet && p.now_ns >= old(watch).last_data
            + 30_000_000_000 {
            stalled_text(p)
        } else {
            overrun_text(p)
        },
        tick is Data ==> final(watch).last_data == p.now_ns,
        !(tick is Data) ==> final(watch).last_data == old(watch).last_data,
{
}

/// The scenario asks for as many lines as the run has, of the width and with the
/// checkpoints of the options, and for a pause between two lines that is the part
/// of a second that each of them has, in microseconds.
pub proof fn law_the_scenario_paces_its_lines(options: Options, pause_us: nat)
    requires
        options.lines_per_second > 0,
        pause_us * options.lines_per_second <= 1_000_000,
        1_000_000 < (pause_us + 1) * options.lines_per_second,
    ensures
        options.scenario() == "{\"name\":\"perf-soak\",\"steps\":[{\"generate\":"@ + decimal(
            options.line_total(),
        ) + ",\"channel\":\"stdout\",\"line_bytes\":"@ + decimal(options.line_bytes as nat)
            + ",\"checksum_every\":"@ + decimal(options.checksum_every as nat)
            + ",\"line_interval_us\":"@ + decimal(pause_us) + "},{\"exit\":0}]}"@,
{
    let rate = options.lines_per_second as nat;
    assert(1_000_000nat / rate == pause_us) by (nonlinear_arith)
        requires
            rate > 0,
            pause_us * rate <= 1_000_000,
            1_000_000 < (pause_us + 1) * rate,
    ;
}

} // verus!
