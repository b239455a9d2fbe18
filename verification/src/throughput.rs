//! How much the read path can carry, and what one session's number is worth
//! when it is not alone. The clock starts at the first delivery, not at the
//! spawn, and every session's stream is verified while it is measured.
use vstd::prelude::*;
use vstd::string::*;

use crate::double::{human_bytes, human_bytes_text, per_second, rate};
use crate::report::{
    all_judged, any_exceeded, empty_report, noted_view, scalar_view, texts, Budget, Measurement,
    MeasurementView, Origin, Report, ReportView,
};
use crate::session::{elapsed, is_over, watch_after, EndWatch, Pump, Step};
use crate::text::{decimal, push_u64, push_usize};
use crate::total::sum;
use crate::verify::Findings;

verus! {

/// The published floor: what one session must sustain.
pub const PER_SESSION_FLOOR_LINES_PER_SEC: u64 = 1000;

/// Longest a session waits with nothing arriving, in nanoseconds.
pub const STALL: u64 = 30_000_000_000;

/// What a run is asked for.
#[derive(Clone, Debug)]
pub struct Options {
    /// Payload lines per session.
    pub lines: u64,
    pub line_bytes: usize,
    pub checksum_every: u64,
    /// Concurrent sessions.
    pub sessions: usize,
}

impl Options {
    /// One session of a million lines of `line_bytes`.
    pub fn standard(line_bytes: usize) -> (options: Self)
        ensures
            options == (Options {
                lines: 1_000_000,
                line_bytes,
                checksum_every: 1000,
                sessions: 1,
            }),
    {
        Options { lines: 1_000_000, line_bytes, checksum_every: 1000, sessions: 1 }
    }

    /// The scenario that each session plays.
    pub open spec fn scenario(&self) -> Seq<char> {
        "{\"name\":\"perf-throughput\",\"steps\":[{\"generate\":"@ + decimal(self.lines as nat)
            + ",\"channel\":\"stdout\",\"line_bytes\":"@ + decimal(self.line_bytes as nat)
            + ",\"checksum_every\":"@ + decimal(self.checksum_every as nat)
            + ",\"line_interval_us\":0},{\"exit\":0}]}"@
    }

    /// The scenario that each session plays.
    pub fn scenario_json(&self) -> (json: String)
        ensures
            json@ == self.scenario(),
    {
        let mut json = "{\"name\":\"perf-throughput\",\"steps\":[{\"generate\":".to_owned();
        push_u64(&mut json, self.lines);
        json.append(",\"channel\":\"stdout\",\"line_bytes\":");
        push_usize(&mut json, self.line_bytes);
        json.append(",\"checksum_every\":");
        push_u64(&mut json, self.checksum_every);
        json.append(",\"line_interval_us\":0},{\"exit\":0}]}");
        json
    }

    /// What the lane says of its plan.
    pub open spec fn plan_view(&self) -> Seq<char> {
        decimal(self.sessions as nat) + " session(s) \u{d7} "@ + decimal(self.lines as nat)
            + " lines of "@ + decimal(self.line_bytes as nat) + " bytes, unpaced"@
    }

    /// What the lane says of its plan.
    pub fn plan_text(&self) -> (text: String)
        ensures
            text@ == self.plan_view(),
    {
        let mut text = String::new();
        push_usize(&mut text, self.sessions);
        assert(text@ =~= decimal(self.sessions as nat));
        text.append(" session(s) \u{d7} ");
        push_u64(&mut text, self.lines);
        text.append(" lines of ");
        push_usize(&mut text, self.line_bytes);
        text.append(" bytes, unpaced");
        text
    }

    /// A run needs at least one session.
    pub fn check(&self) -> (r: Result<(), String>)
        ensures
            r is Ok <==> self.sessions > 0,
            r matches Err(text) ==> text@ == "a run needs at least one session"@,
    {
        if self.sessions == 0 {
            Err("a run needs at least one session".to_owned())
        } else {
            Ok(())
        }
    }
}

/// When a session's first and last chunk came, on the shared clock.
#[derive(Clone, Copy, Debug)]
pub struct Delivery {
    pub first_ns: Option<u64>,
    pub last_ns: u64,
}

impl Delivery {
    /// When the first chunk came, or zero where none has.
    pub open spec fn start(&self) -> u64 {
        match self.first_ns {
            Some(ns) => ns,
            None => 0,
        }
    }

    /// Nothing delivered yet.
    pub fn new() -> (d: Self)
        ensures
            d.first_ns is None,
            d.last_ns == 0,
    {
        Delivery { first_ns: None, last_ns: 0 }
    }

    /// A chunk came at `at_ns`: how far into the run that is.
    pub fn note(&mut self, at_ns: u64) -> (run_ns: u64)
        ensures
            final(self).last_ns == at_ns,
            final(self).first_ns == Some(
                match old(self).first_ns {
                    Some(ns) => ns,
                    None => at_ns,
                },
            ),
            run_ns == elapsed(final(self).start(), at_ns),
    {
        let first: u64 = match self.first_ns {
            Some(ns) => ns,
            None => at_ns,
        };
        self.first_ns = Some(first);
        self.last_ns = at_ns;
        at_ns.saturating_sub(first)
    }

    /// How far into the run the last chunk came.
    pub fn final_ns(&self) -> (ns: u64)
        ensures
            ns == elapsed(self.start(), self.last_ns),
    {
        let first: u64 = match self.first_ns {
            Some(ns) => ns,
            None => 0,
        };
        self.last_ns.saturating_sub(first)
    }
}

/// One session's measured run.
#[derive(Debug)]
pub struct SessionOutcome {
    pub findings: Findings,
    pub bytes_read: u64,
    /// First and last delivery, on the shared clock.
    pub first_ns: u64,
    pub last_ns: u64,
}

/// A span of time, at least one nanosecond.
pub open spec fn at_least_one(first_ns: u64, last_ns: u64) -> nat {
    if elapsed(first_ns, last_ns) < 1 {
        1
    } else {
        elapsed(first_ns, last_ns)
    }
}

fn span_ns(first_ns: u64, last_ns: u64) -> (ns: u64)
    ensures
        ns == at_least_one(first_ns, last_ns),
        ns > 0,
{
    let ns: u64 = last_ns.saturating_sub(first_ns);
    if ns < 1 {
        1
    } else {
        ns
    }
}

impl SessionOutcome {
    /// Lines per second of delivery time.
    pub open spec fn line_rate(&self) -> nat {
        per_second(self.findings.lines_verified as nat, at_least_one(self.first_ns, self.last_ns))
    }

    /// Bytes per second of delivery time.
    pub open spec fn byte_rate(&self) -> nat {
        per_second(self.bytes_read as nat, at_least_one(self.first_ns, self.last_ns))
    }

    /// How long delivery took, at least one nanosecond.
    pub fn elapsed_ns(&self) -> (ns: u64)
        ensures
            ns == at_least_one(self.first_ns, self.last_ns),
            ns > 0,
    {
        span_ns(self.first_ns, self.last_ns)
    }

    /// Lines per second of delivery time.
    pub fn lines_per_sec(&self) -> (r: u64)
        ensures
            r == self.line_rate(),
    {
        rate(self.findings.lines_verified, self.elapsed_ns())
    }

    /// Bytes per second of delivery time.
    pub fn bytes_per_sec(&self) -> (r: u64)
        ensures
            r == self.byte_rate(),
    {
        rate(self.bytes_read, self.elapsed_ns())
    }

    /// What is said of a finished session.
    pub fn summary(&self, index: usize) -> (text: String)
        ensures
            text@ == "session "@ + decimal(index as nat) + ": "@ + decimal(self.line_rate())
                + " lines/s, "@ + human_bytes_text(self.byte_rate()) + "/s, "@
                + self.findings@.summary_text(),
    {
        let mut text = "session ".to_owned();
        push_usize(&mut text, index);
        text.append(": ");
        push_u64(&mut text, self.lines_per_sec());
        text.append(" lines/s, ");
        text.append(human_bytes(self.bytes_per_sec()).as_str());
        text.append("/s, ");
        text.append(self.findings.summary().as_str());
        text
    }
}

/// What all sessions came to.
#[derive(Debug)]
pub struct Outcome {
    pub sessions: Vec<SessionOutcome>,
}

/// A number of each session, added up.
pub open spec fn total_of(
    sessions: Seq<SessionOutcome>,
    number: spec_fn(SessionOutcome) -> nat,
) -> nat
    decreases sessions.len(),
{
    if sessions.len() == 0 {
        0
    } else {
        total_of(sessions.drop_last(), number) + number(sessions.last())
    }
}

/// How many faults all sessions have.
pub open spec fn all_faults(sessions: Seq<SessionOutcome>) -> nat {
    total_of(sessions, |s: SessionOutcome| s.findings@.faults())
}

/// How many lines all sessions verified.
pub open spec fn all_lines(sessions: Seq<SessionOutcome>) -> nat {
    total_of(sessions, |s: SessionOutcome| s.findings.lines_verified as nat)
}

/// The sum of the sessions' byte rates.
pub open spec fn all_bytes(sessions: Seq<SessionOutcome>) -> nat {
    total_of(sessions, |s: SessionOutcome| s.byte_rate())
}

/// The worst session's line rate; zero without sessions.
pub open spec fn slowest(sessions: Seq<SessionOutcome>) -> nat
    decreases sessions.len(),
{
    if sessions.len() == 0 {
        0
    } else if sessions.len() == 1 {
        sessions[0].line_rate()
    } else {
        let s = slowest(sessions.drop_last());
        if sessions.last().line_rate() < s {
            sessions.last().line_rate()
        } else {
            s
        }
    }
}

/// The earliest first delivery; zero without sessions.
pub open spec fn earliest(sessions: Seq<SessionOutcome>) -> u64
    decreases sessions.len(),
{
    if sessions.len() == 0 {
        0
    } else if sessions.len() == 1 {
        sessions[0].first_ns
    } else {
        let e = earliest(sessions.drop_last());
        if sessions.last().first_ns < e {
            sessions.last().first_ns
        } else {
            e
        }
    }
}

/// The latest last delivery; zero without sessions.
pub open spec fn latest(sessions: Seq<SessionOutcome>) -> u64
    decreases sessions.len(),
{
    if sessions.len() == 0 {
        0
    } else {
        let l = latest(sessions.drop_last());
        if sessions.last().last_ns > l {
            sessions.last().last_ns
        } else {
            l
        }
    }
}

proof fn lemma_total_prefix(
    sessions: Seq<SessionOutcome>,
    n: int,
    number: spec_fn(SessionOutcome) -> nat,
)
    requires
        0 <= n <= sessions.len(),
    ensures
        total_of(sessions.take(n), number) <= total_of(sessions, number),
    decreases sessions.len() - n,
{
    if n == sessions.len() {
        assert(sessions.take(n) =~= sessions);
    } else {
        lemma_total_prefix(sessions, n + 1, number);
        assert(sessions.take(n + 1).drop_last() =~= sessions.take(n));
    }
}

impl Outcome {
    /// How many faults all sessions have.
    pub fn faults(&self) -> (n: u64)
        requires
            all_faults(self.sessions@) <= u64::MAX,
        ensures
            n == all_faults(self.sessions@),
    {
        let ghost number = |s: SessionOutcome| s.findings@.faults();
        let mut n: u64 = 0;
        let mut i: usize = 0;
        assert(self.sessions@.take(0) =~= Seq::empty());
        while i < self.sessions.len()
            invariant
                i <= self.sessions@.len(),
                number == (|s: SessionOutcome| s.findings@.faults()),
                n == total_of(self.sessions@.take(i as int), number),
                total_of(self.sessions@, number) <= u64::MAX,
            decreases self.sessions@.len() - i,
        {
            proof {
                assert(self.sessions@.take(i + 1).drop_last() =~= self.sessions@.take(i as int));
                lemma_total_prefix(self.sessions@, i + 1, number);
            }
            n = n + self.sessions[i].findings.faults();
            i += 1;
        }
        assert(self.sessions@.take(i as int) =~= self.sessions@);
        n
    }

    /// The worst session's sustained rate: the number that the floor is held
    /// against.
    pub fn slowest_lines_per_sec(&self) -> (r: u64)
        ensures
            r == slowest(self.sessions@),
    {
        if self.sessions.len() == 0 {
            return 0;
        }
        let mut least: u64 = self.sessions[0].lines_per_sec();
        let mut i: usize = 1;
        while i < self.sessions.len()
            invariant
                1 <= i <= self.sessions@.len(),
                least == slowest(self.sessions@.take(i as int)),
            decreases self.sessions@.len() - i,
        {
            assert(self.sessions@.take(i + 1).drop_last() =~= self.sessions@.take(i as int));
            let r: u64 = self.sessions[i].lines_per_sec();
            if r < least {
                least = r;
            }
            i += 1;
        }
        assert(self.sessions@.take(i as int) =~= self.sessions@);
        least
    }

    /// Total verified lines over the span from the first session's first
    /// delivery to the last session's last.
    pub fn aggregate_lines_per_sec(&self) -> (r: u64)
        requires
            all_lines(self.sessions@) <= u64::MAX,
        ensures
            r == per_second(
                all_lines(self.sessions@),
                at_least_one(earliest(self.sessions@), latest(self.sessions@)),
            ),
    {
        let ghost number = |s: SessionOutcome| s.findings.lines_verified as nat;
        let mut total: u64 = 0;
        let mut first: u64 = 0;
        let mut last: u64 = 0;
        let mut i: usize = 0;
        assert(self.sessions@.take(0) =~= Seq::empty());
        while i < self.sessions.len()
            invariant
                i <= self.sessions@.len(),
                number == (|s: SessionOutcome| s.findings.lines_verified as nat),
                total == total_of(self.sessions@.take(i as int), number),
                total_of(self.sessions@, number) <= u64::MAX,
                first == earliest(self.sessions@.take(i as int)),
                last == latest(self.sessions@.take(i as int)),
            decreases self.sessions@.len() - i,
        {
            proof {
                assert(self.sessions@.take(i + 1).drop_last() =~= self.sessions@.take(i as int));
                lemma_total_prefix(self.sessions@, i + 1, number);
            }
            let s = &self.sessions[i];
            total = total + s.findings.lines_verified;
            if i == 0 || s.first_ns < first {
                first = s.first_ns;
            }
            if s.last_ns > last {
                last = s.last_ns;
            }
            i += 1;
        }
        assert(self.sessions@.take(i as int) =~= self.sessions@);
        rate(total, span_ns(first, last))
    }

    fn byte_rates(&self) -> (n: u64)
        requires
            all_bytes(self.sessions@) <= u64::MAX,
        ensures
            n == all_bytes(self.sessions@),
    {
        let ghost number = |s: SessionOutcome| s.byte_rate();
        let mut n: u64 = 0;
        let mut i: usize = 0;
        assert(self.sessions@.take(0) =~= Seq::empty());
        while i < self.sessions.len()
            invariant
                i <= self.sessions@.len(),
                number == (|s: SessionOutcome| s.byte_rate()),
                n == total_of(self.sessions@.take(i as int), number),
                total_of(self.sessions@, number) <= u64::MAX,
            decreases self.sessions@.len() - i,
        {
            proof {
                assert(self.sessions@.take(i + 1).drop_last() =~= self.sessions@.take(i as int));
                lemma_total_prefix(self.sessions@, i + 1, number);
            }
            n = n + self.sessions[i].bytes_per_sec();
            i += 1;
        }
        assert(self.sessions@.take(i as int) =~= self.sessions@);
        n
    }
}

/// What is said of a session that went silent.
pub open spec fn stalled_text(accounted: u64, bytes_read: u64) -> Seq<char> {
    "nothing arrived for 30 s after "@ + decimal(accounted as nat) + " lines and "@
        + human_bytes_text(bytes_read as nat)
}

/// Judge one tick of a session. `done` says whether everything promised is
/// accounted for after the data of this tick.
pub fn step(
    watch: &mut EndWatch,
    tick: &Pump,
    now_ns: u64,
    done: bool,
    accounted: u64,
    bytes_read: u64,
) -> (s: Step)
    ensures
        *final(watch) == watch_after(*old(watch), *tick, now_ns),
        ({
            let over = match *tick {
                Pump::Data { .. } => done,
                Pump::Ended => true,
                Pump::Quiet { exited } => is_over(*old(watch), exited, now_ns),
            };
            let silent = tick is Quiet && elapsed(old(watch).last_data, now_ns) >= STALL;
            match s {
                Step::Finish => over,
                Step::Fail(text) => !over && silent && text@ == stalled_text(accounted, bytes_read),
                Step::Continue => !over && !silent,
            }
        }),
{
    match tick {
        Pump::Data { .. } => {
            watch.data(now_ns);
            if done {
                Step::Finish
            } else {
                Step::Continue
            }
        },
        Pump::Ended => Step::Finish,
        Pump::Quiet { exited } => {
            if watch.ended(*exited, now_ns) {
                return Step::Finish;
            }
            if watch.since_data(now_ns) >= STALL {
                let mut text = "nothing arrived for 30 s after ".to_owned();
                push_u64(&mut text, accounted);
                text.append(" lines and ");
                text.append(human_bytes(bytes_read).as_str());
                return Step::Fail(text);
            }
            Step::Continue
        },
    }
}

/// The workload's name: one session, or several.
pub open spec fn workload_of(sessions: usize) -> Seq<char> {
    if sessions == 1 {
        "synthetic"@
    } else {
        "synthetic\u{d7}"@ + decimal(sessions as nat)
    }
}

/// The rows of a throughput report.
pub open spec fn throughput_rows(options: Options, sessions: Seq<SessionOutcome>) -> Seq<
    MeasurementView,
> {
    seq![
        scalar_view("sessions"@, "sessions"@, options.sessions as u64, None),
        noted_view(
            "per_session_throughput"@,
            "lines_per_second"@,
            slowest(sessions) as u64,
            Some(Budget::AtLeast(PER_SESSION_FLOOR_LINES_PER_SEC)),
            "the slowest session's sustained rate \u{2014} an average would hide a starved session"@,
        ),
        scalar_view(
            "aggregate_throughput"@,
            "lines_per_second"@,
            per_second(
                all_lines(sessions),
                at_least_one(earliest(sessions), latest(sessions)),
            ) as u64,
            None,
        ),
        scalar_view("aggregate_bytes"@, "bytes_per_second"@, all_bytes(sessions) as u64, None),
        scalar_view(
            "integrity_faults"@,
            "faults"@,
            all_faults(sessions) as u64,
            Some(Budget::AtMost(0)),
        ),
    ]
}

/// The described faults of all sessions, in order.
pub open spec fn all_details(sessions: Seq<SessionOutcome>) -> Seq<Seq<char>>
    decreases sessions.len(),
{
    if sessions.len() == 0 {
        Seq::empty()
    } else {
        all_details(sessions.drop_last()) + sessions.last().findings@.detail
    }
}

/// The whole report of a throughput run.
pub open spec fn throughput_report(
    options: Options,
    sessions: Seq<SessionOutcome>,
    origin: Origin,
) -> ReportView {
    ReportView {
        notes: seq![
            options.plan_view()
                + "; rates include line verification, which is deliberate \u{2014} the path under test processes what it reads"@,
        ] + all_details(sessions),
        measurements: throughput_rows(options, sessions),
        ..empty_report("bench-throughput"@, workload_of(options.sessions), origin)
    }
}

/// Fold an outcome into a report.
pub fn build_report(options: &Options, outcome: &Outcome, origin: &Origin) -> (report: Report)
    requires
        all_faults(outcome.sessions@) <= u64::MAX,
        all_lines(outcome.sessions@) <= u64::MAX,
        all_bytes(outcome.sessions@) <= u64::MAX,
    ensures
        report@ == throughput_report(*options, outcome.sessions@, *origin),
{
    let workload = if options.sessions == 1 {
        "synthetic".to_owned()
    } else {
        let mut w = "synthetic\u{d7}".to_owned();
        push_usize(&mut w, options.sessions);
        w
    };
    let mut report = Report::new("bench-throughput", workload.as_str(), origin);
    let mut note = options.plan_text();
    note.append(
        "; rates include line verification, which is deliberate \u{2014} the path under test processes what it reads",
    );
    report.note(note.as_str());
    report.add(Measurement::scalar("sessions", "sessions", options.sessions as u64, None));
    report.add(
        Measurement::scalar(
            "per_session_throughput",
            "lines_per_second",
            outcome.slowest_lines_per_sec(),
            Some(Budget::AtLeast(PER_SESSION_FLOOR_LINES_PER_SEC)),
        ).with_note(
            "the slowest session's sustained rate \u{2014} an average would hide a starved session",
        ),
    );
    report.add(
        Measurement::scalar(
            "aggregate_throughput",
            "lines_per_second",
            outcome.aggregate_lines_per_sec(),
            None,
        ),
    );
    report.add(
        Measurement::scalar("aggregate_bytes", "bytes_per_second", outcome.byte_rates(), None),
    );
    report.add(
        Measurement::scalar(
            "integrity_faults",
            "faults",
            outcome.faults(),
            Some(Budget::AtMost(0)),
        ),
    );
    let ghost rows = report@.measurements;
    let ghost first = report@.notes;
    let ghost base = empty_report("bench-throughput"@, workload@, *origin);
    proof {
        assert(rows =~= throughput_rows(*options, outcome.sessions@));
        assert(first + all_details(Seq::empty()) =~= first);
        assert(outcome.sessions@.take(0) =~= Seq::empty());
    }
    let mut i: usize = 0;
    while i < outcome.sessions.len()
        invariant
            i <= outcome.sessions@.len(),
            report@ == (ReportView {
                notes: first + all_details(outcome.sessions@.take(i as int)),
                measurements: rows,
                ..base
            }),
        decreases outcome.sessions@.len() - i,
    {
        let detail = &outcome.sessions[i].findings.detail;
        let ghost earlier = all_details(outcome.sessions@.take(i as int));
        let ghost all = texts(detail@);
        let mut k: usize = 0;
        assert(first + (earlier + all.take(0)) =~= first + earlier);
        while k < detail.len()
            invariant
                k <= detail@.len(),
                all == texts(detail@),
                report@ == (ReportView {
                    notes: first + (earlier + all.take(k as int)),
                    measurements: rows,
                    ..base
                }),
            decreases detail@.len() - k,
        {
            report.note(detail[k].as_str());
            proof {
                assert(all.take(k + 1) =~= all.take(k as int).push(all[k as int]));
                assert(first + (earlier + all.take(k as int).push(all[k as int])) =~= (first + (
                earlier + all.take(k as int))).push(all[k as int]));
            }
            k += 1;
        }
        proof {
            assert(all.take(k as int) =~= all);
            assert(outcome.sessions@.take(i + 1).drop_last() =~= outcome.sessions@.take(i as int));
        }
        i += 1;
    }
    proof {
        assert(outcome.sessions@.take(i as int) =~= outcome.sessions@);
        assert(report@.notes =~= throughput_report(*options, outcome.sessions@, *origin).notes);
    }
    report
}

/// No session is slower than the rate that the floor is held against, and one
/// of them has exactly that rate.
pub proof fn law_the_floor_is_held_against_the_slowest(sessions: Seq<SessionOutcome>)
    requires
        sessions.len() > 0,
    ensures
        forall|i: int| 0 <= i < sessions.len() ==> slowest(sessions) <= (#[trigger]
            sessions[i]).line_rate(),
        exists|i: int| 0 <= i < sessions.len() && slowest(sessions) == (#[trigger]
            sessions[i]).line_rate(),
    decreases sessions.len(),
{
    if sessions.len() > 1 {
        let rest = sessions.drop_last();
        law_the_floor_is_held_against_the_slowest(rest);
        let w = choose|i: int| 0 <= i < rest.len() && slowest(rest) == (#[trigger]
            rest[i]).line_rate();
        assert(sessions[w] == rest[w]);
        assert(sessions[sessions.len() - 1] == sessions.last());
        assert forall|i: int| 0 <= i < sessions.len() implies slowest(sessions) <= (#[trigger]
            sessions[i]).line_rate() by {
            if i < rest.len() {
                assert(sessions[i] == rest[i]);
            }
        }
    }
}

/// Every number of a throughput report is judged, and a budget is missed exactly
/// when a session fell below the floor or a stream did not survive intact.
pub proof fn law_a_throughput_report_says_what_the_run_found(
    options: Options,
    sessions: Seq<SessionOutcome>,
    origin: Origin,
)
    requires
        all_faults(sessions) <= u64::MAX,
        slowest(sessions) <= u64::MAX,
    ensures
        ({
            let report = throughput_report(options, sessions, origin);
            &&& all_judged(report.measurements)
            &&& any_exceeded(report.measurements) <==> all_faults(sessions) > 0 || slowest(sessions)
                < PER_SESSION_FLOOR_LINES_PER_SEC
        }),
{
    let rows = throughput_report(options, sessions, origin).measurements;
    assert(rows[1].value == slowest(sessions));
    assert(rows[4].value == all_faults(sessions));
    if any_exceeded(rows) {
        let k = choose|k: int| 0 <= k < rows.len() && (#[trigger] rows[k]).verdict is Exceeded;
        assert(k == 1 || k == 4);
    }
}

/// The aggregate is taken over the span that holds every delivery: it begins at
/// or before each session's first delivery and is one of them, and ends at or
/// after each session's last delivery and is one of them.
pub proof fn law_the_aggregate_span_holds_every_delivery(sessions: Seq<SessionOutcome>)
    requires
        sessions.len() > 0,
    ensures
        forall|i: int| #![trigger sessions[i]]
            0 <= i < sessions.len() ==> earliest(sessions) <= sessions[i].first_ns
                && sessions[i].last_ns <= latest(sessions),
        exists|i: int| 0 <= i < sessions.len() && earliest(sessions) == (#[trigger]
            sessions[i]).first_ns,
        exists|i: int| 0 <= i < sessions.len() && latest(sessions) == (#[trigger]
            sessions[i]).last_ns,
    decreases sessions.len(),
{
    let last = sessions.last();
    assert(sessions[sessions.len() - 1] == last);
    if sessions.len() == 1 {
        assert(latest(sessions.drop_last()) == 0);
        assert(sessions[0] == last);
    } else {
        let rest = sessions.drop_last();
        law_the_aggregate_span_holds_every_delivery(rest);
        let f = choose|i: int| 0 <= i < rest.len() && earliest(rest) == (#[trigger]
            rest[i]).first_ns;
        let l = choose|i: int| 0 <= i < rest.len() && latest(rest) == (#[trigger]
            rest[i]).last_ns;
        assert(sessions[f] == rest[f] && sessions[l] == rest[l]);
        assert forall|i: int| #![trigger sessions[i]] 0 <= i < sessions.len() implies earliest(
            sessions,
        ) <= sessions[i].first_ns && sessions[i].last_ns <= latest(sessions) by {
            if i < rest.len() {
                assert(sessions[i] == rest[i]);
            }
        }
    }
}

/// The totals count every session once, wherever it stands in the list.
pub proof fn law_every_session_is_counted_once(sessions: Seq<SessionOutcome>)
    ensures
        all_lines(sessions) == sum(
            |i: int| sessions[i].findings.lines_verified as int,
            sessions.len() as int,
        ),
        all_faults(sessions) == sum(
            |i: int|
                sessions[i].findings.lines_lost + sessions[i].findings.content_faults
                    + sessions[i].findings.checksum_faults,
            sessions.len() as int,
        ),
        all_bytes(sessions) == sum(
            |i: int| sessions[i].byte_rate() as int,
            sessions.len() as int,
        ),
{
    lemma_total_is_sum(
        sessions,
        |s: SessionOutcome| s.findings.lines_verified as nat,
        |i: int| sessions[i].findings.lines_verified as int,
    );
    lemma_total_is_sum(
        sessions,
        |s: SessionOutcome| s.findings@.faults(),
        |i: int|
            sessions[i].findings.lines_lost + sessions[i].findings.content_faults
                + sessions[i].findings.checksum_faults,
    );
    lemma_total_is_sum(
        sessions,
        |s: SessionOutcome| s.byte_rate(),
        |i: int| sessions[i].byte_rate() as int,
    );
}

proof fn lemma_total_is_sum(
    sessions: Seq<SessionOutcome>,
    number: spec_fn(SessionOutcome) -> nat,
    at: spec_fn(int) -> int,
)
    requires
        forall|i: int| 0 <= i < sessions.len() ==> #[trigger] at(i) == number(sessions[i]),
    ensures
        total_of(sessions, number) == sum(at, sessions.len() as int),
    decreases sessions.len(),
{
    if sessions.len() > 0 {
        let rest = sessions.drop_last();
        assert forall|i: int| 0 <= i < rest.len() implies #[trigger] at(i) == number(rest[i]) by {
            assert(rest[i] == sessions[i]);
        }
        lemma_total_is_sum(rest, number, at);
        assert(at(sessions.len() - 1) == number(sessions.last()));
    }
}

/// In whatever order the sessions are listed, the span, the totals and the
/// slowest rate are the same: swapping two of them changes none.
pub proof fn law_the_order_of_sessions_is_immaterial(
    sessions: Seq<SessionOutcome>,
    i: int,
    j: int,
)
    requires
        0 <= i < sessions.len(),
        0 <= j < sessions.len(),
    ensures
        ({
            let swapped = sessions.update(i, sessions[j]).update(j, sessions[i]);
            &&& earliest(swapped) == earliest(sessions)
            &&& latest(swapped) == latest(sessions)
            &&& slowest(swapped) == slowest(sessions)
        }),
{
    let swapped = sessions.update(i, sessions[j]).update(j, sessions[i]);
    lemma_extremes_within(sessions, swapped, i, j);
    assert(swapped.update(i, swapped[j]).update(j, swapped[i]) =~= sessions);
    lemma_extremes_within(swapped, sessions, i, j);
}

proof fn lemma_extremes_within(
    a: Seq<SessionOutcome>,
    b: Seq<SessionOutcome>,
    i: int,
    j: int,
)
    requires
        0 <= i < a.len(),
        0 <= j < a.len(),
        b == a.update(i, a[j]).update(j, a[i]),
    ensures
        earliest(b) <= earliest(a),
        latest(a) <= latest(b),
        slowest(b) <= slowest(a),
{
    law_the_aggregate_span_holds_every_delivery(a);
    law_the_aggregate_span_holds_every_delivery(b);
    law_the_floor_is_held_against_the_slowest(a);
    law_the_floor_is_held_against_the_slowest(b);
    let f = choose|k: int| 0 <= k < a.len() && earliest(a) == (#[trigger] a[k]).first_ns;
    let l = choose|k: int| 0 <= k < a.len() && latest(a) == (#[trigger] a[k]).last_ns;
    let s = choose|k: int| 0 <= k < a.len() && slowest(a) == (#[trigger] a[k]).line_rate();
    let there = |k: int|
        if k == i {
            j
        } else if k == j {
            i
        } else {
            k
        };
    assert(b[there(f)] == a[f] && b[there(l)] == a[l] && b[there(s)] == a[s]);
}

/// A session's rates are what it verified and what it read over the time from its
/// first delivery to its last, and over a nanosecond where the two are one.
pub proof fn law_a_session_is_rated_over_its_delivery(s: SessionOutcome)
    ensures
        s.last_ns > s.first_ns ==> s.line_rate() == per_second(
            s.findings.lines_verified as nat,
            (s.last_ns - s.first_ns) as nat,
        ) && s.byte_rate() == per_second(s.bytes_read as nat, (s.last_ns - s.first_ns) as nat),
        s.last_ns <= s.first_ns ==> s.line_rate() == per_second(
            s.findings.lines_verified as nat,
            1,
        ) && s.byte_rate() == per_second(s.bytes_read as nat, 1),
{
}

/// Each row of a throughput report carries the number that its name says.
pub proof fn law_each_throughput_row_carries_its_number(
    options: Options,
    sessions: Seq<SessionOutcome>,
    origin: Origin,
)
    requires
        earliest(sessions) < latest(sessions),
    ensures
        ({
            let rows = throughput_report(options, sessions, origin).measurements;
            &&& rows.len() == 5
            &&& rows[0].name == "sessions"@ && rows[0].value == options.sessions as u64
            &&& rows[1].name == "per_session_throughput"@ && rows[1].value == slowest(
                sessions,
            ) as u64
            &&& rows[1].budget == Some(Budget::AtLeast(1000))
            &&& rows[2].name == "aggregate_throughput"@ && rows[2].value == per_second(
                all_lines(sessions),
                (latest(sessions) - earliest(sessions)) as nat,
            ) as u64
            &&& rows[3].name == "aggregate_bytes"@ && rows[3].value == all_bytes(sessions) as u64
            &&& rows[4].name == "integrity_faults"@ && rows[4].value == all_faults(sessions) as u64
            &&& rows[4].budget == Some(Budget::AtMost(0))
            &&& rows[0].budget is None && rows[2].budget is None && rows[3].budget is None
        }),
{
}

/// The described faults of every session stand in the report, in order.
pub proof fn law_every_described_fault_is_noted(sessions: Seq<SessionOutcome>)
    ensures
        all_details(sessions) == sessions.map_values(
            |s: SessionOutcome| s.findings@.detail,
        ).flatten(),
    decreases sessions.len(),
{
    let details = sessions.map_values(|s: SessionOutcome| s.findings@.detail);
    if sessions.len() > 0 {
        let front = sessions.drop_last();
        law_every_described_fault_is_noted(front);
        let first = front.map_values(|s: SessionOutcome| s.findings@.detail);
        assert(details =~= first.push(sessions.last().findings@.detail));
        first.lemma_flatten_push(sessions.last().findings@.detail);
    } else {
        assert(details.len() == 0);
    }
}

/// A session is finished by the end of its stream, by data that completes what was
/// promised, or by two quiet seconds behind its child's exit. One that is not over
/// fails exactly on a quiet tick thirty seconds or more after its last data.
pub proof fn law_a_session_is_judged_by_its_silence(
    watch: &mut EndWatch,
    tick: Pump,
    now_ns: u64,
    done: bool,
    accounted: u64,
    bytes_read: u64,
    s: Step,
)
    requires
        call_ensures(step, (watch, &tick, now_ns, done, accounted, bytes_read), s),
    ensures
        tick is Ended ==> s is Finish,
        tick is Data ==> !(s is Fail) && (s is Finish <==> done),
        tick matches Pump::Quiet { exited } ==> (s is Finish <==> exited == Some(true) && old(
            watch,
        ).exit_quiet_since is Some && now_ns >= old(watch).exit_quiet_since->0 + 2_000_000_000),
        tick is Quiet ==> (s is Fail <==> !(s is Finish) && now_ns >= old(watch).last_data
            + 30_000_000_000),
        tick is Data ==> final(watch).last_data == now_ns,
        !(tick is Data) ==> final(watch).last_data == old(watch).last_data,
{
}

/// The aggregate rate is every session's lines over the span from the first
/// delivery of whichever session was first to the last of whichever was last, in
/// whatever order the sessions are listed.
pub proof fn law_the_aggregate_rate_is_over_the_whole_span(
    outcome: Outcome,
    r: u64,
    first: int,
    last: int,
)
    requires
        call_ensures(Outcome::aggregate_lines_per_sec, (&outcome,), r),
        0 <= first < outcome.sessions@.len(),
        0 <= last < outcome.sessions@.len(),
        forall|i: int|
            0 <= i < outcome.sessions@.len() ==> outcome.sessions@[first].first_ns <= (#[trigger]
            outcome.sessions@[i]).first_ns && outcome.sessions@[i].last_ns
                <= outcome.sessions@[last].last_ns,
    ensures
        ({
            let sessions = outcome.sessions@;
            let span = sessions[last].last_ns - sessions[first].first_ns;
            let lines = sum(
                |i: int| sessions[i].findings.lines_verified as int,
                sessions.len() as int,
            );
            &&& span >= 1 ==> r == per_second(lines as nat, span as nat)
            &&& span < 1 ==> r == per_second(lines as nat, 1)
        }),
{
    let sessions = outcome.sessions@;
    law_the_aggregate_span_holds_every_delivery(sessions);
    law_every_session_is_counted_once(sessions);
    assert(sessions[first].first_ns == earliest(sessions));
    assert(sessions[last].last_ns == latest(sessions));
}

/// A session's delivery lasts from its first line to its last, and never less than
/// a nanosecond.
pub proof fn law_a_delivery_takes_time(session: SessionOutcome, ns: u64)
    requires
        call_ensures(SessionOutcome::elapsed_ns, (&session,), ns),
    ensures
        ns >= 1,
        session.last_ns > session.first_ns ==> session.first_ns + ns == session.last_ns,
        session.last_ns <= session.first_ns ==> ns == 1,
{
}

/// A workload of several sessions is named with their number, and one of a single
/// session without.
pub proof fn law_a_workload_is_named_by_its_sessions(sessions: usize)
    ensures
        workload_of(1) == "synthetic"@,
        sessions != 1 ==> workload_of(sessions) == "synthetic\u{d7}"@ + decimal(sessions as nat),
{
}

} // verus!
