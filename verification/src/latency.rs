//! What the terminal costs, in the two directions that have budgets: the first
//! byte out of a child, and input forwarded into one.
//!
//! Markers are framed (`M<digits>E`, `R<digits>E`), so a marker cut short by a
//! repainting terminal fails to parse instead of parsing as a smaller number,
//! and readings must strictly increase, so a re-sent marker is recognised as
//! the repaint it is rather than sampled twice.
use vstd::prelude::*;
use vstd::string::*;
use vstd::utf8::*;

use crate::report::{
    all_judged, empty_report, scalar_view, Budget, Measurement, MeasurementView, Origin, Report,
    ReportView,
};
use crate::session::{elapsed, is_over, watch_after, EndWatch, Pump, Step};
use crate::stats::{ascending, summarize, summary_of, Summary};
use crate::text::{decimal, push_u64, push_usize};

verus! {

/// The published budget for the first byte out, in nanoseconds.
pub const FIRST_BYTE_BUDGET_NS: u64 = 50_000_000;

/// The published budget for input forwarding, in nanoseconds.
pub const INPUT_FORWARDING_BUDGET_NS: u64 = 10_000_000;

/// Longest the lane waits with nothing arriving, in nanoseconds.
pub const STALL: u64 = 30_000_000_000;

/// Timeout of each scripted round trip, in milliseconds.
pub const AWAIT_TIMEOUT_MS: u64 = 30_000;

/// What a run is asked for.
#[derive(Clone, Debug, PartialEq, Eq, Structural)]
pub struct Options {
    /// Measured samples per direction, after the discard.
    pub samples: usize,
    /// Spacing of the first-byte markers, in microseconds.
    pub marker_interval_us: u64,
    /// Samples thrown away at the start of each direction.
    pub discard: usize,
}

impl Default for Options {
    fn default() -> (options: Self)
        ensures
            options == (Options { samples: 10_000, marker_interval_us: 1_000, discard: 50 }),
    {
        Options { samples: 10_000, marker_interval_us: 1_000, discard: 50 }
    }
}

/// What both directions came to.
#[derive(Debug)]
pub struct Outcome {
    pub first_byte_ns: Vec<u64>,
    pub forwarding_ns: Vec<u64>,
    pub repaints_skipped: u64,
}

/// What a line of output is, as a marker.
#[derive(Clone, Copy, Debug, PartialEq, Eq, Structural)]
pub enum MarkerRead {
    /// A well-formed marker with a reading newer than any before.
    Fresh(u64),
    /// A marker already accounted for, or one cut short.
    Repaint,
    NotAMarker,
}

/// Whether every byte is an ASCII digit.
pub open spec fn all_digits(bytes: Seq<u8>) -> bool {
    forall|i: int| 0 <= i < bytes.len() ==> 48 <= #[trigger] bytes[i] <= 57
}

/// The number that a run of ASCII digits spells.
pub open spec fn digits_number(bytes: Seq<u8>) -> nat
    decreases bytes.len(),
{
    if bytes.len() == 0 {
        0
    } else {
        digits_number(bytes.drop_last()) * 10 + (bytes.last() - 48) as nat
    }
}

/// What a line is, as a marker with this tag, after readings up to `last`:
/// `<tag><digits>E`, newer than the last one.
pub open spec fn marker_reading(bytes: Seq<u8>, tag: u8, last: u64) -> MarkerRead {
    if bytes.len() == 0 || bytes[0] != tag {
        MarkerRead::NotAMarker
    } else {
        let rest = bytes.drop_first();
        let digits = rest.drop_last();
        if rest.len() == 0 {
            MarkerRead::NotAMarker
        } else if rest.last() != 69 {
            if all_digits(rest) {
                MarkerRead::Repaint
            } else {
                MarkerRead::NotAMarker
            }
        } else if digits.len() == 0 || !all_digits(digits) || digits_number(digits) > u64::MAX {
            MarkerRead::NotAMarker
        } else if digits_number(digits) <= last {
            MarkerRead::Repaint
        } else {
            MarkerRead::Fresh(digits_number(digits) as u64)
        }
    }
}

/// The latest reading after a line.
pub open spec fn stamp_after(bytes: Seq<u8>, tag: u8, last: u64) -> u64 {
    match marker_reading(bytes, tag, last) {
        MarkerRead::Fresh(stamp) => stamp,
        _ => last,
    }
}

proof fn lemma_digits_grow(bytes: Seq<u8>, n: int)
    requires
        0 <= n <= bytes.len(),
    ensures
        digits_number(bytes.take(n)) <= digits_number(bytes),
    decreases bytes.len() - n,
{
    if n == bytes.len() {
        assert(bytes.take(n) =~= bytes);
    } else {
        lemma_digits_grow(bytes, n + 1);
        assert(bytes.take(n + 1).drop_last() =~= bytes.take(n));
    }
}

fn are_digits(bytes: &[u8], from: usize, to: usize) -> (all: bool)
    requires
        from <= to <= bytes@.len(),
    ensures
        all == all_digits(bytes@.subrange(from as int, to as int)),
{
    let ghost part = bytes@.subrange(from as int, to as int);
    let mut i: usize = from;
    while i < to
        invariant
            from <= i <= to <= bytes@.len(),
            part == bytes@.subrange(from as int, to as int),
            forall|j: int| 0 <= j < i - from ==> 48 <= #[trigger] part[j] <= 57,
        decreases to - i,
    {
        if bytes[i] < 48 || bytes[i] > 57 {
            assert(part[i - from] == bytes@[i as int]);
            return false;
        }
        i += 1;
    }
    true
}

/// Read a line as a marker, and move the latest reading on if it is a fresh one.
pub fn accept_marker(line: &str, tag: u8, last_stamp: &mut u64) -> (read: MarkerRead)
    ensures
        read == marker_reading(encode_utf8(line@), tag, *old(last_stamp)),
        *final(last_stamp) == stamp_after(encode_utf8(line@), tag, *old(last_stamp)),
{
    let bytes = line.as_bytes();
    let n: usize = bytes.len();
    if n == 0 || bytes[0] != tag {
        return MarkerRead::NotAMarker;
    }
    let ghost rest = bytes@.drop_first();
    let ghost digits = rest.drop_last();
    if n == 1 {
        return MarkerRead::NotAMarker;
    }
    assert(rest.last() == bytes@[n - 1]);
    if bytes[n - 1] != 69 {
        assert(bytes@.subrange(1, n as int) =~= rest);
        return if are_digits(bytes, 1, n) {
            MarkerRead::Repaint
        } else {
            MarkerRead::NotAMarker
        };
    }
    assert(bytes@.subrange(1, n - 1) =~= digits);
    if n == 2 || !are_digits(bytes, 1, n - 1) {
        return MarkerRead::NotAMarker;
    }
    let mut stamp: u64 = 0;
    let mut i: usize = 1;
    assert(digits.take(0) =~= Seq::empty());
    while i < n - 1
        invariant
            1 <= i <= n - 1,
            n == bytes@.len(),
            bytes@ == encode_utf8(line@),
            bytes@[0] == tag,
            rest == bytes@.drop_first(),
            rest.len() > 0,
            rest.last() == 69,
            digits == rest.drop_last(),
            digits == bytes@.subrange(1, n - 1),
            digits.len() > 0,
            all_digits(digits),
            stamp == digits_number(digits.take(i - 1)),
            *last_stamp == *old(last_stamp),
        decreases n - i,
    {
        proof {
            assert(digits[i - 1] == bytes@[i as int]);
            assert(digits.take(i as int).drop_last() =~= digits.take(i - 1));
            lemma_digits_grow(digits, i as int);
        }
        let next: u128 = stamp as u128 * 10 + (bytes[i] - 48) as u128;
        if next > u64::MAX as u128 {
            return MarkerRead::NotAMarker;
        }
        stamp = next as u64;
        i += 1;
    }
    assert(digits.take(n - 2) =~= digits);
    if stamp <= *last_stamp {
        return MarkerRead::Repaint;
    }
    *last_stamp = stamp;
    MarkerRead::Fresh(stamp)
}

/// The latest reading never goes back, and a marker is fresh exactly when it
/// moves the latest reading on; said again, it is a repaint.
pub proof fn law_a_marker_is_sampled_once(bytes: Seq<u8>, tag: u8, last: u64)
    ensures
        stamp_after(bytes, tag, last) >= last,
        marker_reading(bytes, tag, last) is Fresh <==> stamp_after(bytes, tag, last) > last,
        marker_reading(bytes, tag, last) is Fresh ==> marker_reading(
            bytes,
            tag,
            stamp_after(bytes, tag, last),
        ) is Repaint,
{
}

/// A marker that lost its frame never reads as a number, whatever is left of it.
pub proof fn law_a_truncated_marker_is_never_a_smaller_number(
    bytes: Seq<u8>,
    kept: int,
    tag: u8,
    last: u64,
)
    requires
        marker_reading(bytes, tag, last) is Fresh,
        0 <= kept < bytes.len(),
    ensures
        !(marker_reading(bytes.take(kept), tag, last) is Fresh),
{
    let rest = bytes.drop_first();
    let digits = rest.drop_last();
    let cut = bytes.take(kept);
    if kept >= 2 {
        assert(cut.drop_first().last() == digits[kept - 2]);
    }
}

/// The samples of the first-byte direction, as they come in.
#[derive(Debug)]
pub struct FirstByte {
    pub samples: Vec<u64>,
    pub repaints: u64,
    pub last_stamp: u64,
}

impl FirstByte {
    /// Nothing sampled yet.
    pub fn new() -> (f: Self)
        ensures
            f.samples@ == Seq::<u64>::empty(),
            f.repaints == 0,
            f.last_stamp == 0,
    {
        FirstByte { samples: Vec::new(), repaints: 0, last_stamp: 0 }
    }

    /// A line arrived at `arrived_ns`: sample it if it is a fresh marker.
    pub fn note(&mut self, line: &str, arrived_ns: u64)
        requires
            old(self).repaints < u64::MAX,
        ensures
            ({
                let bytes = encode_utf8(line@);
                let read = marker_reading(bytes, 77, old(self).last_stamp);
                &&& final(self).last_stamp == stamp_after(bytes, 77, old(self).last_stamp)
                &&& final(self).samples@ == match read {
                    MarkerRead::Fresh(stamp) => old(self).samples@.push(
                        elapsed(stamp, arrived_ns) as u64,
                    ),
                    _ => old(self).samples@,
                }
                &&& final(self).repaints == old(self).repaints + if read is Repaint {
                    1int
                } else {
                    0int
                }
            }),
    {
        match accept_marker(line, 77, &mut self.last_stamp) {
            MarkerRead::Fresh(stamp) => {
                self.samples.push(arrived_ns.saturating_sub(stamp));
            },
            MarkerRead::Repaint => {
                self.repaints = self.repaints + 1;
            },
            MarkerRead::NotAMarker => {},
        }
    }

    /// Judge one tick, after the lines of its data were noted.
    pub fn step(&self, watch: &mut EndWatch, tick: &Pump, now_ns: u64, total: usize) -> (s: Step)
        ensures
            *final(watch) == watch_after(*old(watch), *tick, now_ns),
            ({
                let over = match *tick {
                    Pump::Data { .. } => self.samples@.len() >= total,
                    Pump::Ended => true,
                    Pump::Quiet { exited } => is_over(*old(watch), exited, now_ns),
                };
                let silent = tick is Quiet && elapsed(old(watch).last_data, now_ns) >= STALL;
                match s {
                    Step::Finish => over,
                    Step::Fail(text) => !over && silent && text@ == "nothing arrived for 30 s with "@
                        + decimal(self.samples@.len()) + " of "@ + decimal(total as nat)
                        + " markers collected"@,
                    Step::Continue => !over && !silent,
                }
            }),
    {
        match tick {
            Pump::Data { .. } => {
                watch.data(now_ns);
                if self.samples.len() >= total {
                    Step::Finish
                } else {
                    Step::Continue
                }
            },
            Pump::Ended => Step::Finish,
            Pump::Quiet { exited } => {
                if watch.ended(*exited, now_ns) {
                    return Step::Finish;
                }
                if watch.since_data(now_ns) >= STALL {
                    let mut text = "nothing arrived for 30 s with ".to_owned();
                    push_usize(&mut text, self.samples.len());
                    text.append(" of ");
                    push_usize(&mut text, total);
                    text.append(" markers collected");
                    return Step::Fail(text);
                }
                Step::Continue
            },
        }
    }

    /// The samples behind the discarded ones, once the stream is over.
    pub fn finish(self, total: usize, discard: usize) -> (r: Result<(Vec<u64>, u64), String>)
        requires
            discard <= total,
        ensures
            match r {
                Ok((samples, repaints)) => {
                    &&& self.samples@.len() >= total
                    &&& samples@ == self.samples@.skip(discard as int)
                    &&& repaints == self.repaints
                },
                Err(text) => self.samples@.len() < total && text@ == "the stream ended after "@
                    + decimal(self.samples@.len()) + " of "@ + decimal(total as nat)
                    + " markers"@,
            },
    {
        if self.samples.len() < total {
            let mut text = "the stream ended after ".to_owned();
            push_usize(&mut text, self.samples.len());
            text.append(" of ");
            push_usize(&mut text, total);
            text.append(" markers");
            return Err(text);
        }
        let mut samples = self.samples;
        let kept = samples.split_off(discard);
        assert(kept@ =~= self.samples@.skip(discard as int));
        Ok((kept, self.repaints))
    }
}

/// The samples of the forwarding direction, one serial round trip each.
#[derive(Debug)]
pub struct Forwarding {
    pub samples: Vec<u64>,
    pub repaints: u64,
    pub last_stamp: u64,
    /// The answer to the round in progress.
    pub answer: Option<u64>,
}

/// What is said of a child that ended before its last round.
pub open spec fn ended_text(round: nat, total: nat) -> Seq<char> {
    "the child ended at round "@ + decimal(round) + " of "@ + decimal(total)
        + " \u{2014} a scripted await failed or timed out"@
}

impl Forwarding {
    /// Nothing sampled yet.
    pub fn new() -> (f: Self)
        ensures
            f.samples@ == Seq::<u64>::empty(),
            f.repaints == 0,
            f.last_stamp == 0,
            f.answer is None,
    {
        Forwarding { samples: Vec::new(), repaints: 0, last_stamp: 0, answer: None }
    }

    /// A line arrived: it answers the round if it is a fresh marker.
    pub fn note(&mut self, line: &str)
        requires
            old(self).repaints < u64::MAX,
        ensures
            ({
                let bytes = encode_utf8(line@);
                let read = marker_reading(bytes, 82, old(self).last_stamp);
                &&& final(self).last_stamp == stamp_after(bytes, 82, old(self).last_stamp)
                &&& final(self).samples == old(self).samples
                &&& final(self).answer == match read {
                    MarkerRead::Fresh(stamp) => Some(stamp),
                    _ => old(self).answer,
                }
                &&& final(self).repaints == old(self).repaints + if read is Repaint {
                    1int
                } else {
                    0int
                }
            }),
    {
        match accept_marker(line, 82, &mut self.last_stamp) {
            MarkerRead::Fresh(stamp) => {
                self.answer = Some(stamp);
            },
            MarkerRead::Repaint => {
                self.repaints = self.repaints + 1;
            },
            MarkerRead::NotAMarker => {},
        }
    }

    /// Judge one tick of a round, after the lines of its data were noted. The
    /// run is at `Finish` when the round has its answer.
    pub fn step(&self, watch: &mut EndWatch, tick: &Pump, now_ns: u64, total: usize) -> (s: Step)
        ensures
            *final(watch) == watch_after(*old(watch), *tick, now_ns),
            ({
                let round = self.samples@.len();
                let gone = match *tick {
                    Pump::Data { .. } => false,
                    Pump::Ended => true,
                    Pump::Quiet { exited } => is_over(*old(watch), exited, now_ns),
                };
                let silent = tick is Quiet && elapsed(old(watch).last_data, now_ns) >= STALL;
                match s {
                    Step::Finish => tick is Data && self.answer is Some,
                    Step::Fail(text) => {
                        &&& gone || silent
                        &&& text@ == if gone {
                            ended_text(round, total as nat)
                        } else {
                            "round "@ + decimal(round)
                                + ": no answer for 30 s after the input was written"@
                        }
                    },
                    Step::Continue => !gone && !silent && !(tick is Data && self.answer is Some),
                }
            }),
    {
        let gone = match tick {
            Pump::Data { .. } => {
                watch.data(now_ns);
                false
            },
            Pump::Ended => true,
            Pump::Quiet { exited } => {
                let over = watch.ended(*exited, now_ns);
                if !over && watch.since_data(now_ns) >= STALL {
                    let mut text = "round ".to_owned();
                    push_usize(&mut text, self.samples.len());
                    text.append(": no answer for 30 s after the input was written");
                    return Step::Fail(text);
                }
                over
            },
        };
        if gone {
            let mut text = "the child ended at round ".to_owned();
            push_usize(&mut text, self.samples.len());
            text.append(" of ");
            push_usize(&mut text, total);
            text.append(" \u{2014} a scripted await failed or timed out");
            return Step::Fail(text);
        }
        match tick {
            Pump::Data { .. } => if self.answer.is_some() {
                Step::Finish
            } else {
                Step::Continue
            },
            _ => Step::Continue,
        }
    }

    /// Sample an answered round whose input was written at `wrote_ns`.
    pub fn complete_round(&mut self, wrote_ns: u64)
        requires
            old(self).answer is Some,
        ensures
            final(self).samples@ == old(self).samples@.push(
                elapsed(wrote_ns, old(self).answer->0) as u64,
            ),
            final(self).answer is None,
            final(self).repaints == old(self).repaints,
            final(self).last_stamp == old(self).last_stamp,
    {
        match self.answer {
            Some(stamp) => {
                self.samples.push(stamp.saturating_sub(wrote_ns));
            },
            None => {},
        }
        self.answer = None;
    }

    /// The samples behind the discarded ones.
    pub fn finish(self, discard: usize) -> (r: (Vec<u64>, u64))
        requires
            discard <= self.samples@.len(),
        ensures
            r.0@ == self.samples@.skip(discard as int),
            r.1 == self.repaints,
    {
        let mut samples = self.samples;
        let kept = samples.split_off(discard);
        assert(kept@ =~= self.samples@.skip(discard as int));
        (kept, self.repaints)
    }
}

/// The scenario that streams stamped markers.
pub open spec fn first_byte_scenario_text(total: nat, interval_us: nat) -> Seq<char> {
    "{\"name\":\"perf-latency-first-byte\",\"steps\":[{\"emit\":\"M{ts}E\\n\",\"channel\":\"stdout\",\"repeat\":"@
        + decimal(total) + ",\"repeat_interval_us\":"@ + decimal(interval_us)
        + "},{\"exit\":0}]}"@
}

/// The scenario that streams `total` stamped markers.
pub fn first_byte_scenario(total: usize, interval_us: u64) -> (json: String)
    ensures
        json@ == first_byte_scenario_text(total as nat, interval_us as nat),
{
    let mut json =
        "{\"name\":\"perf-latency-first-byte\",\"steps\":[{\"emit\":\"M{ts}E\\n\",\"channel\":\"stdout\",\"repeat\":".to_owned();
    push_usize(&mut json, total);
    json.append(",\"repeat_interval_us\":");
    push_u64(&mut json, interval_us);
    json.append("},{\"exit\":0}]}");
    json
}

/// One scripted round trip.
pub open spec fn round_text() -> Seq<char> {
    "{\"await_stdin\":\"ping\\n\",\"timeout_ms\":30000},{\"emit\":\"R{ts}E\\n\",\"channel\":\"stdout\"},"@
}

/// A text, so many times over.
pub open spec fn repeated(text: Seq<char>, times: nat) -> Seq<char>
    decreases times,
{
    if times == 0 {
        Seq::empty()
    } else {
        repeated(text, (times - 1) as nat) + text
    }
}

/// The scenario of serial round trips: an exact-match await and a stamped
/// answer, `total` times over.
pub fn forwarding_scenario(total: usize) -> (json: String)
    ensures
        json@ == "{\"name\":\"perf-latency-forwarding\",\"steps\":["@ + repeated(
            round_text(),
            total as nat,
        ) + "{\"exit\":0}]}"@,
{
    let mut json = "{\"name\":\"perf-latency-forwarding\",\"steps\":[".to_owned();
    let ghost head = json@;
    let mut i: usize = 0;
    assert(head + Seq::<char>::empty() =~= head);
    while i < total
        invariant
            i <= total,
            json@ == head + repeated(round_text(), i as nat),
        decreases total - i,
    {
        json.append(
            "{\"await_stdin\":\"ping\\n\",\"timeout_ms\":30000},{\"emit\":\"R{ts}E\\n\",\"channel\":\"stdout\"},",
        );
        proof {
            let done = repeated(round_text(), i as nat);
            assert((head + done) + round_text() =~= head + (done + round_text()));
        }
        i += 1;
    }
    json.append("{\"exit\":0}]}");
    json
}

/// The row of one direction's distribution.
pub open spec fn latency_row(name: Seq<char>, summary: Summary, budget: u64) -> MeasurementView {
    MeasurementView {
        statistic: Some("p99"@),
        distribution: Some(summary),
        ..scalar_view(name, "ns"@, summary.p99, Some(Budget::AtMost(budget)))
    }
}

/// The remarks of a latency report.
pub open spec fn latency_notes(options: Options, repaints: u64) -> Seq<Seq<char>> {
    let first = decimal(options.samples as nat)
        + " samples per direction after discarding the first "@ + decimal(options.discard as nat)
        + " of each; first-byte markers "@ + decimal(options.marker_interval_us as nat)
        + " \u{b5}s apart; input-forwarding round trips are serial"@;
    if repaints > 0 {
        seq![
            first,
            decimal(repaints as nat)
                + " re-sent or truncated markers were recognised and skipped, not sampled"@,
        ]
    } else {
        seq![first]
    }
}

/// The whole report of a latency run, from each direction's sorted samples.
pub open spec fn latency_report(
    options: Options,
    repaints: u64,
    first: Seq<u64>,
    forwarding: Seq<u64>,
    origin: Origin,
) -> ReportView {
    ReportView {
        notes: latency_notes(options, repaints),
        measurements: seq![
            latency_row("first_byte_latency"@, summary_of(first), FIRST_BYTE_BUDGET_NS),
            MeasurementView {
                note: Some(
                    "measured as a write-to-answer round trip: the child stamps the marker as it reacts to the matched input, so the number includes one scenario-step transition on the child's side"@,
                ),
                ..latency_row(
                    "input_forwarding_latency"@,
                    summary_of(forwarding),
                    INPUT_FORWARDING_BUDGET_NS,
                )
            },
        ],
        ..empty_report("bench-latency"@, "synthetic"@, origin)
    }
}

/// Fold both distributions into a report, sorting the samples. A direction
/// without samples is an error: a percentile over nothing is not a number.
pub fn build_report(options: &Options, outcome: &mut Outcome, origin: &Origin) -> (r: Result<
    Report,
    String,
>)
    ensures
        final(outcome).first_byte_ns@.to_multiset() == old(outcome).first_byte_ns@.to_multiset(),
        final(outcome).forwarding_ns@.to_multiset() == old(outcome).forwarding_ns@.to_multiset(),
        final(outcome).repaints_skipped == old(outcome).repaints_skipped,
        match r {
            Ok(report) => {
                &&& old(outcome).first_byte_ns@.len() > 0
                &&& old(outcome).forwarding_ns@.len() > 0
                &&& ascending(final(outcome).first_byte_ns@)
                &&& ascending(final(outcome).forwarding_ns@)
                &&& report@ == latency_report(
                    *options,
                    old(outcome).repaints_skipped,
                    final(outcome).first_byte_ns@,
                    final(outcome).forwarding_ns@,
                    *origin,
                )
            },
            Err(text) => if old(outcome).first_byte_ns@.len() == 0 {
                text@ == "the first-byte lane collected no samples"@
            } else {
                old(outcome).forwarding_ns@.len() == 0 && text@
                    == "the input-forwarding lane collected no samples"@
            },
        },
{
    let mut report = Report::new("bench-latency", "synthetic", origin);
    let mut note = String::new();
    push_usize(&mut note, options.samples);
    assert(note@ =~= decimal(options.samples as nat));
    note.append(" samples per direction after discarding the first ");
    push_usize(&mut note, options.discard);
    note.append(" of each; first-byte markers ");
    push_u64(&mut note, options.marker_interval_us);
    note.append(" \u{b5}s apart; input-forwarding round trips are serial");
    report.note(note.as_str());
    if outcome.repaints_skipped > 0 {
        let mut skipped = String::new();
        push_u64(&mut skipped, outcome.repaints_skipped);
        assert(skipped@ =~= decimal(outcome.repaints_skipped as nat));
        skipped.append(" re-sent or truncated markers were recognised and skipped, not sampled");
        report.note(skipped.as_str());
    }
    assert(report@.notes =~= latency_notes(*options, outcome.repaints_skipped));
    let first = match summarize(outcome.first_byte_ns.as_mut_slice()) {
        Some(summary) => summary,
        None => {
            return Err("the first-byte lane collected no samples".to_owned());
        },
    };
    report.add(
        Measurement::from_p99(
            "first_byte_latency",
            "ns",
            first,
            Some(Budget::AtMost(FIRST_BYTE_BUDGET_NS)),
        ),
    );
    let forwarding = match summarize(outcome.forwarding_ns.as_mut_slice()) {
        Some(summary) => summary,
        None => {
            return Err("the input-forwarding lane collected no samples".to_owned());
        },
    };
    report.add(
        Measurement::from_p99(
            "input_forwarding_latency",
            "ns",
            forwarding,
            Some(Budget::AtMost(INPUT_FORWARDING_BUDGET_NS)),
        ).with_note(
            "measured as a write-to-answer round trip: the child stamps the marker as it reacts to the matched input, so the number includes one scenario-step transition on the child's side",
        ),
    );
    assert(report@.measurements =~= latency_report(
        *options,
        outcome.repaints_skipped,
        outcome.first_byte_ns@,
        outcome.forwarding_ns@,
        *origin,
    ).measurements);
    Ok(report)
}

/// Both directions of a latency report are judged, each at its P99 against its
/// own budget.
pub proof fn law_a_latency_report_judges_both_directions(
    options: Options,
    repaints: u64,
    first: Seq<u64>,
    forwarding: Seq<u64>,
    origin: Origin,
)
    ensures
        ({
            let report = latency_report(options, repaints, first, forwarding, origin);
            &&& report.measurements.len() == 2
            &&& all_judged(report.measurements)
            &&& report.measurements[0].verdict is Exceeded <==> summary_of(first).p99
                > FIRST_BYTE_BUDGET_NS
            &&& report.measurements[1].verdict is Exceeded <==> summary_of(forwarding).p99
                > INPUT_FORWARDING_BUDGET_NS
        }),
{
}

/// A marker is read for the number it carries, written in decimal between its tag
/// and its end: fresh where the number is above the last reading, a repaint where
/// it is not.
pub proof fn law_a_marker_is_read_for_its_number(tag: u8, stamp: u64, last: u64)
    ensures
        ({
            let bytes = seq![tag] + decimal(stamp as nat).map_values(|c: char| c as u8) + seq![69u8];
            marker_reading(bytes, tag, last) == if stamp > last {
                MarkerRead::Fresh(stamp)
            } else {
                MarkerRead::Repaint
            }
        }),
{
    let digits = decimal(stamp as nat).map_values(|c: char| c as u8);
    let bytes = seq![tag] + digits + seq![69u8];
    lemma_decimal_bytes(stamp as nat);
    assert(bytes.drop_first().drop_last() =~= digits);
    assert(bytes.drop_first().last() == 69);
}

/// Only a tag, digits and an end make a fresh marker, and a marker of another tag
/// is none.
pub proof fn law_only_a_framed_number_is_fresh(bytes: Seq<u8>, tag: u8, last: u64)
    ensures
        marker_reading(bytes, tag, last) matches MarkerRead::Fresh(stamp) ==> {
            &&& bytes.len() >= 3
            &&& bytes[0] == tag && bytes[bytes.len() - 1] == 69
            &&& forall|i: int| 0 < i < bytes.len() - 1 ==> 48 <= #[trigger] bytes[i] <= 57
            &&& stamp > last
        },
        bytes.len() == 0 || bytes[0] != tag ==> marker_reading(bytes, tag, last) is NotAMarker,
{
    if marker_reading(bytes, tag, last) is Fresh {
        let digits = bytes.drop_first().drop_last();
        assert forall|i: int| 0 < i < bytes.len() - 1 implies 48 <= #[trigger] bytes[i] <= 57 by {
            assert(digits[i - 1] == bytes[i]);
        }
    }
}

proof fn lemma_decimal_bytes(n: nat)
    ensures
        ({
            let digits = decimal(n).map_values(|c: char| c as u8);
            digits.len() > 0 && all_digits(digits) && digits_number(digits) == n
        }),
    decreases n,
{
    let digits = decimal(n).map_values(|c: char| c as u8);
    if n < 10 {
        assert(digits =~= seq![(48 + n) as u8]);
        reveal_with_fuel(digits_number, 2);
        assert(digits.drop_last().len() == 0);
    } else {
        lemma_decimal_bytes(n / 10);
        let front = decimal(n / 10).map_values(|c: char| c as u8);
        assert(digits =~= front.push((48 + n % 10) as u8));
        assert(digits.drop_last() =~= front);
        assert forall|i: int| 0 <= i < digits.len() implies 48 <= #[trigger] digits[i] <= 57 by {
            if i < front.len() {
                assert(digits[i] == front[i]);
            }
        }
    }
}

/// Each row of a latency report carries its direction's distribution and is judged
/// by it: the first byte within fifty milliseconds, forwarding within ten.
pub proof fn law_each_latency_row_carries_its_direction(
    options: Options,
    repaints: u64,
    first: Seq<u64>,
    forwarding: Seq<u64>,
    origin: Origin,
)
    ensures
        ({
            let rows = latency_report(options, repaints, first, forwarding, origin).measurements;
            &&& rows.len() == 2
            &&& rows[0].name == "first_byte_latency"@ && rows[0].distribution == Some(
                summary_of(first),
            )
            &&& rows[0].value == summary_of(first).p99
            &&& rows[0].budget == Some(Budget::AtMost(50_000_000))
            &&& rows[1].name == "input_forwarding_latency"@ && rows[1].distribution == Some(
                summary_of(forwarding),
            )
            &&& rows[1].value == summary_of(forwarding).p99
            &&& rows[1].budget == Some(Budget::AtMost(10_000_000))
            &&& forall|i: int|
                0 <= i < 2 ==> (#[trigger] rows[i]).unit == "ns"@ && rows[i].statistic == Some(
                    "p99"@,
                )
        }),
{
}

/// A scenario of round trips is its rounds one after the other: each has the
/// length of one, and the text of one stands at each place.
pub proof fn law_each_round_is_scripted_alike(text: Seq<char>, times: nat, k: int)
    requires
        0 <= k < times,
    ensures
        repeated(text, times).len() == times * text.len(),
        k * text.len() + text.len() <= repeated(text, times).len(),
        repeated(text, times).subrange((k * text.len()) as int, k * text.len() + text.len())
            == text,
    decreases times,
{
    let n = (times - 1) as nat;
    let len = text.len();
    assert(repeated(text, times) == repeated(text, n) + text);
    assert(times * len == n * len + len) by (nonlinear_arith)
        requires
            times == n + 1,
    ;
    if k < n {
        law_each_round_is_scripted_alike(text, n, k);
        assert(repeated(text, times).subrange((k * len) as int, k * len + len) =~= repeated(
            text,
            n,
        ).subrange((k * len) as int, k * len + len));
    } else {
        if n > 0 {
            law_each_round_is_scripted_alike(text, n, 0);
        } else {
            assert(n * len == 0) by (nonlinear_arith)
                requires
                    n == 0,
            ;
        }
        assert(repeated(text, times).subrange((k * len) as int, k * len + len) =~= text);
    }
}

/// The first-byte run is finished by the end of its stream, by data that completes
/// the samples, or by two quiet seconds behind its child's exit, and fails exactly
/// on a quiet tick thirty seconds or more after its last data.
pub proof fn law_a_first_byte_run_is_judged_by_its_samples(
    run: FirstByte,
    watch: &mut EndWatch,
    tick: Pump,
    now_ns: u64,
    total: usize,
    s: Step,
)
    requires
        call_ensures(FirstByte::step, (&run, watch, &tick, now_ns, total), s),
    ensures
        tick is Ended ==> s is Finish,
        tick is Data ==> !(s is Fail) && (s is Finish <==> run.samples@.len() >= total),
        tick matches Pump::Quiet { exited } ==> (s is Finish <==> exited == Some(true) && old(
            watch,
        ).exit_quiet_since is Some && now_ns >= old(watch).exit_quiet_since->0 + 2_000_000_000),
        tick is Quiet ==> (s is Fail <==> !(s is Finish) && now_ns >= old(watch).last_data
            + 30_000_000_000),
        tick is Data ==> final(watch).last_data == now_ns,
        !(tick is Data) ==> final(watch).last_data == old(watch).last_data,
{
}

/// A round is finished exactly by data that brings its answer. It fails when the
/// stream or the child is gone before that, or on a quiet tick thirty seconds or
/// more after the last data.
pub proof fn law_a_round_is_judged_by_its_answer(
    run: Forwarding,
    watch: &mut EndWatch,
    tick: Pump,
    now_ns: u64,
    total: usize,
    s: Step,
)
    requires
        call_ensures(Forwarding::step, (&run, watch, &tick, now_ns, total), s),
    ensures
        s is Finish <==> tick is Data && run.answer is Some,
        tick is Ended ==> s is Fail,
        tick is Data ==> !(s is Fail),
        tick matches Pump::Quiet { exited } ==> (s is Fail <==> now_ns >= old(watch).last_data
            + 30_000_000_000 || (exited == Some(true) && old(watch).exit_quiet_since is Some
            && now_ns >= old(watch).exit_quiet_since->0 + 2_000_000_000)),
        tick is Data ==> final(watch).last_data == now_ns,
        !(tick is Data) ==> final(watch).last_data == old(watch).last_data,
{
}

/// A line adds a sample exactly when it is a fresh marker, and the sample leads
/// from the time that the marker carries to its arrival. A marker that was seen is
/// counted and no more.
pub proof fn law_a_sample_leads_from_its_marker_to_its_arrival(
    run: &mut FirstByte,
    line: &str,
    arrived_ns: u64,
)
    requires
        call_ensures(FirstByte::note, (run, line, arrived_ns), ()),
    ensures
        ({
            let read = marker_reading(encode_utf8(line@), 77, old(run).last_stamp);
            &&& read matches MarkerRead::Fresh(stamp) ==> {
                let samples = final(run).samples@;
                &&& samples.len() == old(run).samples@.len() + 1
                &&& samples.drop_last() == old(run).samples@
                &&& arrived_ns >= stamp ==> stamp + samples.last() == arrived_ns
            }
            &&& !(read is Fresh) ==> final(run).samples@ == old(run).samples@
            &&& read is Repaint <==> final(run).repaints == old(run).repaints + 1
            &&& !(read is Repaint) <==> final(run).repaints == old(run).repaints
        }),
{
    let ghost read = marker_reading(encode_utf8(line@), 77, old(run).last_stamp);
    if let MarkerRead::Fresh(stamp) = read {
        assert(final(run).samples@.drop_last() =~= old(run).samples@);
    }
}

/// A round's sample leads from when its input was written to the time that its
/// answer carries, and the next round starts without an answer.
pub proof fn law_a_round_leads_from_its_input_to_its_answer(run: &mut Forwarding, wrote_ns: u64)
    requires
        old(run).answer is Some,
        call_ensures(Forwarding::complete_round, (run, wrote_ns), ()),
    ensures
        final(run).samples@.len() == old(run).samples@.len() + 1,
        final(run).samples@.drop_last() == old(run).samples@,
        old(run).answer->0 >= wrote_ns ==> wrote_ns + final(run).samples@.last() == old(
            run,
        ).answer->0,
        final(run).answer is None,
{
    assert(final(run).samples@.drop_last() =~= old(run).samples@);
}

/// What is left of the samples is all but the first ones, as many as were to be
/// discarded, and a stream that ended short of its markers is refused.
pub proof fn law_the_first_samples_are_discarded(
    run: FirstByte,
    total: usize,
    discard: usize,
    r: Result<(Vec<u64>, u64), String>,
)
    requires
        discard <= total,
        call_ensures(FirstByte::finish, (run, total, discard), r),
    ensures
        r is Ok <==> run.samples@.len() >= total,
        r matches Ok((kept, repaints)) ==> {
            &&& kept@.len() == run.samples@.len() - discard
            &&& forall|i: int|
                0 <= i < kept@.len() ==> #[trigger] kept@[i] == run.samples@[i + discard]
            &&& repaints == run.repaints
        },
{
}

/// Markers that were seen before are remarked on exactly when there were any, with
/// their number.
pub proof fn law_repaints_are_remarked_on(options: Options, repaints: u64)
    ensures
        repaints == 0 ==> latency_notes(options, repaints).len() == 1,
        repaints > 0 ==> latency_notes(options, repaints).len() == 2 && latency_notes(
            options,
            repaints,
        )[1] == decimal(repaints as nat)
            + " re-sent or truncated markers were recognised and skipped, not sampled"@,
        latency_notes(options, repaints)[0] == latency_notes(options, 0)[0],
{
}

} // verus!
