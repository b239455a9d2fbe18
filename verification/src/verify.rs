//! Checking a generated stream as it arrives.
//!
//! Every line is checked against the line it should have been, the moment it
//! arrives, and a fault carries its line number, its byte offset and how far
//! into the run it happened. Faults are counted rather than fatal: the first
//! several are kept in full, the rest are counted.
//!
//! A POSIX terminal is a byte pipe: anything but what was written is
//! corruption. A re-rendering terminal may say a line again or cut it short,
//! and both are counted as repaints. A line that never arrives is a fault on
//! either.
//!
//! The stream comes from a generator that derives each line from its number
//! and can say the digest of its first lines at any position; what the
//! generator says is handed in with each arrived line.
use vstd::prelude::*;
use vstd::string::*;
use vstd::utf8::*;

use crate::lines::{behind, lemma_cut_at};
use crate::report::texts;
use crate::text::{
    begins_with, byte_len, char_width, chars_of, debug, debug_text, decimal, hex, is_at, push_hex,
    push_u64, push_usize, same_text, text_of, width,
};
use crate::utf8::lemma_encode_add;

verus! {

/// How many faults are described in full before the rest are only counted.
pub const DETAILED_FAULTS: usize = 16;

/// What a run of checking has found.
#[derive(Clone, Debug, PartialEq, Eq)]
pub struct Findings {
    /// Payload lines that matched their expected content.
    pub lines_verified: u64,
    /// Payload lines that never arrived.
    pub lines_lost: u64,
    /// Payload lines whose content was not what their number should say.
    pub content_faults: u64,
    /// Checksum lines whose digest did not match the payload before them.
    pub checksum_faults: u64,
    /// Checksum lines that matched.
    pub checksums_verified: u64,
    /// Lines that arrived again or cut short on a re-rendering terminal.
    pub repaints: u64,
    /// Lines that are no part of the generated stream.
    pub unrecognized: u64,
    /// The first faults, in full.
    pub detail: Vec<String>,
}

/// The contents of the findings.
pub struct FindingsView {
    pub lines_verified: nat,
    pub lines_lost: nat,
    pub content_faults: nat,
    pub checksum_faults: nat,
    pub checksums_verified: nat,
    pub repaints: nat,
    pub unrecognized: nat,
    pub detail: Seq<Seq<char>>,
}

impl View for Findings {
    type V = FindingsView;

    open spec fn view(&self) -> FindingsView {
        FindingsView {
            lines_verified: self.lines_verified as nat,
            lines_lost: self.lines_lost as nat,
            content_faults: self.content_faults as nat,
            checksum_faults: self.checksum_faults as nat,
            checksums_verified: self.checksums_verified as nat,
            repaints: self.repaints as nat,
            unrecognized: self.unrecognized as nat,
            detail: texts(self.detail@),
        }
    }
}

impl FindingsView {
    /// How many faults there are.
    pub open spec fn faults(self) -> nat {
        self.lines_lost + self.content_faults + self.checksum_faults
    }

    /// The findings with one more fault described, while there is room.
    pub open spec fn described(self, fault: Seq<char>) -> FindingsView {
        if self.detail.len() < DETAILED_FAULTS {
            FindingsView { detail: self.detail.push(fault), ..self }
        } else {
            self
        }
    }

    /// The findings in one line.
    pub open spec fn summary_text(self) -> Seq<char> {
        decimal(self.lines_verified) + " lines verified, "@ + decimal(self.checksums_verified)
            + " checksums verified, "@ + decimal(self.lines_lost) + " lost, "@ + decimal(
            self.content_faults,
        ) + " content faults, "@ + decimal(self.checksum_faults) + " checksum faults, "@ + decimal(
            self.repaints,
        ) + " repaints, "@ + decimal(self.unrecognized) + " unrecognized lines"@
    }
}

/// Nothing found yet.
pub open spec fn no_findings() -> FindingsView {
    FindingsView {
        lines_verified: 0,
        lines_lost: 0,
        content_faults: 0,
        checksum_faults: 0,
        checksums_verified: 0,
        repaints: 0,
        unrecognized: 0,
        detail: Seq::empty(),
    }
}

impl Default for Findings {
    fn default() -> (f: Self)
        ensures
            f@ == no_findings(),
    {
        let f = Findings {
            lines_verified: 0,
            lines_lost: 0,
            content_faults: 0,
            checksum_faults: 0,
            checksums_verified: 0,
            repaints: 0,
            unrecognized: 0,
            detail: Vec::new(),
        };
        assert(f@.detail =~= Seq::empty());
        f
    }
}

impl Findings {
    /// How many faults there are.
    pub fn faults(&self) -> (n: u64)
        requires
            self@.faults() <= u64::MAX,
        ensures
            n == self@.faults(),
    {
        self.lines_lost + self.content_faults + self.checksum_faults
    }

    /// Whether there are none.
    pub fn clean(&self) -> (clean: bool)
        ensures
            clean == (self@.faults() == 0),
    {
        self.lines_lost == 0 && self.content_faults == 0 && self.checksum_faults == 0
    }

    /// One line summarising the run, whether it passed or not.
    pub fn summary(&self) -> (text: String)
        ensures
            text@ == self@.summary_text(),
    {
        let mut text = String::new();
        push_u64(&mut text, self.lines_verified);
        text.append(" lines verified, ");
        push_u64(&mut text, self.checksums_verified);
        text.append(" checksums verified, ");
        push_u64(&mut text, self.lines_lost);
        text.append(" lost, ");
        push_u64(&mut text, self.content_faults);
        text.append(" content faults, ");
        push_u64(&mut text, self.checksum_faults);
        text.append(" checksum faults, ");
        push_u64(&mut text, self.repaints);
        text.append(" repaints, ");
        push_u64(&mut text, self.unrecognized);
        text.append(" unrecognized lines");
        assert(text@ =~= self@.summary_text());
        text
    }
}

/// A line of output as the generator reads it, with what the generator would
/// have said in its place.
#[derive(Clone, Debug)]
pub enum Arrived {
    /// Payload line `seq`. `expected` is the line in full, `L<seq> <payload>`.
    Payload { seq: u64, payload: String, expected: String },
    /// A digest over the first `covered` lines. `computed` is the generator's
    /// digest over the lines before the stream's position.
    Checksum { covered: u64, digest: u64, computed: u64 },
    /// No line of the stream.
    Unrecognized,
}

/// An arrived line's contents.
pub enum ArrivedView {
    Payload { seq: nat, payload: Seq<char>, expected: Seq<char> },
    Checksum { covered: nat, digest: u64, computed: u64 },
    Unrecognized,
}

impl View for Arrived {
    type V = ArrivedView;

    open spec fn view(&self) -> ArrivedView {
        match *self {
            Arrived::Payload { seq, payload, expected } => ArrivedView::Payload {
                seq: seq as nat,
                payload: payload@,
                expected: expected@,
            },
            Arrived::Checksum { covered, digest, computed } => ArrivedView::Checksum {
                covered: covered as nat,
                digest,
                computed,
            },
            Arrived::Unrecognized => ArrivedView::Unrecognized,
        }
    }
}

/// The payload half of a rendered line: what stands behind the first space.
pub open spec fn payload_of(line: Seq<char>) -> Seq<char> {
    behind(line, ' ')
}

/// The length of the longest common prefix.
pub open spec fn common_len(a: Seq<u8>, b: Seq<u8>) -> nat
    decreases a.len(),
{
    if a.len() == 0 || b.len() == 0 || a[0] != b[0] {
        0
    } else {
        1 + common_len(a.drop_first(), b.drop_first())
    }
}

/// How many characters at the front of a text fit in `bytes` bytes.
pub open spec fn fitting(s: Seq<char>, bytes: nat) -> nat
    decreases s.len(),
{
    if s.len() == 0 || width(s[0]) > bytes {
        0
    } else {
        1 + fitting(s.drop_first(), (bytes - width(s[0])) as nat)
    }
}

/// A text cut to what fits in 24 bytes, with what was left off counted.
pub open spec fn truncated(s: Seq<char>) -> Seq<char> {
    if byte_len(s) <= 24 {
        s
    } else {
        let kept = s.take(fitting(s, 24) as int);
        kept + "\u{2026}(+"@ + decimal((byte_len(s) - byte_len(kept)) as nat) + " bytes)"@
    }
}

/// What is said of lines that never arrived.
pub open spec fn lost_text(from: nat, to: nat, at_ns: nat) -> Seq<char> {
    "lines "@ + decimal(from) + ".."@ + decimal(to) + " never arrived ("@ + decimal(
        (to - from) as nat,
    ) + " lines) at "@ + decimal(at_ns / 1_000_000) + " ms into the run"@
}

/// What is said of a line that differs.
pub open spec fn differs_text(
    seq: nat,
    expected: Seq<char>,
    payload: Seq<char>,
    at_ns: nat,
) -> Seq<char> {
    "line "@ + decimal(seq) + " differs at byte "@ + decimal(
        common_len(encode_utf8(expected), encode_utf8(payload)),
    ) + " ("@ + decimal(at_ns / 1_000_000) + " ms into the run): expected "@ + debug_text(
        truncated(expected),
    ) + ", got "@ + debug_text(truncated(payload))
}

/// What is said of a line that arrived again.
pub open spec fn again_text(
    seq: nat,
    expected: Seq<char>,
    payload: Seq<char>,
    at_ns: nat,
) -> Seq<char> {
    let head = "line "@ + decimal(seq) + " arrived again at "@ + decimal(at_ns / 1_000_000);
    if begins_with(expected, payload) {
        head + " ms into the run \u{2014} a byte pipe does not repeat itself"@
    } else {
        head + " ms into the run, and differently: expected "@ + debug_text(truncated(expected))
            + ", got "@ + debug_text(truncated(payload))
    }
}

/// What is said of a checkpoint out of its place.
pub open spec fn misplaced_text(covered: nat, position: nat, at_ns: nat) -> Seq<char> {
    "a checksum over the first "@ + decimal(covered)
        + " lines arrived while the stream stood at line "@ + decimal(position) + " ("@ + decimal(
        at_ns / 1_000_000,
    )
        + " ms into the run) \u{2014} a byte pipe does not repeat or reorder its checkpoints"@
}

/// What is said of a digest that does not match.
pub open spec fn mismatch_text(covered: nat, digest: u64, expected: u64, at_ns: nat) -> Seq<char> {
    "checksum over the first "@ + decimal(covered) + " lines does not match at "@ + decimal(
        at_ns / 1_000_000,
    ) + " ms into the run: stream says "@ + hex(digest as nat, 16, false)
        + ", the lines that arrived say "@ + hex(expected as nat, 16, false)
}

/// What is said of a stream that stopped short.
pub open spec fn short_text(position: nat, lines_expected: nat) -> Seq<char> {
    "the run ended at line "@ + decimal(position) + " of "@ + decimal(lines_expected)
        + " \u{2014} "@ + decimal((lines_expected - position) as nat) + " lines never arrived"@
}

/// Where a check stands: what it has found, and how many payload lines are
/// accounted for.
pub struct Standing {
    pub found: FindingsView,
    pub next: nat,
}

/// The standing after lines before `seq` were skipped, if any were.
pub open spec fn caught_up(s: Standing, seq: nat, at_ns: nat) -> Standing {
    if seq > s.next {
        let lost = FindingsView {
            lines_lost: s.found.lines_lost + (seq - s.next) as nat,
            ..s.found
        };
        Standing { found: lost.described(lost_text(s.next, seq, at_ns)), next: seq }
    } else {
        s
    }
}

/// The standing after one arrived line.
pub open spec fn after_line(s: Standing, repainting: bool, line: ArrivedView, at_ns: nat) -> Standing {
    match line {
        ArrivedView::Unrecognized => Standing {
            found: FindingsView { unrecognized: s.found.unrecognized + 1, ..s.found },
            ..s
        },
        ArrivedView::Payload { seq, payload, expected } => {
            let c = caught_up(s, seq, at_ns);
            let should = payload_of(expected);
            let prefix = begins_with(should, payload);
            let repaint = FindingsView { repaints: c.found.repaints + 1, ..c.found };
            let fault = FindingsView { content_faults: c.found.content_faults + 1, ..c.found };
            if seq < c.next {
                if repainting && prefix {
                    Standing { found: repaint, ..c }
                } else {
                    Standing {
                        found: fault.described(again_text(seq, should, payload, at_ns)),
                        ..c
                    }
                }
            } else if should == payload {
                Standing {
                    found: FindingsView { lines_verified: c.found.lines_verified + 1, ..c.found },
                    next: c.next + 1,
                }
            } else if repainting && prefix {
                Standing { found: repaint, ..c }
            } else {
                Standing {
                    found: fault.described(differs_text(seq, should, payload, at_ns)),
                    next: c.next + 1,
                }
            }
        },
        ArrivedView::Checksum { covered, digest, computed } => {
            if covered != s.next && repainting {
                Standing {
                    found: FindingsView { repaints: s.found.repaints + 1, ..s.found },
                    ..s
                }
            } else if covered != s.next {
                let fault = FindingsView {
                    checksum_faults: s.found.checksum_faults + 1,
                    ..s.found
                };
                Standing {
                    found: fault.described(misplaced_text(covered, s.next, at_ns)),
                    ..s
                }
            } else if digest == computed {
                Standing {
                    found: FindingsView {
                        checksums_verified: s.found.checksums_verified + 1,
                        ..s.found
                    },
                    ..s
                }
            } else {
                let fault = FindingsView {
                    checksum_faults: s.found.checksum_faults + 1,
                    ..s.found
                };
                Standing {
                    found: fault.described(mismatch_text(covered, digest, computed, at_ns)),
                    ..s
                }
            }
        },
    }
}

/// The findings once the stream is over: what was promised and never came is lost.
pub open spec fn at_the_end(s: Standing, lines_expected: nat) -> FindingsView {
    if s.next < lines_expected {
        let lost = FindingsView {
            lines_lost: s.found.lines_lost + (lines_expected - s.next) as nat,
            ..s.found
        };
        lost.described(short_text(s.next, lines_expected))
    } else {
        s.found
    }
}

/// The payload half of a rendered `L<seq> <payload>` line.
pub fn expected_payload(line: &str) -> (payload: String)
    ensures
        payload@ == payload_of(line@),
{
    let chars = chars_of(line);
    let mut i: usize = 0;
    while i < chars.len() && chars[i] != ' '
        invariant
            i <= chars@.len(),
            forall|j: int| 0 <= j < i ==> chars@[j] != ' ',
        decreases chars@.len() - i,
    {
        i += 1;
    }
    proof {
        lemma_cut_at(chars@, ' ', i as int);
    }
    if i < chars.len() {
        assert(chars@.subrange(i + 1, chars@.len() as int) =~= chars@.skip(i + 1));
        text_of(vstd::slice::slice_subrange(chars.as_slice(), i + 1, chars.len()))
    } else {
        String::new()
    }
}

/// Whether a line carries the payload that its number should say.
pub fn payload_matches(expected_line: &str, payload: &str) -> (matches: bool)
    ensures
        matches == (payload_of(expected_line@) == payload@),
{
    same_text(expected_payload(expected_line).as_str(), payload)
}

/// The byte at which two texts part.
pub fn first_difference(expected: &str, got: &str) -> (at: usize)
    ensures
        at == common_len(encode_utf8(expected@), encode_utf8(got@)),
{
    let a = expected.as_bytes();
    let b = got.as_bytes();
    let mut i: usize = 0;
    proof {
        assert(a@.skip(0) =~= a@);
        assert(b@.skip(0) =~= b@);
    }
    while i < a.len() && i < b.len() && a[i] == b[i]
        invariant
            i <= a@.len(),
            i <= b@.len(),
            common_len(a@, b@) == i + common_len(a@.skip(i as int), b@.skip(i as int)),
        decreases a@.len() - i,
    {
        assert(a@.skip(i as int).drop_first() =~= a@.skip(i + 1));
        assert(b@.skip(i as int).drop_first() =~= b@.skip(i + 1));
        i += 1;
    }
    i
}

proof fn lemma_fitting(s: Seq<char>, bytes: nat)
    ensures
        fitting(s, bytes) <= s.len(),
        byte_len(s.take(fitting(s, bytes) as int)) <= bytes,
        byte_len(s.take(fitting(s, bytes) as int)) <= byte_len(s),
    decreases s.len(),
{
    let n = fitting(s, bytes) as int;
    if s.len() == 0 || width(s[0]) > bytes {
        assert(s.take(0) =~= Seq::empty());
    } else {
        lemma_fitting(s.drop_first(), (bytes - width(s[0])) as nat);
        assert(s.take(n).drop_first() =~= s.drop_first().take(n - 1));
    }
}

/// A text short enough for a fault report, cut on a character boundary.
pub fn truncate(text: &str) -> (short: String)
    ensures
        short@ == truncated(text@),
{
    let total: usize = text.as_bytes().len();
    if total <= 24 {
        return text.to_owned();
    }
    let chars = chars_of(text);
    let mut kept = String::new();
    let mut room: usize = 24;
    let mut i: usize = 0;
    proof {
        assert(chars@.skip(0) =~= chars@);
        assert(chars@.take(0) =~= Seq::empty());
    }
    while i < chars.len() && char_width(chars[i]) <= room
        invariant
            i <= chars@.len(),
            room <= 24,
            kept@ == chars@.take(i as int),
            byte_len(kept@) == 24 - room,
            fitting(chars@, 24) == i + fitting(chars@.skip(i as int), room as nat),
        decreases chars@.len() - i,
    {
        let c: char = chars[i];
        proof {
            assert(chars@.skip(i as int)[0] == c);
            assert(chars@.skip(i as int).drop_first() =~= chars@.skip(i + 1));
            assert(chars@.take(i + 1) =~= chars@.take(i as int).push(c));
            crate::utf8::lemma_encode_add(chars@.take(i as int), seq![c]);
            assert(chars@.take(i as int) + seq![c] =~= chars@.take(i + 1));
            reveal_with_fuel(encode_utf8, 2);
            assert(encode_utf8(seq![c]) =~= encode_scalar(c as u32)) by {
                assert(seq![c].drop_first() =~= Seq::<char>::empty());
            }
        }
        kept.push(c);
        room = room - char_width(c);
        i += 1;
    }
    proof {
        lemma_fitting(chars@, 24);
    }
    let mut short = kept;
    short.append("\u{2026}(+");
    push_usize(&mut short, total - (24 - room));
    short.append(" bytes)");
    short
}

/// Checks the lines of a generated stream.
pub struct Verifier {
    repainting_terminal: bool,
    next_seq: u64,
    findings: Findings,
}

impl Verifier {
    /// Where the check stands.
    pub closed spec fn standing(&self) -> Standing {
        Standing { found: self.findings@, next: self.next_seq as nat }
    }

    /// Whether the terminal under test re-renders rather than pipes.
    pub closed spec fn repaints_allowed(&self) -> bool {
        self.repainting_terminal
    }

    /// What every check keeps: no more lines are lost or verified than are
    /// accounted for, and the described faults stay within bounds.
    pub open spec fn wf(&self) -> bool {
        let s = self.standing();
        &&& s.found.lines_lost + s.found.lines_verified <= s.next <= u64::MAX
        &&& s.found.detail.len() <= DETAILED_FAULTS
    }

    /// Whether every event counter can still count.
    pub open spec fn has_room(&self) -> bool {
        let f = self.standing().found;
        &&& f.content_faults < u64::MAX
        &&& f.checksum_faults < u64::MAX
        &&& f.checksums_verified < u64::MAX
        &&& f.repaints < u64::MAX
        &&& f.unrecognized < u64::MAX
    }

    /// A check that has seen nothing, on a terminal that re-renders or pipes.
    pub fn new(repainting_terminal: bool) -> (v: Self)
        ensures
            v.standing() == (Standing { found: no_findings(), next: 0 }),
            v.repaints_allowed() == repainting_terminal,
            v.wf(),
            v.has_room(),
    {
        Verifier { repainting_terminal, next_seq: 0, findings: Findings::default() }
    }

    /// What has been found so far.
    pub fn findings(&self) -> (f: &Findings)
        ensures
            f@ == self.standing().found,
    {
        &self.findings
    }

    /// How many payload lines are accounted for: verified, lost or faulty.
    pub fn accounted(&self) -> (n: u64)
        ensures
            n == self.standing().next,
    {
        self.next_seq
    }

    /// Whether every event counter can still count.
    pub fn can_count(&self) -> (room: bool)
        ensures
            room == self.has_room(),
    {
        self.findings.content_faults < u64::MAX && self.findings.checksum_faults < u64::MAX
            && self.findings.checksums_verified < u64::MAX && self.findings.repaints < u64::MAX
            && self.findings.unrecognized < u64::MAX
    }

    fn fault(&mut self, detail: String)
        ensures
            final(self).standing() == (Standing {
                found: old(self).standing().found.described(detail@),
                ..old(self).standing()
            }),
            final(self).repaints_allowed() == old(self).repaints_allowed(),
    {
        broadcast use crate::report::lemma_texts_push;

        if self.findings.detail.len() < DETAILED_FAULTS {
            self.findings.detail.push(detail);
        }
    }

    /// Check one line of arrived output, `at_ns` into the run.
    pub fn feed(&mut self, line: &Arrived, at_ns: u64)
        requires
            old(self).wf(),
            old(self).has_room(),
            line matches Arrived::Payload { seq, .. } ==> seq < u64::MAX,
        ensures
            final(self).standing() == after_line(
                old(self).standing(),
                old(self).repaints_allowed(),
                line@,
                at_ns as nat,
            ),
            final(self).repaints_allowed() == old(self).repaints_allowed(),
            final(self).wf(),
    {
        match line {
            Arrived::Payload { seq, payload, expected } => {
                self.payload(*seq, payload.as_str(), expected.as_str(), at_ns);
            },
            Arrived::Checksum { covered, digest, computed } => {
                self.checksum(*covered, *digest, *computed, at_ns);
            },
            Arrived::Unrecognized => {
                self.findings.unrecognized = self.findings.unrecognized + 1;
            },
        }
    }

    fn payload(&mut self, seq: u64, payload: &str, expected: &str, at_ns: u64)
        requires
            old(self).wf(),
            old(self).has_room(),
            seq < u64::MAX,
        ensures
            final(self).standing() == after_line(
                old(self).standing(),
                old(self).repaints_allowed(),
                (ArrivedView::Payload { seq: seq as nat, payload: payload@, expected: expected@ }),
                at_ns as nat,
            ),
            final(self).repaints_allowed() == old(self).repaints_allowed(),
            final(self).wf(),
    {
        if seq > self.next_seq {
            let lost: u64 = seq - self.next_seq;
            let mut text = "lines ".to_owned();
            push_u64(&mut text, self.next_seq);
            text.append("..");
            push_u64(&mut text, seq);
            text.append(" never arrived (");
            push_u64(&mut text, lost);
            text.append(" lines) at ");
            push_u64(&mut text, at_ns / 1_000_000);
            text.append(" ms into the run");
            self.findings.lines_lost = self.findings.lines_lost + lost;
            self.fault(text);
            self.next_seq = seq;
        }
        let should = expected_payload(expected);
        if seq < self.next_seq {
            self.repeat(seq, payload, should.as_str(), at_ns);
            return ;
        }
        if same_text(should.as_str(), payload) {
            self.findings.lines_verified = self.findings.lines_verified + 1;
            self.next_seq = self.next_seq + 1;
            return ;
        }
        if self.repainting_terminal && is_at(
            chars_of(should.as_str()).as_slice(),
            chars_of(payload).as_slice(),
            0,
        ) {
            self.findings.repaints = self.findings.repaints + 1;
            return ;
        }
        self.findings.content_faults = self.findings.content_faults + 1;
        let mut text = "line ".to_owned();
        push_u64(&mut text, seq);
        text.append(" differs at byte ");
        push_usize(&mut text, first_difference(should.as_str(), payload));
        text.append(" (");
        push_u64(&mut text, at_ns / 1_000_000);
        text.append(" ms into the run): expected ");
        text.append(debug(truncate(should.as_str()).as_str()).as_str());
        text.append(", got ");
        text.append(debug(truncate(payload).as_str()).as_str());
        self.fault(text);
        self.next_seq = self.next_seq + 1;
    }

    fn repeat(&mut self, seq: u64, payload: &str, should: &str, at_ns: u64)
        requires
            old(self).wf(),
            old(self).has_room(),
        ensures
            ({
                let c = old(self).standing();
                let prefix = begins_with(should@, payload@);
                let fault = FindingsView { content_faults: c.found.content_faults + 1, ..c.found };
                final(self).standing() == if old(self).repaints_allowed() && prefix {
                    Standing {
                        found: FindingsView { repaints: c.found.repaints + 1, ..c.found },
                        ..c
                    }
                } else {
                    Standing {
                        found: fault.described(
                            again_text(seq as nat, should@, payload@, at_ns as nat),
                        ),
                        ..c
                    }
                }
            }),
            final(self).repaints_allowed() == old(self).repaints_allowed(),
            final(self).wf(),
    {
        let plausible = is_at(chars_of(should).as_slice(), chars_of(payload).as_slice(), 0);
        if self.repainting_terminal && plausible {
            self.findings.repaints = self.findings.repaints + 1;
            return ;
        }
        self.findings.content_faults = self.findings.content_faults + 1;
        let mut text = "line ".to_owned();
        push_u64(&mut text, seq);
        text.append(" arrived again at ");
        push_u64(&mut text, at_ns / 1_000_000);
        if plausible {
            text.append(" ms into the run \u{2014} a byte pipe does not repeat itself");
        } else {
            text.append(" ms into the run, and differently: expected ");
            text.append(debug(truncate(should).as_str()).as_str());
            text.append(", got ");
            text.append(debug(truncate(payload).as_str()).as_str());
        }
        self.fault(text);
    }

    fn checksum(&mut self, covered: u64, digest: u64, computed: u64, at_ns: u64)
        requires
            old(self).wf(),
            old(self).has_room(),
        ensures
            final(self).standing() == after_line(
                old(self).standing(),
                old(self).repaints_allowed(),
                (ArrivedView::Checksum { covered: covered as nat, digest, computed }),
                at_ns as nat,
            ),
            final(self).repaints_allowed() == old(self).repaints_allowed(),
            final(self).wf(),
    {
        if covered != self.next_seq {
            if self.repainting_terminal {
                self.findings.repaints = self.findings.repaints + 1;
            } else {
                self.findings.checksum_faults = self.findings.checksum_faults + 1;
                let mut text = "a checksum over the first ".to_owned();
                push_u64(&mut text, covered);
                text.append(" lines arrived while the stream stood at line ");
                push_u64(&mut text, self.next_seq);
                text.append(" (");
                push_u64(&mut text, at_ns / 1_000_000);
                text.append(
                    " ms into the run) \u{2014} a byte pipe does not repeat or reorder its checkpoints",
                );
                self.fault(text);
            }
            return ;
        }
        if digest == computed {
            self.findings.checksums_verified = self.findings.checksums_verified + 1;
            return ;
        }
        self.findings.checksum_faults = self.findings.checksum_faults + 1;
        let mut text = "checksum over the first ".to_owned();
        push_u64(&mut text, covered);
        text.append(" lines does not match at ");
        push_u64(&mut text, at_ns / 1_000_000);
        text.append(" ms into the run: stream says ");
        push_hex(&mut text, digest, 16, false);
        text.append(", the lines that arrived say ");
        push_hex(&mut text, computed, 16, false);
        self.fault(text);
    }

    /// Finish: any line that the stream promised and never delivered is lost.
    pub fn finish(self, lines_expected: u64) -> (f: Findings)
        requires
            self.wf(),
        ensures
            f@ == at_the_end(self.standing(), lines_expected as nat),
    {
        let mut v = self;
        if v.next_seq < lines_expected {
            let lost: u64 = lines_expected - v.next_seq;
            let mut text = "the run ended at line ".to_owned();
            push_u64(&mut text, v.next_seq);
            text.append(" of ");
            push_u64(&mut text, lines_expected);
            text.append(" \u{2014} ");
            push_u64(&mut text, lost);
            text.append(" lines never arrived");
            v.findings.lines_lost = v.findings.lines_lost + lost;
            v.fault(text);
        }
        v.findings
    }
}

/// The standing after a run of arrived lines, each with its time into the run.
pub open spec fn after_lines(
    s: Standing,
    repainting: bool,
    lines: Seq<(ArrivedView, nat)>,
) -> Standing
    decreases lines.len(),
{
    if lines.len() == 0 {
        s
    } else {
        after_lines(
            after_line(s, repainting, lines[0].0, lines[0].1),
            repainting,
            lines.drop_first(),
        )
    }
}

/// Whether lines are what the generator says from position `next` on: every
/// payload line in its turn and in full, every checkpoint at its place.
pub open spec fn intact(lines: Seq<(ArrivedView, nat)>, next: nat) -> bool
    decreases lines.len(),
{
    if lines.len() == 0 {
        true
    } else {
        match lines[0].0 {
            ArrivedView::Payload { seq, payload, expected } => {
                &&& seq == next
                &&& payload == payload_of(expected)
                &&& intact(lines.drop_first(), next + 1)
            },
            ArrivedView::Checksum { covered, digest, computed } => {
                &&& covered == next
                &&& digest == computed
                &&& intact(lines.drop_first(), next)
            },
            ArrivedView::Unrecognized => false,
        }
    }
}

/// How many of the lines are payload lines.
pub open spec fn payload_count(lines: Seq<(ArrivedView, nat)>) -> nat
    decreases lines.len(),
{
    if lines.len() == 0 {
        0
    } else {
        payload_count(lines.drop_first()) + if lines[0].0 is Payload {
            1nat
        } else {
            0nat
        }
    }
}

/// How many of the lines are checkpoints.
pub open spec fn checkpoint_count(lines: Seq<(ArrivedView, nat)>) -> nat
    decreases lines.len(),
{
    if lines.len() == 0 {
        0
    } else {
        checkpoint_count(lines.drop_first()) + if lines[0].0 is Checksum {
            1nat
        } else {
            0nat
        }
    }
}

/// An intact stream is clean on either kind of terminal: every payload line and
/// every checkpoint is verified, and nothing else is counted.
pub proof fn law_an_intact_stream_is_clean(
    s: Standing,
    repainting: bool,
    lines: Seq<(ArrivedView, nat)>,
)
    requires
        intact(lines, s.next),
    ensures
        after_lines(s, repainting, lines) == (Standing {
            found: FindingsView {
                lines_verified: s.found.lines_verified + payload_count(lines),
                checksums_verified: s.found.checksums_verified + checkpoint_count(lines),
                ..s.found
            },
            next: s.next + payload_count(lines),
        }),
    decreases lines.len(),
{
    if lines.len() > 0 {
        law_an_intact_stream_is_clean(
            after_line(s, repainting, lines[0].0, lines[0].1),
            repainting,
            lines.drop_first(),
        );
    }
}

/// A gap is counted as the lines that it lost and poisons nothing after it: if
/// the stream goes on intact behind the gap, every later line and checkpoint
/// is verified.
pub proof fn law_a_gap_is_only_its_lost_lines(
    s: Standing,
    repainting: bool,
    lines: Seq<(ArrivedView, nat)>,
    resumed: nat,
)
    requires
        lines.len() > 0,
        lines[0].0 is Payload,
        s.next < resumed,
        intact(lines, resumed),
    ensures
        ({
            let after = after_lines(s, repainting, lines);
            &&& after.next == resumed + payload_count(lines)
            &&& after.found.lines_lost == s.found.lines_lost + (resumed - s.next)
            &&& after.found.lines_verified == s.found.lines_verified + payload_count(lines)
            &&& after.found.checksums_verified == s.found.checksums_verified + checkpoint_count(
                lines,
            )
            &&& after.found.content_faults == s.found.content_faults
            &&& after.found.checksum_faults == s.found.checksum_faults
            &&& after.found.repaints == s.found.repaints
            &&& after.found.unrecognized == s.found.unrecognized
        }),
{
    law_an_intact_stream_is_clean(
        after_line(s, repainting, lines[0].0, lines[0].1),
        repainting,
        lines.drop_first(),
    );
}

/// A line said again in full or in part is a repaint on a re-rendering terminal
/// and a fault on a pipe; a line said again differently is a fault on both.
/// None of the three moves the stream's position.
pub proof fn law_a_repaint_is_no_hiding_place(
    s: Standing,
    seq: nat,
    payload: Seq<char>,
    expected: Seq<char>,
    at_ns: nat,
)
    requires
        seq < s.next,
    ensures
        ({
            let line = ArrivedView::Payload { seq, payload, expected };
            let rendered = after_line(s, true, line, at_ns);
            let piped = after_line(s, false, line, at_ns);
            let same = begins_with(payload_of(expected), payload);
            &&& rendered.next == s.next
            &&& piped.next == s.next
            &&& piped.found.faults() == s.found.faults() + 1
            &&& same ==> rendered.found == (FindingsView {
                repaints: s.found.repaints + 1,
                ..s.found
            })
            &&& !same ==> rendered.found.faults() == s.found.faults() + 1
        }),
{
}

/// Terminal noise is neither a fault nor a verified line.
pub proof fn law_noise_is_only_counted(s: Standing, repainting: bool, at_ns: nat)
    ensures
        after_line(s, repainting, ArrivedView::Unrecognized, at_ns) == (Standing {
            found: FindingsView { unrecognized: s.found.unrecognized + 1, ..s.found },
            next: s.next,
        }),
{
}

/// Faults are counted past the point where they stop being described, and the
/// stream's position never goes back.
pub proof fn law_counting_outlives_description(
    s: Standing,
    repainting: bool,
    line: ArrivedView,
    at_ns: nat,
)
    requires
        s.found.detail.len() <= DETAILED_FAULTS,
    ensures
        ({
            let after = after_line(s, repainting, line, at_ns);
            &&& after.found.detail.len() <= DETAILED_FAULTS
            &&& s.found.detail.is_prefix_of(after.found.detail)
            &&& after.next >= s.next
            &&& after.found.faults() >= s.found.faults()
            &&& after.found.detail.len() > s.found.detail.len() ==> after.found.faults()
                > s.found.faults()
        }),
{
}

/// Every payload line that a check has accounted for is one that it verified,
/// lost or found faulty, and none is both verified and lost: whatever arrives,
/// the position stays between the two counts.
pub proof fn law_every_accounted_line_was_counted(
    repainting: bool,
    lines: Seq<(ArrivedView, nat)>,
)
    ensures
        ({
            let s = after_lines(Standing { found: no_findings(), next: 0 }, repainting, lines);
            &&& s.found.lines_verified + s.found.lines_lost <= s.next
            &&& s.next <= s.found.lines_verified + s.found.lines_lost + s.found.content_faults
        }),
{
    lemma_counted(Standing { found: no_findings(), next: 0 }, repainting, lines);
}

proof fn lemma_counted(s: Standing, repainting: bool, lines: Seq<(ArrivedView, nat)>)
    requires
        s.found.lines_verified + s.found.lines_lost <= s.next,
        s.next <= s.found.lines_verified + s.found.lines_lost + s.found.content_faults,
    ensures
        ({
            let after = after_lines(s, repainting, lines);
            &&& after.found.lines_verified + after.found.lines_lost <= after.next
            &&& after.next <= after.found.lines_verified + after.found.lines_lost
                + after.found.content_faults
        }),
    decreases lines.len(),
{
    if lines.len() > 0 {
        lemma_counted(
            after_line(s, repainting, lines[0].0, lines[0].1),
            repainting,
            lines.drop_first(),
        );
    }
}

/// A payload line at the stream's position is verified exactly where it says what
/// was expected of it, no more and no less. On a pipe anything else is one content
/// fault; on a re-rendering terminal a line cut short is a repaint that leaves the
/// position where it is. `expected` is the line number, a space and the payload.
pub proof fn law_only_the_expected_payload_is_verified(
    s: Standing,
    repainting: bool,
    number: Seq<char>,
    should: Seq<char>,
    payload: Seq<char>,
    at_ns: nat,
)
    requires
        !number.contains(' '),
    ensures
        ({
            let expected = number.push(' ') + should;
            let line = ArrivedView::Payload { seq: s.next, payload, expected };
            let after = after_line(s, repainting, line, at_ns);
            let cut_short = payload.len() < should.len() && payload == should.take(
                payload.len() as int,
            );
            &&& after.found.lines_verified - s.found.lines_verified == if payload == should {
                1int
            } else {
                0int
            }
            &&& after.found.content_faults - s.found.content_faults == if payload == should || (
            repainting && cut_short) {
                0int
            } else {
                1int
            }
            &&& after.found.repaints - s.found.repaints == if repainting && cut_short {
                1int
            } else {
                0int
            }
            &&& after.next - s.next == if repainting && cut_short {
                0int
            } else {
                1int
            }
            &&& after.found.lines_lost == s.found.lines_lost
            &&& after.found.checksum_faults == s.found.checksum_faults
            &&& after.found.checksums_verified == s.found.checksums_verified
            &&& after.found.unrecognized == s.found.unrecognized
        }),
{
    lemma_payload_half(number, should);
    lemma_prefix(should, payload);
}

/// A payload line ahead of the stream's position loses the lines before it, and
/// is judged as the line that it is; one behind the position is never verified.
pub proof fn law_a_line_out_of_place_is_judged_as_its_own(
    s: Standing,
    repainting: bool,
    seq: nat,
    number: Seq<char>,
    should: Seq<char>,
    payload: Seq<char>,
    at_ns: nat,
)
    requires
        !number.contains(' '),
        seq != s.next,
    ensures
        ({
            let expected = number.push(' ') + should;
            let line = ArrivedView::Payload { seq, payload, expected };
            let after = after_line(s, repainting, line, at_ns);
            let prefix = payload.len() <= should.len() && payload == should.take(
                payload.len() as int,
            );
            &&& after.found.lines_lost - s.found.lines_lost == if seq > s.next {
                seq - s.next
            } else {
                0
            }
            &&& after.found.lines_verified - s.found.lines_verified == if seq > s.next && payload
                == should {
                1int
            } else {
                0int
            }
            &&& after.next == if seq < s.next {
                s.next as int
            } else if repainting && prefix && payload != should {
                seq as int
            } else {
                (seq + 1) as int
            }
            &&& after.found.content_faults - s.found.content_faults == if (seq > s.next && payload
                == should) || (repainting && prefix) {
                0int
            } else {
                1int
            }
            &&& after.found.repaints - s.found.repaints == if repainting && prefix && !(seq > s.next
                && payload == should) {
                1int
            } else {
                0int
            }
        }),
{
    lemma_payload_half(number, should);
    lemma_prefix(should, payload);
}

/// A checkpoint is verified exactly where it stands at the stream's position and
/// its digest is the one computed. On a pipe any other is one checksum fault; on a
/// re-rendering terminal one that stands elsewhere is a repaint. None moves the
/// position.
pub proof fn law_only_the_computed_digest_is_verified(
    s: Standing,
    repainting: bool,
    covered: nat,
    digest: u64,
    computed: u64,
    at_ns: nat,
)
    ensures
        ({
            let after = after_line(
                s,
                repainting,
                ArrivedView::Checksum { covered, digest, computed },
                at_ns,
            );
            let good = covered == s.next && digest == computed;
            let again = repainting && covered != s.next;
            &&& after.next == s.next
            &&& after.found.checksums_verified - s.found.checksums_verified == if good {
                1int
            } else {
                0int
            }
            &&& after.found.checksum_faults - s.found.checksum_faults == if good || again {
                0int
            } else {
                1int
            }
            &&& after.found.repaints - s.found.repaints == if again {
                1int
            } else {
                0int
            }
            &&& after.found.lines_verified == s.found.lines_verified
            &&& after.found.lines_lost == s.found.lines_lost
            &&& after.found.content_faults == s.found.content_faults
        }),
{
}

/// A stream that stops short of what was promised has lost the rest, and one that
/// does not has lost nothing more.
pub proof fn law_what_never_came_is_lost(s: Standing, lines_expected: nat)
    ensures
        ({
            let found = at_the_end(s, lines_expected);
            &&& found.lines_lost == s.found.lines_lost + if lines_expected > s.next {
                lines_expected - s.next
            } else {
                0
            }
            &&& found.lines_verified == s.found.lines_verified
            &&& found.content_faults == s.found.content_faults
            &&& found.checksum_faults == s.found.checksum_faults
            &&& found.checksums_verified == s.found.checksums_verified
            &&& lines_expected <= s.next ==> found == s.found
        }),
{
}

proof fn lemma_payload_half(number: Seq<char>, should: Seq<char>)
    requires
        !number.contains(' '),
    ensures
        payload_of(number.push(' ') + should) == should,
{
    let line = number.push(' ') + should;
    assert forall|i: int| 0 <= i < number.len() implies line[i] != ' ' by {
        assert(number.contains(number[i]));
    }
    crate::lines::lemma_cut_at(line, ' ', number.len() as int);
    assert(line.skip(number.len() as int + 1) =~= should);
}

proof fn lemma_prefix(text: Seq<char>, prefix: Seq<char>)
    ensures
        begins_with(text, prefix) <==> prefix.len() <= text.len() && prefix == text.take(
            prefix.len() as int,
        ),
        prefix.len() == text.len() && begins_with(text, prefix) ==> prefix == text,
{
    if begins_with(text, prefix) {
        assert(prefix =~= text.take(prefix.len() as int));
        if prefix.len() == text.len() {
            assert(prefix =~= text);
        }
    }
    if prefix.len() <= text.len() && prefix == text.take(prefix.len() as int) {
        assert(text.subrange(0, prefix.len() as int) =~= prefix);
    }
}

/// Two texts part at the first place where they differ, or where the shorter ends.
pub proof fn law_texts_part_at_their_first_difference(a: Seq<u8>, b: Seq<u8>, k: nat)
    requires
        k <= a.len(),
        k <= b.len(),
        forall|i: int| 0 <= i < k ==> a[i] == b[i],
        k == a.len() || k == b.len() || a[k as int] != b[k as int],
    ensures
        common_len(a, b) == k,
    decreases k,
{
    if k > 0 {
        let x = a.drop_first();
        let y = b.drop_first();
        assert(a[0] == b[0]);
        assert forall|i: int| 0 <= i < k - 1 implies x[i] == y[i] by {
            assert(a[i + 1] == b[i + 1]);
        }
        law_texts_part_at_their_first_difference(x, y, (k - 1) as nat);
    }
}

/// The first sixteen faults are described, each behind those before it, and no
/// count depends on whether there was room.
pub proof fn law_the_first_faults_are_described(found: FindingsView, fault: Seq<char>)
    ensures
        found.detail.len() < 16 ==> found.described(fault).detail == found.detail.push(fault),
        found.detail.len() >= 16 ==> found.described(fault).detail == found.detail,
        ({
            let after = found.described(fault);
            &&& after.lines_verified == found.lines_verified
            &&& after.lines_lost == found.lines_lost
            &&& after.content_faults == found.content_faults
            &&& after.checksum_faults == found.checksum_faults
            &&& after.checksums_verified == found.checksums_verified
            &&& after.repaints == found.repaints
            &&& after.unrecognized == found.unrecognized
        }),
        found.faults() == found.lines_lost + found.content_faults + found.checksum_faults,
{
}

/// Each fault is described with where it stands and when it came: the lines that
/// were lost, the line that differs and the byte at which, the digests that do not
/// agree, and what never came.
pub proof fn law_a_fault_says_where_it_stands(
    s: Standing,
    repainting: bool,
    seq: nat,
    number: Seq<char>,
    should: Seq<char>,
    payload: Seq<char>,
    at_ns: nat,
    k: nat,
)
    requires
        !number.contains(' '),
        s.found.detail.len() == 0,
        seq >= s.next,
        payload != should,
        !repainting,
        k <= encode_utf8(should).len(),
        k <= encode_utf8(payload).len(),
        forall|i: int| 0 <= i < k ==> encode_utf8(should)[i] == encode_utf8(payload)[i],
        k == encode_utf8(should).len() || k == encode_utf8(payload).len() || encode_utf8(
            should,
        )[k as int] != encode_utf8(payload)[k as int],
    ensures
        ({
            let expected = number.push(' ') + should;
            let line = ArrivedView::Payload { seq, payload, expected };
            let said = after_line(s, repainting, line, at_ns).found.detail;
            let differs = "line "@ + decimal(seq) + " differs at byte "@ + decimal(k) + " ("@
                + decimal(at_ns / 1_000_000) + " ms into the run): expected "@ + debug_text(
                truncated(should),
            ) + ", got "@ + debug_text(truncated(payload));
            let lost = "lines "@ + decimal(s.next) + ".."@ + decimal(seq) + " never arrived ("@
                + decimal((seq - s.next) as nat) + " lines) at "@ + decimal(at_ns / 1_000_000)
                + " ms into the run"@;
            said == if seq > s.next {
                seq![lost, differs]
            } else {
                seq![differs]
            }
        }),
{
    lemma_payload_half(number, should);
    law_texts_part_at_their_first_difference(encode_utf8(should), encode_utf8(payload), k);
    let expected = number.push(' ') + should;
    let line = ArrivedView::Payload { seq, payload, expected };
    let said = after_line(s, repainting, line, at_ns).found.detail;
    if seq > s.next {
        assert(said =~= seq![
            lost_text(s.next, seq, at_ns),
            differs_text(seq, should, payload, at_ns),
        ]);
    } else {
        assert(said =~= seq![differs_text(seq, should, payload, at_ns)]);
    }
}

/// A checkpoint that does not agree is described with both digests, one out of its
/// place with both places, and a stream that stopped short with what is missing.
pub proof fn law_a_failed_checkpoint_says_why(
    s: Standing,
    covered: nat,
    digest: u64,
    computed: u64,
    at_ns: nat,
    promised: nat,
)
    requires
        s.found.detail.len() == 0,
    ensures
        ({
            let line = ArrivedView::Checksum { covered, digest, computed };
            let said = after_line(s, false, line, at_ns).found.detail;
            let ms = decimal(at_ns / 1_000_000);
            &&& covered == s.next && digest != computed ==> said == seq![
                "checksum over the first "@ + decimal(covered) + " lines does not match at "@ + ms
                    + " ms into the run: stream says "@ + hex(digest as nat, 16, false)
                    + ", the lines that arrived say "@ + hex(computed as nat, 16, false),
            ]
            &&& covered != s.next ==> said == seq![
                "a checksum over the first "@ + decimal(covered)
                    + " lines arrived while the stream stood at line "@ + decimal(s.next) + " ("@
                    + ms
                    + " ms into the run) \u{2014} a byte pipe does not repeat or reorder its checkpoints"@,
            ]
        }),
        promised > s.next ==> at_the_end(s, promised).detail == seq![
            "the run ended at line "@ + decimal(s.next) + " of "@ + decimal(promised)
                + " \u{2014} "@ + decimal((promised - s.next) as nat) + " lines never arrived"@,
        ],
{
    let line = ArrivedView::Checksum { covered, digest, computed };
    let said = after_line(s, false, line, at_ns).found.detail;
    if covered != s.next {
        assert(said =~= seq![misplaced_text(covered, s.next, at_ns)]);
    } else if digest != computed {
        assert(said =~= seq![mismatch_text(covered, digest, computed, at_ns)]);
    }
    if promised > s.next {
        assert(at_the_end(s, promised).detail =~= seq![short_text(s.next, promised)]);
    }
}

/// A long text is cut to as many whole characters as fit in 24 bytes, and what was
/// left off is counted in bytes; a short one is left alone.
pub proof fn law_a_long_text_is_cut_and_counted(s: Seq<char>)
    ensures
        encode_utf8(s).len() <= 24 ==> truncated(s) == s,
        encode_utf8(s).len() > 24 ==> exists|n: int|
            0 <= n < s.len() && encode_utf8(s.take(n)).len() <= 24 && encode_utf8(
                s.take(n + 1),
            ).len() > 24 && truncated(s) == #[trigger] s.take(n) + "\u{2026}(+"@ + decimal(
                (encode_utf8(s).len() - encode_utf8(s.take(n)).len()) as nat,
            ) + " bytes)"@,
{
    if byte_len(s) > 24 {
        let n = fitting(s, 24) as int;
        lemma_fitting(s, 24);
        lemma_fitting_is_most(s, 24);
        assert(s.take(s.len() as int) =~= s);
        assert(truncated(s) == s.take(n) + "\u{2026}(+"@ + decimal(
            (byte_len(s) - byte_len(s.take(n))) as nat,
        ) + " bytes)"@);
    }
}

proof fn lemma_fitting_is_most(s: Seq<char>, bytes: nat)
    ensures
        fitting(s, bytes) < s.len() ==> byte_len(s.take(fitting(s, bytes) as int + 1)) > bytes,
    decreases s.len(),
{
    if s.len() > 0 {
        let rest = s.drop_first();
        let n = fitting(s, bytes) as int;
        lemma_fitting(s, bytes);
        if width(s[0]) <= bytes {
            lemma_fitting_is_most(rest, (bytes - width(s[0])) as nat);
        }
        if n < s.len() {
            let kept = s.take(n + 1);
            assert(kept.drop_first() =~= rest.take(n));
            assert(kept =~= seq![s[0]] + rest.take(n));
            lemma_encode_add(seq![s[0]], rest.take(n));
            lemma_one_char(s[0]);
        }
    }
}

proof fn lemma_one_char(c: char)
    ensures
        byte_len(seq![c]) == width(c),
{
    let one = seq![c];
    reveal_with_fuel(encode_utf8, 2);
    assert(one.drop_first().len() == 0);
    assert(encode_utf8(one) =~= encode_scalar(c as u32));
}

/// A payload line fed at the stream's position counts as verified exactly where it
/// says what was expected of it, no more and no less; one with a byte too many or
/// another byte is a content fault. `expected` is the line number, a space and
/// what the line should say.
pub proof fn law_a_fed_line_is_verified_only_as_expected(
    verifier: &mut Verifier,
    line: Arrived,
    at_ns: u64,
    number: Seq<char>,
    should: Seq<char>,
    says: Seq<char>,
)
    requires
        call_ensures(Verifier::feed, (verifier, &line, at_ns), ()),
        !number.contains(' '),
        line@ == (ArrivedView::Payload {
            seq: old(verifier).standing().next,
            payload: says,
            expected: number.push(' ') + should,
        }),
    ensures
        ({
            let before = old(verifier).standing().found;
            let after = final(verifier).standing().found;
            let cut_short = old(verifier).repaints_allowed() && says.len() < should.len() && says
                == should.take(says.len() as int);
            &&& says == should ==> after.lines_verified == before.lines_verified + 1
                && after.content_faults == before.content_faults && after.repaints
                == before.repaints
            &&& says != should ==> after.lines_verified == before.lines_verified
            &&& says != should && !cut_short ==> after.content_faults == before.content_faults + 1
            &&& cut_short ==> after.repaints == before.repaints + 1
            &&& after.lines_lost == before.lines_lost
            &&& after.checksum_faults == before.checksum_faults
            &&& after.checksums_verified == before.checksums_verified
            &&& after.unrecognized == before.unrecognized
        }),
{
    law_only_the_expected_payload_is_verified(
        old(verifier).standing(),
        old(verifier).repaints_allowed(),
        number,
        should,
        says,
        at_ns as nat,
    );
}

/// A line that came again is told by its number and the whole milliseconds into
/// the run, and by both texts where it does not begin as was expected.
pub proof fn law_a_repeated_line_is_told_by_its_time(
    seq: nat,
    expected: Seq<char>,
    payload: Seq<char>,
    at_ns: nat,
    ms: nat,
)
    requires
        ms * 1_000_000 <= at_ns < (ms + 1) * 1_000_000,
    ensures
        again_text(seq, expected, payload, at_ns) == "line "@ + decimal(seq) + " arrived again at "@
            + decimal(ms) + if begins_with(expected, payload) {
            " ms into the run \u{2014} a byte pipe does not repeat itself"@
        } else {
            " ms into the run, and differently: expected "@ + debug_text(truncated(expected))
                + ", got "@ + debug_text(truncated(payload))
        },
{
    let head = "line "@ + decimal(seq) + " arrived again at "@ + decimal(ms);
    let (a, b, c, d) = (
        " ms into the run, and differently: expected "@,
        debug_text(truncated(expected)),
        ", got "@,
        debug_text(truncated(payload)),
    );
    assert(head + a + b + c + d =~= head + (a + b + c + d));
}

} // verus!
