//! The recorded-workload lane: real CLI traffic, replayed at its captured
//! pacing.
//!
//! A replay compiles a plan from one or more recordings: every chunk's size and
//! every gap before it, looped end to end until the plan covers the requested
//! duration. Idle gaps above a threshold can be shortened by a divisor; gaps
//! below it, the burst structure, are never touched.
//!
//! What fills the chunks is either the captured bytes themselves (recorded) or
//! the generator's line stream cut to the same sizes (generated).
use vstd::prelude::*;
use vstd::slice::slice_subrange;
use vstd::string::*;
use vstd::utf8::*;

use crate::double::{human_ns, human_ns_text};
use crate::lines::{behind, cut, lemma_cut_at};
use crate::report::texts;
use crate::text::{
    chars_of, debug, debug_text, decimal, number_value, parse_number, push_u128, push_u64,
    push_usize, same_text, text_of,
};
use crate::total::sum;

verus! {

/// Longest the lane waits with nothing arriving, in nanoseconds.
pub const STALL: u64 = 120_000_000_000;

/// How long past its scheduled end the child gets, in nanoseconds.
pub const OVERRUN_GRACE: u64 = 60_000_000_000;

/// What fills the chunks of a plan.
#[derive(Clone, Copy, Debug, PartialEq, Eq, Structural)]
pub enum Mode {
    Recorded,
    Generated,
}

impl Mode {
    /// The mode's name.
    pub open spec fn label(self) -> Seq<char> {
        match self {
            Mode::Recorded => "recorded"@,
            Mode::Generated => "generated"@,
        }
    }

    /// The mode's name.
    pub fn name(self) -> (name: &'static str)
        ensures
            name@ == self.label(),
    {
        match self {
            Mode::Recorded => "recorded",
            Mode::Generated => "generated",
        }
    }
}

/// One captured fixture's pacing and bytes.
#[derive(Clone, Debug)]
pub struct Fixture {
    pub name: String,
    pub cols: u16,
    pub rows: u16,
    /// The gap from the previous chunk in nanoseconds, and the chunk's length.
    /// The first gap is the recording's lead-in.
    pub chunks: Vec<(u64, u32)>,
    pub bytes: Vec<u8>,
}

/// One line of a recording's timing: where a chunk starts, and when it came.
#[derive(Clone, Copy, Debug, PartialEq, Eq, Structural)]
pub struct TimingRecord {
    pub offset: u64,
    pub monotonic_ns: u64,
}

/// The index of the last `c`, or -1.
pub open spec fn last_of(s: Seq<char>, c: char) -> int
    decreases s.len(),
{
    if s.len() == 0 {
        -1
    } else if s.last() == c {
        s.len() - 1
    } else {
        last_of(s.drop_last(), c)
    }
}

/// The columns and rows that a `<cols>x<rows>` text spells.
pub open spec fn dims_of(dims: Seq<char>) -> Option<(u16, u16)> {
    let k = cut(dims, 'x');
    if k >= dims.len() {
        None
    } else {
        match (number_value(dims.take(k), 65535), number_value(behind(dims, 'x'), 65535)) {
            (Ok(c), Ok(r)) => Some((c as u16, r as u16)),
            _ => None,
        }
    }
}

/// The dimensions that a fixture's name gives, or what is wrong with the name.
pub open spec fn dims_reading(name: Seq<char>) -> Result<(u16, u16), Seq<char>> {
    let i = last_of(name, '-');
    if i < 0 {
        Err(name + ": fixture name lacks a -<cols>x<rows> suffix"@)
    } else {
        match dims_of(name.skip(i + 1)) {
            Some(dims) => Ok(dims),
            None => Err(
                name + ": cannot parse dimensions from "@ + debug_text(name.skip(i + 1)),
            ),
        }
    }
}

/// Read the dimensions from a fixture's name, `<anything>-<cols>x<rows>`.
pub fn fixture_dims(name: &str) -> (r: Result<(u16, u16), String>)
    ensures
        match r {
            Ok(dims) => dims_reading(name@) == Ok::<(u16, u16), Seq<char>>(dims),
            Err(text) => dims_reading(name@) == Err::<(u16, u16), Seq<char>>(text@),
        },
{
    let chars = chars_of(name);
    let mut i: usize = chars.len();
    assert(chars@.take(i as int) =~= chars@);
    while i > 0 && chars[i - 1] != '-'
        invariant
            i <= chars@.len(),
            last_of(chars@, '-') == last_of(chars@.take(i as int), '-'),
        decreases i,
    {
        assert(chars@.take(i as int).drop_last() =~= chars@.take(i - 1));
        i -= 1;
    }
    if i == 0 {
        let mut text = name.to_owned();
        text.append(": fixture name lacks a -<cols>x<rows> suffix");
        return Err(text);
    }
    let dims = slice_subrange(chars.as_slice(), i, chars.len());
    assert(last_of(name@, '-') == i - 1);
    assert(dims@ =~= name@.skip(i as int));
    let mut k: usize = 0;
    while k < dims.len() && dims[k] != 'x'
        invariant
            k <= dims@.len(),
            forall|j: int| 0 <= j < k ==> dims@[j] != 'x',
        decreases dims@.len() - k,
    {
        k += 1;
    }
    proof {
        lemma_cut_at(dims@, 'x', k as int);
    }
    if k < dims.len() {
        proof {
            assert(dims@.subrange(0, k as int) =~= dims@.take(k as int));
            assert(dims@.subrange(k + 1, dims@.len() as int) =~= dims@.skip(k + 1));
        }
        let cols = parse_number(slice_subrange(dims, 0, k), 65535);
        let rows = parse_number(slice_subrange(dims, k + 1, dims.len()), 65535);
        match (cols, rows) {
            (Ok(c), Ok(r)) => {
                proof {
                    lemma_number_bound(dims@.take(k as int), 65535);
                    lemma_number_bound(dims@.skip(k + 1), 65535);
                }
                return Ok((c as u16, r as u16));
            },
            _ => {},
        }
    }
    let mut text = name.to_owned();
    text.append(": cannot parse dimensions from ");
    text.append(debug(text_of(dims).as_str()).as_str());
    Err(text)
}

proof fn lemma_digits_bound(s: Seq<char>, so_far: nat, max: nat)
    requires
        so_far <= max,
    ensures
        crate::text::digits_value(s, so_far, max) matches Ok(n) ==> n <= max,
    decreases s.len(),
{
    if s.len() > 0 && crate::text::is_digit(s[0]) {
        let next = so_far * 10 + crate::text::digit_value(s[0]);
        if next <= max {
            lemma_digits_bound(s.drop_first(), next, max);
        }
    }
}

proof fn lemma_number_bound(s: Seq<char>, max: nat)
    ensures
        number_value(s, max) matches Ok(n) ==> n <= max,
{
    lemma_digits_bound(s, 0, max);
    if s.len() > 0 {
        lemma_digits_bound(s.drop_first(), 0, max);
    }
}

/// Where the chunk of record `i` ends: where the next starts, or at the end.
pub open spec fn chunk_end(records: Seq<TimingRecord>, len: nat, i: int) -> nat {
    if i + 1 < records.len() {
        records[i + 1].offset as nat
    } else {
        len
    }
}

/// When the chunk before record `i` came.
pub open spec fn time_before(records: Seq<TimingRecord>, i: int) -> nat {
    if i == 0 {
        0
    } else {
        records[i - 1].monotonic_ns as nat
    }
}

/// Whether record `i` spans a run of the stream that is not empty.
pub open spec fn spans(records: Seq<TimingRecord>, len: nat, i: int) -> bool {
    records[i].offset < chunk_end(records, len, i) <= len
}

/// Whether record `i` comes no earlier than the one before it.
pub open spec fn in_time(records: Seq<TimingRecord>, i: int) -> bool {
    records[i].monotonic_ns >= time_before(records, i)
}

/// Whether record `i` is in order.
pub open spec fn sound(records: Seq<TimingRecord>, len: nat, i: int) -> bool {
    spans(records, len, i) && in_time(records, i)
}

/// The pacing that a recording's timing gives: gaps and chunk lengths.
pub open spec fn pacing(records: Seq<TimingRecord>, len: nat) -> Seq<(u64, u32)> {
    Seq::new(
        records.len(),
        |i: int|
            (
                (records[i].monotonic_ns - time_before(records, i)) as u64,
                ((chunk_end(records, len, i) - records[i].offset) % 0x1_0000_0000) as u32,
            ),
    )
}

/// Whether record `i` is the first at fault.
pub open spec fn first_fault(records: Seq<TimingRecord>, len: nat, i: int) -> bool {
    &&& 0 <= i < records.len()
    &&& !sound(records, len, i)
    &&& forall|j: int|
        0 <= j < i ==> #[trigger] sound(records, len, j)
}

/// What is said of a record at fault.
pub open spec fn record_fault(
    path: Seq<char>,
    records: Seq<TimingRecord>,
    len: nat,
    i: int,
) -> Seq<char> {
    if !spans(records, len, i) {
        path + ": record "@ + decimal((i + 1) as nat) + " spans "@ + decimal(
            records[i].offset as nat,
        ) + ".."@ + decimal(chunk_end(records, len, i)) + " outside 0.."@ + decimal(len)
            + " or is empty"@
    } else {
        path + ": record "@ + decimal((i + 1) as nat) + " goes backwards in time"@
    }
}

/// The pacing of a stream of `len` bytes, from its timing read at `path`.
fn read_pacing(path: &str, records: &Vec<TimingRecord>, len: usize) -> (r: Result<
    Vec<(u64, u32)>,
    String,
>)
    ensures
        match r {
            Ok(chunks) => {
                &&& chunks@ == pacing(records@, len as nat)
                &&& forall|i: int|
                    0 <= i < records@.len() ==> #[trigger] sound(records@, len as nat, i)
            },
            Err(text) => exists|i: int| #[trigger]
                first_fault(records@, len as nat, i) && text@ == record_fault(
                    path@,
                    records@,
                    len as nat,
                    i,
                ),
        },
{
    let mut chunks: Vec<(u64, u32)> = Vec::new();
    let mut previous: u64 = 0;
    let mut i: usize = 0;
    while i < records.len()
        invariant
            i <= records@.len(),
            chunks@.len() == i,
            previous == time_before(records@, i as int),
            forall|j: int| 0 <= j < i ==> chunks@[j] == pacing(records@, len as nat)[j],
            forall|j: int|
                0 <= j < i ==> #[trigger] sound(records@, len as nat, j),
        decreases records@.len() - i,
    {
        let record = records[i];
        let start: u64 = record.offset;
        let end: u64 = if i + 1 < records.len() {
            records[i + 1].offset
        } else {
            len as u64
        };
        if end <= start || end > len as u64 {
            let mut text = path.to_owned();
            text.append(": record ");
            push_u64(&mut text, i as u64 + 1);
            text.append(" spans ");
            push_u64(&mut text, start);
            text.append("..");
            push_u64(&mut text, end);
            text.append(" outside 0..");
            push_usize(&mut text, len);
            text.append(" or is empty");
            assert(first_fault(records@, len as nat, i as int));
            return Err(text);
        }
        if record.monotonic_ns < previous {
            let mut text = path.to_owned();
            text.append(": record ");
            push_u64(&mut text, i as u64 + 1);
            text.append(" goes backwards in time");
            assert(first_fault(records@, len as nat, i as int));
            return Err(text);
        }
        chunks.push((record.monotonic_ns - previous, ((end - start) % 0x1_0000_0000) as u32));
        previous = record.monotonic_ns;
        i += 1;
    }
    assert(chunks@ =~= pacing(records@, len as nat));
    Ok(chunks)
}

/// A line of a timing file: its text, and what it parses as.
#[derive(Debug)]
pub struct TimingLine {
    pub text: String,
    /// The record, or the parser's complaint.
    pub parsed: Result<TimingRecord, String>,
}

/// What a line contributes: nothing where it is empty, its contents, or the
/// reason why it has none.
pub open spec fn timing_reading(line: TimingLine) -> Result<Option<TimingRecord>, Seq<char>> {
    if line.text@.len() == 0 {
        Ok(None)
    } else {
        match line.parsed {
            Ok(value) => Ok(Some(value)),
            Err(why) => Err(why@),
        }
    }
}

/// The contents of lines that all have some or are empty, in order.
pub open spec fn timing_contents(lines: Seq<TimingLine>) -> Seq<TimingRecord>
    decreases lines.len(),
{
    if lines.len() == 0 {
        Seq::empty()
    } else {
        match timing_reading(lines.last()) {
            Ok(Some(value)) => timing_contents(lines.drop_last()).push(value),
            _ => timing_contents(lines.drop_last()),
        }
    }
}

/// Whether line `i` is the first that cannot be read.
pub open spec fn first_bad_timing(lines: Seq<TimingLine>, i: int) -> bool {
    &&& 0 <= i < lines.len()
    &&& timing_reading(lines[i]) is Err
    &&& forall|j: int| 0 <= j < i ==> timing_reading(#[trigger] lines[j]) is Ok
}

/// Read the records of the timing file at `path`. Any malformed line is an error.
pub fn timing_records(path: &str, lines: &Vec<TimingLine>) -> (r: Result<Vec<TimingRecord>, String>)
    ensures
        match r {
            Ok(values) => {
                &&& forall|i: int|
                    0 <= i < lines@.len() ==> timing_reading(#[trigger] lines@[i]) is Ok
                &&& values@ == timing_contents(lines@)
            },
            Err(text) => exists|i: int| #[trigger]
                first_bad_timing(lines@, i) && text@ == path@ + ":"@ + decimal((i + 1) as nat)
                    + ": "@ + timing_reading(lines@[i])->Err_0,
        },
{
    let mut values: Vec<TimingRecord> = Vec::new();
    let mut i: usize = 0;
    assert(lines@.take(0) =~= Seq::empty());
    while i < lines.len()
        invariant
            i <= lines@.len(),
            forall|j: int| 0 <= j < i ==> timing_reading(#[trigger] lines@[j]) is Ok,
            values@ == timing_contents(lines@.take(i as int)),
        decreases lines@.len() - i,
    {
        assert(lines@.take(i + 1).drop_last() =~= lines@.take(i as int));
        let line = &lines[i];
        proof {
            reveal_strlit("");
            assert(line.text@.len() == 0 ==> line.text@ =~= ""@);
        }
        if !same_text(line.text.as_str(), "") {
            match &line.parsed {
                Ok(value) => {
                    values.push(*value);
                },
                Err(why) => {
                    let mut text = path.to_owned();
                    text.append(":");
                    push_u128(&mut text, i as u128 + 1);
                    text.append(": ");
                    text.append(why.as_str());
                    assert(first_bad_timing(lines@, i as int));
                    return Err(text);
                },
            }
        }
        i += 1;
    }
    assert(lines@.take(i as int) =~= lines@);
    Ok(values)
}

impl Fixture {
    /// Take up a fixture named `name` from its captured bytes and the timing
    /// records read at `timing_path`.
    pub fn load(name: &str, bytes: Vec<u8>, timing_path: &str, records: &Vec<TimingRecord>) -> (r:
        Result<Fixture, String>)
        ensures
            ({
                let len = bytes@.len();
                match r {
                    Ok(f) => {
                        &&& f.name@ == name@
                        &&& f.bytes == bytes
                        &&& dims_reading(name@) == Ok::<(u16, u16), Seq<char>>((f.cols, f.rows))
                        &&& records@.len() > 0
                        &&& records@[0].offset == 0
                        &&& f.chunks@ == pacing(records@, len)
                        &&& forall|i: int|
                            0 <= i < records@.len() ==> #[trigger] sound(records@, len, i)
                    },
                    Err(text) => if dims_reading(name@) is Err {
                        dims_reading(name@) == Err::<(u16, u16), Seq<char>>(text@)
                    } else if records@.len() == 0 || records@[0].offset != 0 {
                        text@ == timing_path@
                            + ": timing must start at offset 0 and cover the stream"@
                    } else {
                        exists|i: int| #[trigger]
                            first_fault(records@, len, i) && text@ == record_fault(
                                timing_path@,
                                records@,
                                len,
                                i,
                            )
                    },
                }
            }),
    {
        let (cols, rows): (u16, u16) = match fixture_dims(name) {
            Ok(dims) => dims,
            Err(text) => {
                return Err(text);
            },
        };
        if records.len() == 0 || records[0].offset != 0 {
            let mut text = timing_path.to_owned();
            text.append(": timing must start at offset 0 and cover the stream");
            return Err(text);
        }
        match read_pacing(timing_path, records, bytes.len()) {
            Ok(chunks) => Ok(Fixture { name: name.to_owned(), cols, rows, chunks, bytes }),
            Err(text) => Err(text),
        }
    }
}

/// The sum of the chunk lengths.
pub open spec fn volume(chunks: Seq<(u64, u32)>) -> nat
    decreases chunks.len(),
{
    if chunks.len() == 0 {
        0
    } else {
        volume(chunks.drop_last()) + chunks.last().1 as nat
    }
}

/// The sum of the gaps.
pub open spec fn span(chunks: Seq<(u64, u32)>) -> nat
    decreases chunks.len(),
{
    if chunks.len() == 0 {
        0
    } else {
        span(chunks.drop_last()) + chunks.last().0 as nat
    }
}

/// The chunks of a recording cover its stream exactly, and their gaps add up to
/// when the last one came, where no chunk outgrows its 32-bit length.
pub proof fn law_pacing_covers_the_recording(records: Seq<TimingRecord>, len: nat)
    requires
        records.len() > 0,
        records[0].offset == 0,
        forall|i: int|
            0 <= i < records.len() ==> #[trigger] sound(records, len, i),
        len < 0x1_0000_0000,
    ensures
        volume(pacing(records, len)) == len,
        span(pacing(records, len)) == records.last().monotonic_ns,
{
    lemma_pacing_prefix(records, len, records.len() as int);
    assert(pacing(records, len).take(records.len() as int) =~= pacing(records, len));
    assert(sound(records, len, records.len() - 1));
}

proof fn lemma_pacing_prefix(records: Seq<TimingRecord>, len: nat, n: int)
    requires
        0 < n <= records.len(),
        records[0].offset == 0,
        forall|i: int|
            0 <= i < records.len() ==> #[trigger] sound(records, len, i),
        len < 0x1_0000_0000,
    ensures
        volume(pacing(records, len).take(n)) == chunk_end(records, len, n - 1),
        span(pacing(records, len).take(n)) == records[n - 1].monotonic_ns,
    decreases n,
{
    let p = pacing(records, len);
    assert(sound(records, len, n - 1));
    assert(p.take(n).drop_last() =~= p.take(n - 1));
    assert(p.take(n).last() == p[n - 1]);
    assert(p[n - 1].0 == records[n - 1].monotonic_ns - time_before(records, n - 1));
    assert(p[n - 1].1 == chunk_end(records, len, n - 1) - records[n - 1].offset);
    if n > 1 {
        lemma_pacing_prefix(records, len, n - 1);
    } else {
        assert(volume(p.take(0)) == 0 && span(p.take(0)) == 0);
    }
}

/// A gap with its excess over the threshold shortened; the part under the
/// threshold survives whole.
pub open spec fn compressed(gap_ns: nat, threshold_ns: nat, divisor: nat) -> nat {
    if gap_ns <= threshold_ns {
        gap_ns
    } else {
        threshold_ns + (gap_ns - threshold_ns) as nat / divisor
    }
}

/// Shorten a gap's excess over the threshold.
pub fn compress_gap(gap_ns: u64, threshold_ns: u64, divisor: u64) -> (gap: u64)
    requires
        divisor > 0,
    ensures
        gap == compressed(gap_ns as nat, threshold_ns as nat, divisor as nat),
        gap <= gap_ns,
{
    if gap_ns <= threshold_ns {
        gap_ns
    } else {
        let excess: u64 = gap_ns - threshold_ns;
        assert(excess / divisor <= excess) by (nonlinear_arith)
            requires
                divisor > 0,
        ;
        threshold_ns + excess / divisor
    }
}

/// Shortening never touches a gap at or under the threshold, never lengthens
/// one, never cuts below the threshold, and keeps longer gaps longer.
pub proof fn law_bursts_are_never_touched(a: nat, b: nat, threshold_ns: nat, divisor: nat)
    requires
        divisor > 0,
        a <= b,
    ensures
        a <= threshold_ns ==> compressed(a, threshold_ns, divisor) == a,
        a > threshold_ns ==> threshold_ns <= compressed(a, threshold_ns, divisor) <= a,
        compressed(a, threshold_ns, divisor) <= compressed(b, threshold_ns, divisor),
        compressed(a, threshold_ns, 1) == a,
{
    if a > threshold_ns {
        let x = (a - threshold_ns) as nat;
        let y = (b - threshold_ns) as nat;
        assert(x / divisor <= x && x / divisor <= y / divisor) by (nonlinear_arith)
            requires
                divisor > 0,
                x <= y,
        ;
    } else if b > threshold_ns {
        let y = (b - threshold_ns) as nat;
        assert(0 <= y / divisor) by (nonlinear_arith)
            requires
                divisor > 0,
        ;
    }
}

/// A pacing with its gaps shortened.
pub open spec fn shortened(chunks: Seq<(u64, u32)>, threshold: u128, divisor: u64) -> Seq<
    (u64, u32),
> {
    chunks.map_values(
        |c: (u64, u32)| (compressed(c.0 as nat, threshold as nat, divisor as nat) as u64, c.1),
    )
}

/// One pass through the fixtures, end to end.
pub open spec fn playlist(fixtures: Seq<Fixture>, threshold: u128, divisor: u64) -> Seq<(u64, u32)>
    decreases fixtures.len(),
{
    if fixtures.len() == 0 {
        Seq::empty()
    } else {
        playlist(fixtures.drop_last(), threshold, divisor) + shortened(
            fixtures.last().chunks@,
            threshold,
            divisor,
        )
    }
}

/// The captured bytes of each chunk of a fixture.
pub open spec fn contents(f: Fixture) -> Seq<Seq<u8>> {
    Seq::new(
        f.chunks@.len(),
        |i: int|
            f.bytes@.subrange(
                volume(f.chunks@.take(i)) as int,
                volume(f.chunks@.take(i + 1)) as int,
            ),
    )
}

/// The captured bytes of each chunk in one pass through the fixtures.
pub open spec fn playlist_contents(fixtures: Seq<Fixture>) -> Seq<Seq<u8>>
    decreases fixtures.len(),
{
    if fixtures.len() == 0 {
        Seq::empty()
    } else {
        playlist_contents(fixtures.drop_last()) + contents(fixtures.last())
    }
}

/// Whether a fixture holds the bytes of each of its chunks.
pub open spec fn chunks_held(f: Fixture) -> Seq<bool> {
    Seq::new(f.chunks@.len(), |i: int| volume(f.chunks@.take(i + 1)) <= f.bytes@.len())
}

/// Whether the fixtures hold the bytes of each chunk in one pass through them.
pub open spec fn playlist_held(fixtures: Seq<Fixture>) -> Seq<bool>
    decreases fixtures.len(),
{
    if fixtures.len() == 0 {
        Seq::empty()
    } else {
        playlist_held(fixtures.drop_last()) + chunks_held(fixtures.last())
    }
}

/// Whether filling a target reaches a chunk of a pass: the first one, and each
/// whose predecessors do not cover the target.
pub open spec fn reached(pass: Seq<(u64, u32)>, target: u128, q: int) -> bool {
    &&& 0 <= q < pass.len()
    &&& q == 0 || span(pass.take(q)) < target
}

/// The first `n` items of an endless repetition.
pub open spec fn looped<T>(pass: Seq<T>, n: nat) -> Seq<T> {
    Seq::new(n, |k: int| pass[k % pass.len() as int])
}

/// Runs of bytes, one after the other.
pub open spec fn joined(runs: Seq<Seq<u8>>) -> Seq<u8>
    decreases runs.len(),
{
    if runs.len() == 0 {
        Seq::empty()
    } else {
        joined(runs.drop_last()) + runs.last()
    }
}

proof fn lemma_next_mod(n: int, len: int)
    requires
        0 <= n,
        0 < len,
    ensures
        (n + 1) % len == if n % len + 1 == len {
            0
        } else {
            n % len + 1
        },
{
    let q = n / len;
    let r = n % len;
    vstd::arithmetic::div_mod::lemma_fundamental_div_mod(n, len);
    if r + 1 == len {
        assert((q + 1) * len == len * q + len) by (nonlinear_arith);
        vstd::arithmetic::div_mod::lemma_fundamental_div_mod_converse(n + 1, len, q + 1, 0);
    } else {
        assert(q * len == len * q) by (nonlinear_arith);
        vstd::arithmetic::div_mod::lemma_fundamental_div_mod_converse(n + 1, len, q, r + 1);
    }
}

/// One pass through the fixtures.
fn one_pass(fixtures: &[Fixture], threshold: u128, divisor: u64) -> (pass: Vec<(u64, u32)>)
    requires
        divisor > 0,
    ensures
        pass@ == playlist(fixtures@, threshold, divisor),
{
    let mut pass: Vec<(u64, u32)> = Vec::new();
    let mut f: usize = 0;
    proof {
        assert(fixtures@.take(0) =~= Seq::empty());
    }
    while f < fixtures.len()
        invariant
            divisor > 0,
            f <= fixtures@.len(),
            pass@ == playlist(fixtures@.take(f as int), threshold, divisor),
        decreases fixtures@.len() - f,
    {
        let ghost before = pass@;
        let ghost all = shortened(fixtures@[f as int].chunks@, threshold, divisor);
        let chunks = &fixtures[f].chunks;
        let mut i: usize = 0;
        assert(before + all.take(0) =~= before);
        while i < chunks.len()
            invariant
                divisor > 0,
                i <= chunks@.len(),
                all == shortened(chunks@, threshold, divisor),
                pass@ == before + all.take(i as int),
            decreases chunks@.len() - i,
        {
            let (gap, len): (u64, u32) = chunks[i];
            let gap: u64 = if threshold > u64::MAX as u128 {
                gap
            } else {
                compress_gap(gap, threshold as u64, divisor)
            };
            pass.push((gap, len));
            i += 1;
            assert(all.take(i as int) =~= all.take(i - 1).push(all[i - 1]));
            assert(before + all.take(i - 1).push(all[i - 1]) =~= (before + all.take(i - 1)).push(
                all[i - 1],
            ));
        }
        proof {
            assert(all.take(i as int) =~= all);
            assert(fixtures@.take(f + 1).drop_last() =~= fixtures@.take(f as int));
        }
        f += 1;
    }
    assert(fixtures@.take(f as int) =~= fixtures@);
    pass
}

/// Repeat a pass until its gaps add up to `target`.
fn fill(pass: &Vec<(u64, u32)>, target: u128) -> (entries: Vec<(u64, u32)>)
    requires
        pass@.len() > 0,
        target == 0 || span(pass@) > 0,
    ensures
        entries@.len() > 0,
        entries@ == looped(pass@, entries@.len()),
        span(entries@) >= target,
        entries@.len() == 1 || span(entries@.drop_last()) < target,
{
    let mut entries: Vec<(u64, u32)> = Vec::new();
    let mut scheduled: u128 = 0;
    let mut pos: usize = 0;
    let ghost mut base: nat = 0;
    assert(pass@.take(0) =~= Seq::empty());
    loop
        invariant_except_break
            pass@.len() > 0,
            target == 0 || span(pass@) > 0,
            entries@ == looped(pass@, entries@.len()),
            pos < pass@.len(),
            pos == entries@.len() as int % pass@.len() as int,
            span(entries@) == base + span(pass@.take(pos as int)),
            scheduled == span(entries@),
            scheduled < target || entries@.len() == 0,
        ensures
            entries@.len() > 0,
            entries@ == looped(pass@, entries@.len()),
            span(entries@) >= target,
            entries@.len() == 1 || span(entries@.drop_last()) < target,
        decreases target - base, pass@.len() - pos,
    {
        let ghost before = entries@;
        let entry: (u64, u32) = pass[pos];
        entries.push(entry);
        proof {
            assert(entries@.drop_last() =~= before);
            assert(entries@ =~= looped(pass@, entries@.len()));
            assert(pass@.take(pos + 1).drop_last() =~= pass@.take(pos as int));
        }
        let next: u128 = scheduled.saturating_add(entry.0 as u128);
        if next >= target {
            break;
        }
        scheduled = next;
        proof {
            lemma_next_mod(before.len() as int, pass@.len() as int);
            if pos + 1 == pass@.len() {
                assert(pass@.take(pos + 1) =~= pass@);
                base = base + span(pass@);
                assert(pass@.take(0) =~= Seq::empty());
            }
        }
        pos = if pos == pass.len() - 1 {
            0
        } else {
            pos + 1
        };
    }
    entries
}

/// The bytes of the first `count` chunks of an endless repetition of the fixtures.
fn looped_bytes(fixtures: &[Fixture], count: usize) -> (bytes: Vec<u8>)
    requires
        playlist_contents(fixtures@).len() > 0 || count == 0,
        forall|k: int|
            0 <= k < count ==> #[trigger] playlist_held(fixtures@)[k % playlist_contents(
                fixtures@,
            ).len() as int],
    ensures
        bytes@ == joined(looped(playlist_contents(fixtures@), count as nat)),
{
    let places = chunk_places(fixtures);
    let ghost runs = playlist_contents(fixtures@);
    let ghost held = playlist_held(fixtures@);
    let mut bytes: Vec<u8> = Vec::new();
    let mut k: usize = 0;
    let mut pos: usize = 0;
    assert(looped(runs, 0) =~= Seq::empty());
    while k < count
        invariant
            k <= count,
            places@.len() == runs.len(),
            runs.len() > 0 || count == 0,
            forall|k: int| 0 <= k < count ==> #[trigger] held[k % runs.len() as int],
            count > 0 ==> pos < places@.len(),
            count > 0 ==> pos == k as int % runs.len() as int,
            bytes@ == joined(looped(runs, k as nat)),
            forall|q: int| #![trigger places@[q]]
                0 <= q < places@.len() && held[q] ==> {
                    &&& places@[q].0 < fixtures@.len()
                    &&& places@[q].1 <= places@[q].2 <= fixtures@[places@[q].0 as int].bytes@.len()
                    &&& runs[q] == fixtures@[places@[q].0 as int].bytes@.subrange(
                        places@[q].1 as int,
                        places@[q].2 as int,
                    )
                },
        decreases count - k,
    {
        let (f, start, end): (usize, usize, usize) = places[pos];
        assert(held[k as int % runs.len() as int]);
        let run = slice_subrange(fixtures[f].bytes.as_slice(), start, end);
        let ghost before = bytes@;
        bytes.extend_from_slice(run);
        proof {
            assert(bytes@ =~= before + runs[pos as int]);
            let next = looped(runs, (k + 1) as nat);
            assert(next.drop_last() =~= looped(runs, k as nat));
            assert(next.last() == runs[pos as int]);
            lemma_next_mod(k as int, runs.len() as int);
        }
        pos = if pos == places.len() - 1 {
            0
        } else {
            pos + 1
        };
        k += 1;
    }
    bytes
}

/// Where each chunk of one pass stands that the fixtures hold: the fixture, and
/// the byte range in it.
fn chunk_places(fixtures: &[Fixture]) -> (places: Vec<(usize, usize, usize)>)
    ensures
        places@.len() == playlist_contents(fixtures@).len(),
        places@.len() == playlist_held(fixtures@).len(),
        forall|q: int| #![trigger places@[q]]
            0 <= q < places@.len() && playlist_held(fixtures@)[q] ==> {
                &&& places@[q].0 < fixtures@.len()
                &&& places@[q].1 <= places@[q].2 <= fixtures@[places@[q].0 as int].bytes@.len()
                &&& playlist_contents(fixtures@)[q]
                    == fixtures@[places@[q].0 as int].bytes@.subrange(
                    places@[q].1 as int,
                    places@[q].2 as int,
                )
            },
{
    let mut places: Vec<(usize, usize, usize)> = Vec::new();
    let mut f: usize = 0;
    assert(fixtures@.take(0) =~= Seq::empty());
    while f < fixtures.len()
        invariant
            f <= fixtures@.len(),
            places@.len() == playlist_contents(fixtures@.take(f as int)).len(),
            places@.len() == playlist_held(fixtures@.take(f as int)).len(),
            forall|q: int| #![trigger places@[q]]
                0 <= q < places@.len() && playlist_held(fixtures@.take(f as int))[q] ==> {
                    &&& places@[q].0 < fixtures@.len()
                    &&& places@[q].1 <= places@[q].2 <= fixtures@[places@[q].0 as int].bytes@.len()
                    &&& playlist_contents(fixtures@.take(f as int))[q]
                        == fixtures@[places@[q].0 as int].bytes@.subrange(
                        places@[q].1 as int,
                        places@[q].2 as int,
                    )
                },
        decreases fixtures@.len() - f,
    {
        let ghost earlier = playlist_contents(fixtures@.take(f as int));
        let ghost earlier_held = playlist_held(fixtures@.take(f as int));
        let ghost fixture = fixtures@[f as int];
        let chunks = &fixtures[f].chunks;
        let available: usize = fixtures[f].bytes.len();
        let mut offset: u128 = 0;
        let mut i: usize = 0;
        proof {
            assert(fixtures@.take(f + 1).drop_last() =~= fixtures@.take(f as int));
            assert(chunks@.take(0) =~= Seq::empty());
            assert(earlier + contents(fixture).take(0) =~= earlier);
            assert(earlier_held + chunks_held(fixture).take(0) =~= earlier_held);
        }
        while i < chunks.len()
            invariant
                f < fixtures@.len(),
                fixture == fixtures@[f as int],
                chunks@ == fixture.chunks@,
                available == fixture.bytes@.len(),
                i <= chunks@.len(),
                offset == volume(chunks@.take(i as int)),
                offset <= i * 0xffff_ffff,
                places@.len() == (earlier + contents(fixture).take(i as int)).len(),
                places@.len() == (earlier_held + chunks_held(fixture).take(i as int)).len(),
                forall|q: int| #![trigger places@[q]]
                    0 <= q < places@.len() && (earlier_held + chunks_held(fixture).take(
                        i as int,
                    ))[q] ==> {
                        &&& places@[q].0 < fixtures@.len()
                        &&& places@[q].1 <= places@[q].2
                            <= fixtures@[places@[q].0 as int].bytes@.len()
                        &&& (earlier + contents(fixture).take(i as int))[q]
                            == fixtures@[places@[q].0 as int].bytes@.subrange(
                            places@[q].1 as int,
                            places@[q].2 as int,
                        )
                    },
            decreases chunks@.len() - i,
        {
            assert(chunks@.take(i + 1).drop_last() =~= chunks@.take(i as int));
            let end: u128 = offset + chunks[i].1 as u128;
            if end <= available as u128 {
                places.push((f, offset as usize, end as usize));
            } else {
                places.push((f, 0, 0));
            }
            offset = end;
            i += 1;
        }
        proof {
            assert(contents(fixture).take(i as int) =~= contents(fixture));
            assert(chunks_held(fixture).take(i as int) =~= chunks_held(fixture));
            assert(playlist_contents(fixtures@.take(f + 1)) == earlier + contents(fixture));
            assert(playlist_held(fixtures@.take(f + 1)) == earlier_held + chunks_held(fixture));
        }
        f += 1;
    }
    assert(fixtures@.take(f as int) =~= fixtures@);
    places
}

proof fn lemma_playlist_len(fixtures: Seq<Fixture>, threshold: u128, divisor: u64)
    ensures
        playlist(fixtures, threshold, divisor).len() == playlist_contents(fixtures).len(),
        playlist(fixtures, threshold, divisor).len() == playlist_held(fixtures).len(),
    decreases fixtures.len(),
{
    if fixtures.len() > 0 {
        lemma_playlist_len(fixtures.drop_last(), threshold, divisor);
    }
}

/// How a plan is compiled.
#[derive(Clone, Debug)]
pub struct BuildOptions {
    pub mode: Mode,
    /// How long the plan must cover, in nanoseconds.
    pub duration_ns: u128,
    /// Gaps above this are shortened, in nanoseconds.
    pub idle_threshold_ns: u128,
    /// What a long gap's excess is divided by. 1 replays idle in full.
    pub idle_divisor: u64,
    pub line_bytes: usize,
    pub checksum_every: u64,
}

impl BuildOptions {
    /// Half an hour of generated content in lines of `line_bytes`, idle in full.
    pub fn standard(line_bytes: usize) -> (options: Self)
        ensures
            options == (BuildOptions {
                mode: Mode::Generated,
                duration_ns: 1_800_000_000_000,
                idle_threshold_ns: 2_000_000_000,
                idle_divisor: 1,
                line_bytes,
                checksum_every: 1000,
            }),
    {
        BuildOptions {
            mode: Mode::Generated,
            duration_ns: 1_800_000_000_000,
            idle_threshold_ns: 2_000_000_000,
            idle_divisor: 1,
            line_bytes,
            checksum_every: 1000,
        }
    }
}

/// A compiled replay: what the child performs and the probe verifies.
#[derive(Debug)]
pub struct Plan {
    pub mode: Mode,
    pub line_bytes: usize,
    pub checksum_every: u64,
    /// The gap since the previous chunk in nanoseconds, and the chunk's length.
    pub entries: Vec<(u64, u32)>,
    /// The chunk contents, one after the other; recorded mode only.
    pub bytes: Vec<u8>,
    /// Fixture names, in playlist order.
    pub sources: Vec<String>,
    /// Terminal dimensions that the recorded bytes were painted for.
    pub cols: u16,
    pub rows: u16,
    /// Idle handling, for the report.
    pub idle_threshold_ns: u128,
    pub idle_divisor: u64,
}

/// The names of the fixtures.
pub open spec fn names(fixtures: Seq<Fixture>) -> Seq<Seq<char>> {
    fixtures.map_values(|f: Fixture| f.name@)
}

/// The largest of the fixtures' columns.
pub open spec fn widest(fixtures: Seq<Fixture>) -> u16
    decreases fixtures.len(),
{
    if fixtures.len() == 0 {
        0
    } else {
        let w = widest(fixtures.drop_last());
        if fixtures.last().cols > w {
            fixtures.last().cols
        } else {
            w
        }
    }
}

/// The largest of the fixtures' rows.
pub open spec fn tallest(fixtures: Seq<Fixture>) -> u16
    decreases fixtures.len(),
{
    if fixtures.len() == 0 {
        0
    } else {
        let h = tallest(fixtures.drop_last());
        if fixtures.last().rows > h {
            fixtures.last().rows
        } else {
            h
        }
    }
}

/// The longest gap of a pacing.
pub open spec fn longest_gap(entries: Seq<(u64, u32)>) -> u64
    decreases entries.len(),
{
    if entries.len() == 0 {
        0
    } else {
        let g = longest_gap(entries.drop_last());
        if entries.last().0 > g {
            entries.last().0
        } else {
            g
        }
    }
}

/// Whether `entries` is the shortest repetition of a pass that covers `target`.
pub open spec fn covers(pass: Seq<(u64, u32)>, target: u128, entries: Seq<(u64, u32)>) -> bool {
    &&& entries.len() > 0
    &&& entries == looped(pass, entries.len())
    &&& span(entries) >= target
    &&& entries.len() == 1 || span(entries.drop_last()) < target
}

/// Whether a pass can never cover a target.
pub open spec fn takes_no_time(pass: Seq<(u64, u32)>, target: u128) -> bool {
    pass.len() == 0 || (target > 0 && span(pass) == 0)
}

/// What is said of a plan whose gap would outlast the stall detector.
pub open spec fn stall_refusal(gap: u64) -> Seq<char> {
    "the plan schedules a "@ + human_ns_text(gap as nat)
        + " gap, above the 120 stall bound \u{2014} raise the idle divisor or lower the threshold"@
}

/// Whether any gap is above zero.
fn takes_time(chunks: &Vec<(u64, u32)>) -> (any: bool)
    ensures
        any == (span(chunks@) > 0),
{
    let mut i: usize = 0;
    assert(chunks@.take(0) =~= Seq::empty());
    while i < chunks.len()
        invariant
            i <= chunks@.len(),
            span(chunks@.take(i as int)) == 0,
        decreases chunks@.len() - i,
    {
        assert(chunks@.take(i + 1).drop_last() =~= chunks@.take(i as int));
        if chunks[i].0 > 0 {
            proof {
                lemma_span_prefix(chunks@, i + 1);
            }
            return true;
        }
        i += 1;
    }
    assert(chunks@.take(i as int) =~= chunks@);
    false
}

proof fn lemma_span_prefix(chunks: Seq<(u64, u32)>, n: int)
    requires
        0 <= n <= chunks.len(),
    ensures
        span(chunks.take(n)) <= span(chunks),
    decreases chunks.len() - n,
{
    if n == chunks.len() {
        assert(chunks.take(n) =~= chunks);
    } else {
        lemma_span_prefix(chunks, n + 1);
        assert(chunks.take(n + 1).drop_last() =~= chunks.take(n));
    }
}

fn max_gap(entries: &Vec<(u64, u32)>) -> (gap: u64)
    ensures
        gap == longest_gap(entries@),
{
    let mut gap: u64 = 0;
    let mut i: usize = 0;
    assert(entries@.take(0) =~= Seq::empty());
    while i < entries.len()
        invariant
            i <= entries@.len(),
            gap == longest_gap(entries@.take(i as int)),
        decreases entries@.len() - i,
    {
        assert(entries@.take(i + 1).drop_last() =~= entries@.take(i as int));
        if entries[i].0 > gap {
            gap = entries[i].0;
        }
        i += 1;
    }
    assert(entries@.take(i as int) =~= entries@);
    gap
}

/// Compile a plan: loop the fixtures end to end until the scheduled time covers
/// the duration, shortening idle gaps as configured. For recorded content the
/// fixtures must hold the bytes of every chunk that the plan reaches.
pub fn build_plan(fixtures: &[Fixture], options: &BuildOptions) -> (r: Result<Plan, String>)
    requires
        options.mode == Mode::Recorded && options.idle_divisor > 0 ==> forall|q: int|
            reached(
                playlist(fixtures@, options.idle_threshold_ns, options.idle_divisor),
                options.duration_ns,
                q,
            ) ==> #[trigger] playlist_held(fixtures@)[q],
    ensures
        ({
            let pass = playlist(fixtures@, options.idle_threshold_ns, options.idle_divisor);
            match r {
                Ok(plan) => {
                    &&& fixtures@.len() > 0
                    &&& options.idle_divisor > 0
                    &&& !takes_no_time(pass, options.duration_ns)
                    &&& covers(pass, options.duration_ns, plan.entries@)
                    &&& longest_gap(plan.entries@) < STALL
                    &&& plan.mode == options.mode
                    &&& plan.line_bytes == options.line_bytes
                    &&& plan.checksum_every == options.checksum_every
                    &&& plan.bytes@ == if options.mode == Mode::Recorded {
                        joined(looped(playlist_contents(fixtures@), plan.entries@.len()))
                    } else {
                        Seq::empty()
                    }
                    &&& texts(plan.sources@) == names(fixtures@)
                    &&& plan.cols == widest(fixtures@)
                    &&& plan.rows == tallest(fixtures@)
                    &&& plan.idle_threshold_ns == options.idle_threshold_ns
                    &&& plan.idle_divisor == options.idle_divisor
                },
                Err(text) => if fixtures@.len() == 0 {
                    text@ == "a replay needs at least one fixture"@
                } else if options.idle_divisor == 0 {
                    text@ == "the idle divisor must be at least 1"@
                } else if takes_no_time(pass, options.duration_ns) {
                    text@
                        == "the fixtures schedule no time at all \u{2014} a plan of instantaneous chunks would never reach its duration"@
                } else {
                    exists|entries: Seq<(u64, u32)>| #[trigger]
                        covers(pass, options.duration_ns, entries) && longest_gap(entries) >= STALL
                            && text@ == stall_refusal(longest_gap(entries))
                },
            }
        }),
{
    broadcast use crate::report::lemma_texts_push;

    if fixtures.len() == 0 {
        return Err("a replay needs at least one fixture".to_owned());
    }
    if options.idle_divisor == 0 {
        return Err("the idle divisor must be at least 1".to_owned());
    }
    let pass = one_pass(fixtures, options.idle_threshold_ns, options.idle_divisor);
    if pass.len() == 0 || (options.duration_ns > 0 && !takes_time(&pass)) {
        return Err(
            "the fixtures schedule no time at all \u{2014} a plan of instantaneous chunks would never reach its duration".to_owned(),
        );
    }
    let entries = fill(&pass, options.duration_ns);
    let gap: u64 = max_gap(&entries);
    assert(covers(pass@, options.duration_ns, entries@));
    if gap >= STALL {
        let mut text = "the plan schedules a ".to_owned();
        text.append(human_ns(gap).as_str());
        text.append(
            " gap, above the 120 stall bound \u{2014} raise the idle divisor or lower the threshold",
        );
        return Err(text);
    }
    let bytes: Vec<u8> = if options.mode == Mode::Recorded {
        proof {
            lemma_playlist_len(fixtures@, options.idle_threshold_ns, options.idle_divisor);
            assert forall|k: int| 0 <= k < entries@.len() implies #[trigger] playlist_held(
                fixtures@,
            )[k % playlist_contents(fixtures@).len() as int] by {
                lemma_reached(pass@, options.duration_ns, entries@, k);
            }
        }
        looped_bytes(fixtures, entries.len())
    } else {
        Vec::new()
    };
    let mut sources: Vec<String> = Vec::new();
    let mut cols: u16 = 0;
    let mut rows: u16 = 0;
    let mut f: usize = 0;
    assert(fixtures@.take(0) =~= Seq::empty());
    assert(texts(sources@) =~= names(fixtures@.take(0)));
    while f < fixtures.len()
        invariant
            f <= fixtures@.len(),
            texts(sources@) == names(fixtures@.take(f as int)),
            cols == widest(fixtures@.take(f as int)),
            rows == tallest(fixtures@.take(f as int)),
        decreases fixtures@.len() - f,
    {
        assert(fixtures@.take(f + 1).drop_last() =~= fixtures@.take(f as int));
        assert(names(fixtures@.take(f + 1)) =~= names(fixtures@.take(f as int)).push(
            fixtures@[f as int].name@,
        ));
        sources.push(fixtures[f].name.clone());
        if fixtures[f].cols > cols {
            cols = fixtures[f].cols;
        }
        if fixtures[f].rows > rows {
            rows = fixtures[f].rows;
        }
        f += 1;
    }
    assert(fixtures@.take(f as int) =~= fixtures@);
    Ok(
        Plan {
            mode: options.mode,
            line_bytes: options.line_bytes,
            checksum_every: options.checksum_every,
            entries,
            bytes,
            sources,
            cols,
            rows,
            idle_threshold_ns: options.idle_threshold_ns,
            idle_divisor: options.idle_divisor,
        },
    )
}

/// Every chunk of a covering repetition is one that is reached.
proof fn lemma_reached(pass: Seq<(u64, u32)>, target: u128, entries: Seq<(u64, u32)>, k: int)
    requires
        pass.len() > 0,
        covers(pass, target, entries),
        0 <= k < entries.len(),
    ensures
        reached(pass, target, k % pass.len() as int),
{
    let q = k % pass.len() as int;
    vstd::arithmetic::div_mod::lemma_mod_bound(k, pass.len() as int);
    assert(q <= k) by {
        vstd::arithmetic::div_mod::lemma_mod_decreases(k as nat, pass.len());
    }
    if q > 0 {
        let before = entries.drop_last();
        assert(before.take(q) =~= pass.take(q)) by {
            assert forall|j: int| 0 <= j < q implies before[j] == pass[j] by {
                vstd::arithmetic::div_mod::lemma_small_mod(j as nat, pass.len());
            }
        }
        lemma_span_prefix(before, q);
    }
}

proof fn lemma_runs_fill_their_chunks(fixtures: Seq<Fixture>, threshold: u128, divisor: u64, q: int)
    requires
        0 <= q < playlist(fixtures, threshold, divisor).len(),
        playlist_held(fixtures)[q],
    ensures
        playlist_contents(fixtures)[q].len() == playlist(fixtures, threshold, divisor)[q].1,
    decreases fixtures.len(),
{
    let earlier = fixtures.drop_last();
    let fixture = fixtures.last();
    let before = playlist(earlier, threshold, divisor).len();
    lemma_playlist_len(earlier, threshold, divisor);
    lemma_playlist_len(fixtures, threshold, divisor);
    if q < before {
        assert(playlist_held(fixtures)[q] == playlist_held(earlier)[q]);
        lemma_runs_fill_their_chunks(earlier, threshold, divisor, q);
    } else {
        let i = q - before;
        let chunks = fixture.chunks@;
        assert(playlist_held(fixtures)[q] == chunks_held(fixture)[i]);
        assert(chunks.take(i + 1).drop_last() =~= chunks.take(i));
        assert(playlist_contents(fixtures)[q] == contents(fixture)[i]);
        assert(playlist(fixtures, threshold, divisor)[q] == shortened(chunks, threshold, divisor)[i]);
    }
}

/// A recorded plan holds as many bytes as its chunks span, however often the
/// fixtures are looped, where they hold the chunks that it reaches.
pub proof fn law_a_recorded_plan_holds_its_volume(
    fixtures: Seq<Fixture>,
    threshold: u128,
    divisor: u64,
    n: nat,
)
    requires
        playlist(fixtures, threshold, divisor).len() > 0,
        forall|q: int|
            0 <= q < playlist_held(fixtures).len() && q < n ==> #[trigger] playlist_held(
                fixtures,
            )[q],
    ensures
        joined(looped(playlist_contents(fixtures), n)).len() == volume(
            looped(playlist(fixtures, threshold, divisor), n),
        ),
    decreases n,
{
    let pass = playlist(fixtures, threshold, divisor);
    let runs = playlist_contents(fixtures);
    lemma_playlist_len(fixtures, threshold, divisor);
    if n > 0 {
        let m = (n - 1) as nat;
        law_a_recorded_plan_holds_its_volume(fixtures, threshold, divisor, m);
        assert(looped(runs, n).drop_last() =~= looped(runs, m));
        assert(looped(pass, n).drop_last() =~= looped(pass, m));
        let q = m as int % pass.len() as int;
        assert(0 <= q < pass.len()) by {
            vstd::arithmetic::div_mod::lemma_mod_bound(m as int, pass.len() as int);
        }
        assert(q <= m) by {
            vstd::arithmetic::div_mod::lemma_mod_decreases(m, pass.len());
        }
        lemma_runs_fill_their_chunks(fixtures, threshold, divisor, q);
    }
}

/// The stall detector never fires on a gap that a plan itself schedules: every
/// gap of a plan that was not refused is below the stall bound.
pub proof fn law_no_scheduled_gap_reaches_the_stall_bound(entries: Seq<(u64, u32)>, i: int)
    requires
        longest_gap(entries) < STALL,
        0 <= i < entries.len(),
    ensures
        entries[i].0 < STALL,
    decreases entries.len(),
{
    if i < entries.len() - 1 {
        law_no_scheduled_gap_reaches_the_stall_bound(entries.drop_last(), i);
    }
}

/// The chunks of the fixtures as they were captured, one fixture after the other.
pub open spec fn captured(fixtures: Seq<Fixture>) -> Seq<(u64, u32)> {
    fixtures.map_values(|f: Fixture| f.chunks@).flatten()
}

/// Every entry of a plan is a captured chunk, in the captured order and from the
/// first again after the last: its length is kept, and of its gap what is at or
/// under the threshold is kept whole and what is above is divided by the divisor.
pub proof fn law_a_plan_keeps_the_captured_pacing(
    fixtures: Seq<Fixture>,
    threshold: u128,
    divisor: u64,
    target: u128,
    entries: Seq<(u64, u32)>,
    k: int,
)
    requires
        divisor > 0,
        !takes_no_time(playlist(fixtures, threshold, divisor), target),
        covers(playlist(fixtures, threshold, divisor), target, entries),
        0 <= k < entries.len(),
    ensures
        captured(fixtures).len() > 0,
        ({
            let chunk = captured(fixtures)[k % captured(fixtures).len() as int];
            &&& entries[k].1 == chunk.1
            &&& chunk.0 <= threshold ==> entries[k].0 == chunk.0
            &&& chunk.0 > threshold ==> entries[k].0 == threshold + (chunk.0 - threshold)
                / divisor as int
        }),
{
    let pass = playlist(fixtures, threshold, divisor);
    let q = k % pass.len() as int;
    vstd::arithmetic::div_mod::lemma_mod_bound(k, pass.len() as int);
    lemma_pass_shortens(fixtures, threshold, divisor, q);
    assert(entries[k] == looped(pass, entries.len())[k]);
}

/// A plan lasts as long as was asked for and not an entry longer.
pub proof fn law_a_plan_stops_once_its_duration_is_covered(
    fixtures: Seq<Fixture>,
    threshold: u128,
    divisor: u64,
    target: u128,
    entries: Seq<(u64, u32)>,
)
    requires
        covers(playlist(fixtures, threshold, divisor), target, entries),
    ensures
        entries.len() > 0,
        sum(|j: int| entries[j].0 as int, entries.len() as int) >= target,
        entries.len() > 1 ==> sum(|j: int| entries[j].0 as int, entries.len() - 1) < target,
{
    let gaps = |j: int| entries[j].0 as int;
    lemma_span_is_summed(entries, gaps);
    lemma_span_is_summed(entries.drop_last(), gaps);
}

/// Fixtures take no time exactly when they hold no chunk, or when there is time to
/// cover and every captured gap is shortened to nothing: one of zero, or one above
/// a threshold of zero and below the divisor.
pub proof fn law_fixtures_take_no_time_without_a_gap(
    fixtures: Seq<Fixture>,
    threshold: u128,
    divisor: u64,
    target: u128,
)
    requires
        divisor > 0,
    ensures
        takes_no_time(playlist(fixtures, threshold, divisor), target) <==> captured(fixtures).len()
            == 0 || (target > 0 && forall|q: int|
            0 <= q < captured(fixtures).len() ==> (#[trigger] captured(fixtures)[q]).0 == 0 || (
            threshold == 0 && captured(fixtures)[q].0 < divisor)),
{
    let pass = playlist(fixtures, threshold, divisor);
    lemma_pass_len(fixtures, threshold, divisor);
    assert forall|q: int| 0 <= q < pass.len() implies (pass[q].0 == 0 <==> (#[trigger] captured(
        fixtures,
    )[q]).0 == 0 || (threshold == 0 && captured(fixtures)[q].0 < divisor)) by {
        lemma_pass_shortens(fixtures, threshold, divisor, q);
        let gap = captured(fixtures)[q].0 as int;
        let d = divisor as int;
        if gap > threshold {
            let x = gap - threshold;
            assert(0 <= x / d && (x / d == 0 <==> x < d)) by (nonlinear_arith)
                requires
                    x > 0,
                    d > 0,
            ;
        }
    }
    lemma_no_span(pass);
    if span(pass) == 0 {
        assert forall|q: int| 0 <= q < captured(fixtures).len() implies (#[trigger] captured(
            fixtures,
        )[q]).0 == 0 || (threshold == 0 && captured(fixtures)[q].0 < divisor) by {
            assert(pass[q].0 == 0);
        }
    }
    if forall|q: int|
        0 <= q < captured(fixtures).len() ==> (#[trigger] captured(fixtures)[q]).0 == 0 || (
        threshold == 0 && captured(fixtures)[q].0 < divisor) {
        assert forall|q: int| 0 <= q < pass.len() implies (#[trigger] pass[q]).0 == 0 by {
            assert(captured(fixtures)[q].0 == 0 || (threshold == 0 && captured(fixtures)[q].0
                < divisor));
        }
    }
}

/// A recorded plan plays what was captured, from the start again after the end:
/// each of its bytes is the captured one of its place, where the chunks of each
/// fixture cover its bytes.
pub proof fn law_a_recorded_plan_plays_the_captured_bytes(
    fixtures: Seq<Fixture>,
    n: nat,
    i: int,
)
    requires
        captured(fixtures).len() > 0,
        forall|f: int|
            0 <= f < fixtures.len() ==> sum(
                |j: int| (#[trigger] fixtures[f]).chunks@[j].1 as int,
                fixtures[f].chunks@.len() as int,
            ) == fixtures[f].bytes@.len(),
        0 <= i < joined(looped(playlist_contents(fixtures), n)).len(),
    ensures
        ({
            let all = fixtures.map_values(|f: Fixture| f.bytes@).flatten();
            all.len() > 0 && joined(looped(playlist_contents(fixtures), n))[i] == all[i
                % all.len() as int]
        }),
    decreases n,
{
    let runs = playlist_contents(fixtures);
    lemma_pass_len(fixtures, 0, 1);
    lemma_playlist_len(fixtures, 0, 1);
    lemma_pass_bytes(fixtures);
    let all = joined(runs);
    if n <= runs.len() {
        assert(looped(runs, n) =~= runs.take(n as int)) by {
            assert forall|k: int| 0 <= k < n implies looped(runs, n)[k] == runs[k] by {
                vstd::arithmetic::div_mod::lemma_small_mod(k as nat, runs.len());
            }
        }
        lemma_joined_splits(runs.take(n as int), runs.skip(n as int));
        assert(runs =~= runs.take(n as int) + runs.skip(n as int));
        vstd::arithmetic::div_mod::lemma_small_mod(i as nat, all.len());
    } else {
        let m = (n - runs.len()) as nat;
        assert(looped(runs, n) =~= runs + looped(runs, m)) by {
            assert forall|k: int| 0 <= k < n implies looped(runs, n)[k] == (runs + looped(
                runs,
                m,
            ))[k] by {
                if k < runs.len() {
                    vstd::arithmetic::div_mod::lemma_small_mod(k as nat, runs.len());
                } else {
                    vstd::arithmetic::div_mod::lemma_mod_sub_multiples_vanish(
                        k,
                        runs.len() as int,
                    );
                }
            }
        }
        lemma_joined_splits(runs, looped(runs, m));
        if i < all.len() {
            vstd::arithmetic::div_mod::lemma_small_mod(i as nat, all.len());
        } else {
            law_a_recorded_plan_plays_the_captured_bytes(fixtures, m, i - all.len());
            vstd::arithmetic::div_mod::lemma_mod_sub_multiples_vanish(i, all.len() as int);
        }
    }
}

/// The dimensions of a plan hold those of every fixture, and some fixture has each.
pub proof fn law_a_plan_is_as_large_as_its_largest_fixtures(fixtures: Seq<Fixture>)
    requires
        fixtures.len() > 0,
    ensures
        forall|f: int|
            0 <= f < fixtures.len() ==> (#[trigger] fixtures[f]).cols <= widest(fixtures)
                && fixtures[f].rows <= tallest(fixtures),
        exists|f: int| 0 <= f < fixtures.len() && (#[trigger] fixtures[f]).cols == widest(fixtures),
        exists|f: int|
            0 <= f < fixtures.len() && (#[trigger] fixtures[f]).rows == tallest(fixtures),
    decreases fixtures.len(),
{
    let front = fixtures.drop_last();
    assert(fixtures[fixtures.len() - 1] == fixtures.last());
    if front.len() > 0 {
        law_a_plan_is_as_large_as_its_largest_fixtures(front);
        let w = choose|f: int| 0 <= f < front.len() && (#[trigger] front[f]).cols == widest(front);
        let h = choose|f: int| 0 <= f < front.len() && (#[trigger] front[f]).rows == tallest(front);
        assert(fixtures[w] == front[w] && fixtures[h] == front[h]);
        assert forall|f: int| 0 <= f < fixtures.len() implies (#[trigger] fixtures[f]).cols
            <= widest(fixtures) && fixtures[f].rows <= tallest(fixtures) by {
            if f < front.len() {
                assert(front[f] == fixtures[f]);
            }
        }
        let last = fixtures.len() - 1;
        assert(fixtures[w].cols == widest(fixtures) || fixtures[last].cols == widest(fixtures));
        assert(fixtures[h].rows == tallest(fixtures) || fixtures[last].rows == tallest(fixtures));
    } else {
        assert(widest(front) == 0 && tallest(front) == 0);
        assert(fixtures[0].cols == widest(fixtures) && fixtures[0].rows == tallest(fixtures));
    }
}

/// A recording's timing is in order exactly when its offsets rise and end before
/// the stream does, and its times never fall.
pub proof fn law_timing_in_order_rises(records: Seq<TimingRecord>, len: nat)
    requires
        records.len() > 0,
    ensures
        (forall|i: int| 0 <= i < records.len() ==> #[trigger] sound(records, len, i)) <==> (
        records.last().offset < len && forall|i: int, j: int|
            0 <= i < j < records.len() ==> (#[trigger] records[i]).offset < (
            #[trigger] records[j]).offset && records[i].monotonic_ns <= records[j].monotonic_ns),
{
    if forall|i: int| 0 <= i < records.len() ==> #[trigger] sound(records, len, i) {
        assert(sound(records, len, records.len() - 1));
        assert forall|i: int, j: int| 0 <= i < j < records.len() implies (
        #[trigger] records[i]).offset < (#[trigger] records[j]).offset && records[i].monotonic_ns
            <= records[j].monotonic_ns by {
            lemma_sound_rises(records, len, i, j);
        }
    }
    if records.last().offset < len && forall|i: int, j: int|
        0 <= i < j < records.len() ==> (#[trigger] records[i]).offset < (
        #[trigger] records[j]).offset && records[i].monotonic_ns <= records[j].monotonic_ns {
        assert forall|i: int| 0 <= i < records.len() implies #[trigger] sound(
            records,
            len,
            i,
        ) by {
            let last = records.len() - 1;
            if i < last {
                assert(records[i].offset < records[i + 1].offset);
                if i + 1 < last {
                    assert(records[i + 1].offset < records[last].offset);
                }
            }
            if i > 0 {
                assert(records[i - 1].monotonic_ns <= records[i].monotonic_ns);
            }
        }
    }
}

proof fn lemma_sound_rises(records: Seq<TimingRecord>, len: nat, i: int, j: int)
    requires
        0 <= i < j < records.len(),
        forall|k: int| 0 <= k < records.len() ==> #[trigger] sound(records, len, k),
    ensures
        records[i].offset < records[j].offset,
        records[i].monotonic_ns <= records[j].monotonic_ns,
    decreases j - i,
{
    assert(sound(records, len, j - 1) && sound(records, len, j));
    if i < j - 1 {
        lemma_sound_rises(records, len, i, j - 1);
    }
}

/// Chunk `i` of a loaded recording starts at the offset that record `i` says,
/// which is how many bytes the chunks before it hold, ends where the next one
/// starts, and comes, once its gap and those before it are over, when it says.
pub proof fn law_each_chunk_comes_where_and_when_its_record_says(
    records: Seq<TimingRecord>,
    len: nat,
    i: int,
)
    requires
        records[0].offset == 0,
        forall|k: int| 0 <= k < records.len() ==> #[trigger] sound(records, len, k),
        len < 0x1_0000_0000,
        0 <= i < records.len(),
    ensures
        pacing(records, len).len() == records.len(),
        sum(|j: int| pacing(records, len)[j].1 as int, i) == records[i].offset,
        sum(|j: int| pacing(records, len)[j].0 as int, i + 1) == records[i].monotonic_ns,
        sum(|j: int| pacing(records, len)[j].1 as int, records.len() as int) == len,
{
    let p = pacing(records, len);
    let n = records.len() as int;
    let lens = |j: int| p[j].1 as int;
    let gaps = |j: int| p[j].0 as int;
    lemma_pacing_prefix(records, len, i + 1);
    lemma_pacing_prefix(records, len, n);
    lemma_span_is_summed(p.take(i + 1), gaps);
    lemma_volume_is_summed(p.take(n), lens);
    if i > 0 {
        lemma_pacing_prefix(records, len, i);
        lemma_volume_is_summed(p.take(i), lens);
    }
}

proof fn lemma_span_is_summed(chunks: Seq<(u64, u32)>, gaps: spec_fn(int) -> int)
    requires
        forall|j: int| 0 <= j < chunks.len() ==> #[trigger] gaps(j) == chunks[j].0,
    ensures
        span(chunks) == sum(gaps, chunks.len() as int),
    decreases chunks.len(),
{
    if chunks.len() > 0 {
        let front = chunks.drop_last();
        assert forall|j: int| 0 <= j < front.len() implies #[trigger] gaps(j) == front[j].0 by {}
        lemma_span_is_summed(front, gaps);
        assert(gaps(chunks.len() - 1) == chunks.last().0);
    }
}

proof fn lemma_volume_is_summed(chunks: Seq<(u64, u32)>, lens: spec_fn(int) -> int)
    requires
        forall|j: int| 0 <= j < chunks.len() ==> #[trigger] lens(j) == chunks[j].1,
    ensures
        volume(chunks) == sum(lens, chunks.len() as int),
    decreases chunks.len(),
{
    if chunks.len() > 0 {
        let front = chunks.drop_last();
        assert forall|j: int| 0 <= j < front.len() implies #[trigger] lens(j) == front[j].1 by {}
        lemma_volume_is_summed(front, lens);
        assert(lens(chunks.len() - 1) == chunks.last().1);
    }
}

proof fn lemma_no_span(chunks: Seq<(u64, u32)>)
    ensures
        span(chunks) == 0 <==> forall|q: int|
            0 <= q < chunks.len() ==> (#[trigger] chunks[q]).0 == 0,
    decreases chunks.len(),
{
    if chunks.len() > 0 {
        let front = chunks.drop_last();
        lemma_no_span(front);
        assert(chunks[chunks.len() - 1] == chunks.last());
        if span(chunks) == 0 {
            assert forall|q: int| 0 <= q < chunks.len() implies (#[trigger] chunks[q]).0 == 0 by {
                if q < front.len() {
                    assert(front[q] == chunks[q]);
                }
            }
        }
        if forall|q: int| 0 <= q < chunks.len() ==> (#[trigger] chunks[q]).0 == 0 {
            assert forall|q: int| 0 <= q < front.len() implies (#[trigger] front[q]).0 == 0 by {
                assert(front[q] == chunks[q]);
            }
        }
    }
}

proof fn lemma_captured(fixtures: Seq<Fixture>)
    requires
        fixtures.len() > 0,
    ensures
        captured(fixtures) == captured(fixtures.drop_last()) + fixtures.last().chunks@,
        fixtures.map_values(|f: Fixture| f.bytes@).flatten() == fixtures.drop_last().map_values(
            |f: Fixture| f.bytes@,
        ).flatten() + fixtures.last().bytes@,
{
    let chunks = fixtures.map_values(|f: Fixture| f.chunks@);
    let front = fixtures.drop_last().map_values(|f: Fixture| f.chunks@);
    assert(chunks =~= front.push(fixtures.last().chunks@));
    front.lemma_flatten_push(fixtures.last().chunks@);
    let bytes = fixtures.map_values(|f: Fixture| f.bytes@);
    let first = fixtures.drop_last().map_values(|f: Fixture| f.bytes@);
    assert(bytes =~= first.push(fixtures.last().bytes@));
    first.lemma_flatten_push(fixtures.last().bytes@);
}

proof fn lemma_pass_len(fixtures: Seq<Fixture>, threshold: u128, divisor: u64)
    ensures
        playlist(fixtures, threshold, divisor).len() == captured(fixtures).len(),
    decreases fixtures.len(),
{
    if fixtures.len() > 0 {
        lemma_captured(fixtures);
        lemma_pass_len(fixtures.drop_last(), threshold, divisor);
    } else {
        assert(fixtures.map_values(|f: Fixture| f.chunks@).len() == 0);
    }
}

proof fn lemma_pass_shortens(fixtures: Seq<Fixture>, threshold: u128, divisor: u64, q: int)
    requires
        divisor > 0,
        0 <= q < playlist(fixtures, threshold, divisor).len(),
    ensures
        playlist(fixtures, threshold, divisor).len() == captured(fixtures).len(),
        ({
            let entry = playlist(fixtures, threshold, divisor)[q];
            let chunk = captured(fixtures)[q];
            &&& entry.1 == chunk.1
            &&& chunk.0 <= threshold ==> entry.0 == chunk.0
            &&& chunk.0 > threshold ==> entry.0 == threshold + (chunk.0 - threshold)
                / divisor as int
        }),
    decreases fixtures.len(),
{
    lemma_pass_len(fixtures, threshold, divisor);
    lemma_captured(fixtures);
    let front = fixtures.drop_last();
    lemma_pass_len(front, threshold, divisor);
    let before = captured(front).len();
    if q < before {
        lemma_pass_shortens(front, threshold, divisor, q);
    } else {
        let chunk = fixtures.last().chunks@[q - before];
        assert(captured(fixtures)[q] == chunk);
        assert(playlist(fixtures, threshold, divisor)[q] == shortened(
            fixtures.last().chunks@,
            threshold,
            divisor,
        )[q - before]);
        law_bursts_are_never_touched(
            chunk.0 as nat,
            chunk.0 as nat,
            threshold as nat,
            divisor as nat,
        );
    }
}

proof fn lemma_joined_splits(a: Seq<Seq<u8>>, b: Seq<Seq<u8>>)
    ensures
        joined(a + b) == joined(a) + joined(b),
    decreases b.len(),
{
    if b.len() == 0 {
        assert(a + b =~= a);
        assert(joined(a) + joined(b) =~= joined(a));
    } else {
        lemma_joined_splits(a, b.drop_last());
        assert((a + b).drop_last() =~= a + b.drop_last());
        assert(joined(a + b) =~= joined(a) + joined(b));
    }
}

proof fn lemma_fixture_bytes(f: Fixture, n: int)
    requires
        0 <= n <= f.chunks@.len(),
        volume(f.chunks@) <= f.bytes@.len(),
    ensures
        volume(f.chunks@.take(n)) <= volume(f.chunks@),
        joined(contents(f).take(n)) == f.bytes@.take(volume(f.chunks@.take(n)) as int),
    decreases n,
{
    lemma_volume_prefix(f.chunks@, n);
    if n > 0 {
        lemma_fixture_bytes(f, n - 1);
        assert(f.chunks@.take(n).drop_last() =~= f.chunks@.take(n - 1));
        assert(contents(f).take(n).drop_last() =~= contents(f).take(n - 1));
        assert(contents(f).take(n).last() == contents(f)[n - 1]);
        assert(joined(contents(f).take(n)) =~= f.bytes@.take(
            volume(f.chunks@.take(n)) as int,
        ));
    } else {
        assert(joined(contents(f).take(n)) =~= f.bytes@.take(0));
    }
}

proof fn lemma_volume_prefix(chunks: Seq<(u64, u32)>, n: int)
    requires
        0 <= n <= chunks.len(),
    ensures
        volume(chunks.take(n)) <= volume(chunks),
    decreases chunks.len() - n,
{
    if n == chunks.len() {
        assert(chunks.take(n) =~= chunks);
    } else {
        lemma_volume_prefix(chunks, n + 1);
        assert(chunks.take(n + 1).drop_last() =~= chunks.take(n));
    }
}

proof fn lemma_pass_bytes(fixtures: Seq<Fixture>)
    requires
        forall|f: int|
            0 <= f < fixtures.len() ==> sum(
                |j: int| (#[trigger] fixtures[f]).chunks@[j].1 as int,
                fixtures[f].chunks@.len() as int,
            ) == fixtures[f].bytes@.len(),
    ensures
        joined(playlist_contents(fixtures)) == fixtures.map_values(|f: Fixture| f.bytes@).flatten(),
    decreases fixtures.len(),
{
    if fixtures.len() == 0 {
        assert(fixtures.map_values(|f: Fixture| f.bytes@).len() == 0);
    } else {
        let front = fixtures.drop_last();
        let last = fixtures[fixtures.len() - 1];
        assert forall|f: int| 0 <= f < front.len() implies sum(
            |j: int| (#[trigger] front[f]).chunks@[j].1 as int,
            front[f].chunks@.len() as int,
        ) == front[f].bytes@.len() by {
            assert(front[f] == fixtures[f]);
        }
        lemma_pass_bytes(front);
        lemma_captured(fixtures);
        lemma_volume_is_summed(
            last.chunks@,
            |j: int| last.chunks@[j].1 as int,
        );
        let n = last.chunks@.len() as int;
        lemma_fixture_bytes(last, n);
        assert(last.chunks@.take(n) =~= last.chunks@);
        assert(contents(last).take(n) =~= contents(last));
        assert(last.bytes@.take(last.bytes@.len() as int) =~= last.bytes@);
        lemma_joined_splits(playlist_contents(front), contents(last));
    }
}

/// A fixture's name ends in its columns and rows, whatever stands before the last
/// hyphen.
pub proof fn law_a_name_ends_in_its_dimensions(front: Seq<char>, cols: u16, rows: u16)
    ensures
        dims_reading(front.push('-') + decimal(cols as nat) + seq!['x'] + decimal(rows as nat))
            == Ok::<(u16, u16), Seq<char>>((cols, rows)),
        !front.contains('-') ==> dims_reading(front) is Err,
{
    let c = decimal(cols as nat);
    let r = decimal(rows as nat);
    let dims = c + seq!['x'] + r;
    let name = front.push('-') + c + seq!['x'] + r;
    crate::text::lemma_decimal_digits(cols as nat);
    crate::text::lemma_decimal_digits(rows as nat);
    assert forall|i: int| 0 <= i < dims.len() implies dims[i] != '-' by {
        if i < c.len() {
            assert(crate::text::is_digit(c[i]));
        } else if i > c.len() {
            assert(dims[i] == r[i - c.len() - 1]);
            assert(crate::text::is_digit(r[i - c.len() - 1]));
        }
    }
    assert(name =~= front.push('-') + dims);
    lemma_last_of(front.push('-'), dims, '-');
    assert(front.push('-').last() == '-');
    assert(name.skip(front.len() as int + 1) =~= dims);
    assert forall|i: int| 0 <= i < c.len() implies dims[i] != 'x' by {
        assert(crate::text::is_digit(c[i]));
    }
    lemma_cut_at(dims, 'x', c.len() as int);
    assert(dims.take(c.len() as int) =~= c);
    assert(behind(dims, 'x') =~= r);
    crate::text::law_decimal_reads_back(cols as nat, 65535);
    crate::text::law_decimal_reads_back(rows as nat, 65535);
    if !front.contains('-') {
        assert forall|i: int| 0 <= i < front.len() implies front[i] != '-' by {
            assert(front.contains(front[i]));
        }
        lemma_last_of(Seq::empty(), front, '-');
        assert(Seq::<char>::empty() + front =~= front);
    }
}

proof fn lemma_last_of(front: Seq<char>, rest: Seq<char>, c: char)
    requires
        front.len() == 0 || front.last() == c,
        forall|i: int| 0 <= i < rest.len() ==> rest[i] != c,
    ensures
        last_of(front + rest, c) == front.len() - 1,
    decreases rest.len(),
{
    let all = front + rest;
    if rest.len() > 0 {
        lemma_last_of(front, rest.drop_last(), c);
        assert(all.drop_last() =~= front + rest.drop_last());
        assert(all.last() == rest[rest.len() - 1]);
    } else {
        assert(all =~= front);
    }
}

/// The records of a timing file are read in order, and empty lines are none.
pub proof fn law_timing_lines_are_read_in_order(a: Seq<TimingLine>, line: TimingLine)
    ensures
        timing_contents(Seq::empty()).len() == 0,
        line.text@.len() == 0 ==> timing_contents(a.push(line)) == timing_contents(a),
        line.text@.len() > 0 && line.parsed is Ok ==> timing_contents(a.push(line))
            == timing_contents(a).push(line.parsed->Ok_0),
        timing_reading(line) is Err <==> line.text@.len() > 0 && line.parsed is Err,
{
    assert(a.push(line).drop_last() =~= a);
}

/// The longest gap is one that is there and that no other exceeds.
pub proof fn law_the_longest_gap_is_one_of_them(entries: Seq<(u64, u32)>)
    requires
        entries.len() > 0,
    ensures
        forall|i: int| 0 <= i < entries.len() ==> (#[trigger] entries[i]).0 <= longest_gap(entries),
        exists|i: int| 0 <= i < entries.len() && (#[trigger] entries[i]).0 == longest_gap(entries),
    decreases entries.len(),
{
    let front = entries.drop_last();
    let last = entries.len() - 1;
    assert(entries[last] == entries.last());
    if front.len() > 0 {
        law_the_longest_gap_is_one_of_them(front);
        let k = choose|k: int| 0 <= k < front.len() && (#[trigger] front[k]).0 == longest_gap(
            front,
        );
        assert(entries[k] == front[k]);
        assert forall|i: int| 0 <= i < entries.len() implies (#[trigger] entries[i]).0
            <= longest_gap(entries) by {
            if i < last {
                assert(front[i] == entries[i]);
            }
        }
        assert(entries[k].0 == longest_gap(entries) || entries[last].0 == longest_gap(entries));
    } else {
        assert(longest_gap(front) == 0);
        assert(entries[0].0 == longest_gap(entries));
    }
}

/// A gap is refused from two minutes on.
pub proof fn law_the_stall_bound_is_two_minutes(entries: Seq<(u64, u32)>)
    requires
        entries.len() > 0,
    ensures
        longest_gap(entries) >= STALL <==> exists|i: int|
            0 <= i < entries.len() && (#[trigger] entries[i]).0 >= 2 * 60 * 1_000_000_000,
{
    law_the_longest_gap_is_one_of_them(entries);
}

/// A compiled plan plays the captured chunks in their order and from the first
/// again after the last. It keeps each one's length, and its gap up to the
/// threshold; of what is above the threshold it keeps one part in as many as the
/// divisor says. It lasts for the duration asked for, and would not without its
/// last entry.
pub proof fn law_a_compiled_plan_keeps_the_captured_pacing(
    fixtures: &[Fixture],
    options: BuildOptions,
    plan: Plan,
    k: int,
)
    requires
        call_ensures(build_plan, (fixtures, &options), Ok::<Plan, String>(plan)),
        0 <= k < plan.entries@.len(),
    ensures
        captured(fixtures@).len() > 0,
        options.idle_divisor > 0,
        ({
            let chunk = captured(fixtures@)[k % captured(fixtures@).len() as int];
            let over = chunk.0 - options.idle_threshold_ns;
            &&& plan.entries@[k].1 == chunk.1
            &&& over <= 0 ==> plan.entries@[k].0 == chunk.0
            &&& over > 0 ==> plan.entries@[k].0 == options.idle_threshold_ns + over
                / options.idle_divisor as int
        }),
        ({
            let n = plan.entries@.len() as int;
            let gaps = |j: int| plan.entries@[j].0 as int;
            &&& sum(gaps, n) >= options.duration_ns
            &&& n > 1 ==> sum(gaps, n - 1) < options.duration_ns
        }),
        plan.mode == options.mode,
        plan.line_bytes == options.line_bytes,
        plan.checksum_every == options.checksum_every,
{
    law_a_plan_keeps_the_captured_pacing(
        fixtures@,
        options.idle_threshold_ns,
        options.idle_divisor,
        options.duration_ns,
        plan.entries@,
        k,
    );
    law_a_plan_stops_once_its_duration_is_covered(
        fixtures@,
        options.idle_threshold_ns,
        options.idle_divisor,
        options.duration_ns,
        plan.entries@,
    );
}

/// A record at fault is named by its number from one: by the bytes that it spans
/// where it is empty or reaches past the stream, and else by its time.
pub proof fn law_a_faulty_record_is_named_by_its_number(
    path: Seq<char>,
    records: Seq<TimingRecord>,
    len: nat,
    i: int,
)
    requires
        0 <= i < records.len(),
    ensures
        ({
            let from = records[i].offset as nat;
            let to = if i + 1 < records.len() {
                records[i + 1].offset as nat
            } else {
                len
            };
            record_fault(path, records, len, i) == if from < to && to <= len {
                path + ": record "@ + decimal((i + 1) as nat) + " goes backwards in time"@
            } else {
                path + ": record "@ + decimal((i + 1) as nat) + " spans "@ + decimal(from) + ".."@
                    + decimal(to) + " outside 0.."@ + decimal(len) + " or is empty"@
            }
        }),
{
}

} // verus!
