//! What a compiled plan delivers: its totals, the byte stream it stands for,
//! where its chunks fall in that stream, and its form on disk.
use core::ops::Range;

use vstd::prelude::*;
use vstd::string::*;
use vstd::utf8::*;

use crate::replay::{span, volume, Mode, Plan};
use crate::text::{
    byte_len, decimal, lemma_decimal_digits, push_u128, push_u64, push_usize, same_text,
};
use crate::total::{
    is_line, lemma_is_line, lemma_line_feeds_add, lemma_one_line_feed, lemma_sum_same, line_feeds,
    sum,
};

verus! {

/// One line of the generator's stream as it stands in a plan, terminator
/// included.
#[derive(Clone, Debug)]
pub struct GeneratedLine {
    pub text: String,
    /// Whether the line is a checkpoint rather than a payload line.
    pub checkpoint: bool,
}

/// How many whole lines at the front of a stream fit in `room` bytes.
pub open spec fn lines_that_fit(stream: Seq<GeneratedLine>, room: nat) -> nat
    decreases stream.len(),
{
    if stream.len() == 0 || byte_len(stream[0].text@) > room {
        0
    } else {
        1 + lines_that_fit(stream.drop_first(), (room - byte_len(stream[0].text@)) as nat)
    }
}

/// The bytes of a run of lines.
pub open spec fn line_bytes_of(lines: Seq<GeneratedLine>) -> Seq<u8>
    decreases lines.len(),
{
    if lines.len() == 0 {
        Seq::empty()
    } else {
        line_bytes_of(lines.drop_last()) + encode_utf8(lines.last().text@)
    }
}

/// How many of the lines are checkpoints.
pub open spec fn checkpoints_in(lines: Seq<GeneratedLine>) -> nat
    decreases lines.len(),
{
    if lines.len() == 0 {
        0
    } else {
        checkpoints_in(lines.drop_last()) + if lines.last().checkpoint {
            1nat
        } else {
            0nat
        }
    }
}

impl Plan {
    /// The lines of the generator's stream that the plan delivers: whole lines,
    /// for as long as they fit its volume.
    pub open spec fn delivered_lines(&self, stream: Seq<GeneratedLine>) -> Seq<GeneratedLine> {
        stream.take(lines_that_fit(stream, volume(self.entries@)) as int)
    }

    /// The byte stream that the plan stands for.
    pub open spec fn delivered(&self, stream: Seq<GeneratedLine>) -> Seq<u8> {
        match self.mode {
            Mode::Recorded => self.bytes@,
            Mode::Generated => line_bytes_of(self.delivered_lines(stream)),
        }
    }

    /// How long the plan's gaps add up to, in nanoseconds.
    pub fn scheduled_ns(&self) -> (ns: u64)
        requires
            span(self.entries@) <= u64::MAX,
        ensures
            ns == span(self.entries@),
    {
        let mut total: u64 = 0;
        let mut i: usize = 0;
        assert(self.entries@.take(0) =~= Seq::empty());
        while i < self.entries.len()
            invariant
                i <= self.entries@.len(),
                total == span(self.entries@.take(i as int)),
                span(self.entries@) <= u64::MAX,
            decreases self.entries@.len() - i,
        {
            proof {
                assert(self.entries@.take(i + 1).drop_last() =~= self.entries@.take(i as int));
                lemma_sums(self.entries@, i + 1);
            }
            total = total + self.entries[i].0;
            i += 1;
        }
        assert(self.entries@.take(i as int) =~= self.entries@);
        total
    }

    /// How many bytes the plan's chunks add up to.
    pub fn total_bytes(&self) -> (n: u64)
        requires
            volume(self.entries@) <= u64::MAX,
        ensures
            n == volume(self.entries@),
    {
        let mut total: u64 = 0;
        let mut i: usize = 0;
        assert(self.entries@.take(0) =~= Seq::empty());
        while i < self.entries.len()
            invariant
                i <= self.entries@.len(),
                total == volume(self.entries@.take(i as int)),
                volume(self.entries@) <= u64::MAX,
            decreases self.entries@.len() - i,
        {
            proof {
                assert(self.entries@.take(i + 1).drop_last() =~= self.entries@.take(i as int));
                lemma_sums(self.entries@, i + 1);
            }
            total = total + self.entries[i].1 as u64;
            i += 1;
        }
        assert(self.entries@.take(i as int) =~= self.entries@);
        total
    }

    /// How many whole lines of the generator's stream the plan delivers.
    fn fitting_lines(&self, stream: &Vec<GeneratedLine>) -> (n: usize)
        requires
            volume(self.entries@) <= u64::MAX,
        ensures
            n == lines_that_fit(stream@, volume(self.entries@)),
            n <= stream@.len(),
    {
        let mut room: u64 = self.total_bytes();
        let ghost all = room as nat;
        let mut i: usize = 0;
        assert(stream@.skip(0) =~= stream@);
        while i < stream.len() && stream[i].text.as_str().as_bytes().len() as u64 <= room
            invariant
                i <= stream@.len(),
                lines_that_fit(stream@, all) == i + lines_that_fit(
                    stream@.skip(i as int),
                    room as nat,
                ),
            decreases stream@.len() - i,
        {
            proof {
                assert(stream@.skip(i as int)[0] == stream@[i as int]);
                assert(stream@.skip(i as int).drop_first() =~= stream@.skip(i + 1));
            }
            room = room - stream[i].text.as_str().as_bytes().len() as u64;
            i += 1;
        }
        i
    }

    /// The byte stream that the child writes, exactly. For recorded content it
    /// is the captured bytes. For generated content it is the generator's
    /// stream, ending at the last whole line that fits the plan's volume; the
    /// caller hands in the stream from its start, at least as far as the first
    /// line that does not fit.
    pub fn expected_bytes(&self, stream: &Vec<GeneratedLine>) -> (bytes: Vec<u8>)
        requires
            volume(self.entries@) <= u64::MAX,
        ensures
            bytes@ == self.delivered(stream@),
    {
        match self.mode {
            Mode::Recorded => {
                let bytes = self.bytes.clone();
                assert(bytes@ =~= self.bytes@);
                bytes
            },
            Mode::Generated => {
                let n: usize = self.fitting_lines(stream);
                let mut out: Vec<u8> = Vec::new();
                let mut i: usize = 0;
                assert(stream@.take(0) =~= Seq::empty());
                while i < n
                    invariant
                        i <= n <= stream@.len(),
                        out@ == line_bytes_of(stream@.take(i as int)),
                    decreases n - i,
                {
                    let ghost before = out@;
                    let bytes = stream[i].text.as_str().as_bytes();
                    out.extend_from_slice(bytes);
                    proof {
                        assert(out@ =~= before + bytes@);
                        assert(stream@.take(i + 1).drop_last() =~= stream@.take(i as int));
                    }
                    i += 1;
                }
                out
            },
        }
    }

    /// How many payload and checkpoint lines the generated stream delivers.
    pub fn expected_line_counts(&self, stream: &Vec<GeneratedLine>) -> (counts: (u64, u64))
        requires
            self.mode == Mode::Generated,
            volume(self.entries@) <= u64::MAX,
        ensures
            counts.1 == checkpoints_in(self.delivered_lines(stream@)),
            counts.0 + counts.1 == self.delivered_lines(stream@).len(),
    {
        let n: usize = self.fitting_lines(stream);
        let mut checkpoints: u64 = 0;
        let mut i: usize = 0;
        assert(stream@.take(0) =~= Seq::empty());
        while i < n
            invariant
                i <= n <= stream@.len(),
                checkpoints == checkpoints_in(stream@.take(i as int)),
                checkpoints <= i,
            decreases n - i,
        {
            assert(stream@.take(i + 1).drop_last() =~= stream@.take(i as int));
            if stream[i].checkpoint {
                checkpoints = checkpoints + 1;
            }
            i += 1;
        }
        (n as u64 - checkpoints, checkpoints)
    }

    /// How many payload lines the generated stream delivers.
    pub fn expected_payload_lines(&self, stream: &Vec<GeneratedLine>) -> (n: u64)
        requires
            self.mode == Mode::Generated,
            volume(self.entries@) <= u64::MAX,
        ensures
            n + checkpoints_in(self.delivered_lines(stream@)) == self.delivered_lines(
                stream@,
            ).len(),
    {
        self.expected_line_counts(stream).0
    }

    /// The chunk boundaries as delivered: consecutive ranges of the stream, each
    /// of its entry's length until the delivered bytes run out.
    pub fn chunk_ranges(&self, delivered: usize) -> (ranges: Vec<(u64, Range<usize>)>)
        ensures
            ranges@.len() == self.entries@.len(),
            forall|i: int| #![trigger ranges@[i]]
                0 <= i < ranges@.len() ==> {
                    &&& ranges@[i].0 == self.entries@[i].0
                    &&& ranges@[i].1.start == boundary(self.entries@, delivered as nat, i)
                    &&& ranges@[i].1.end == boundary(self.entries@, delivered as nat, i + 1)
                },
    {
        let mut ranges: Vec<(u64, Range<usize>)> = Vec::new();
        let mut offset: usize = 0;
        let mut i: usize = 0;
        assert(self.entries@.take(0) =~= Seq::empty());
        while i < self.entries.len()
            invariant
                i <= self.entries@.len(),
                ranges@.len() == i,
                offset == boundary(self.entries@, delivered as nat, i as int),
                offset <= delivered,
                forall|k: int| #![trigger ranges@[k]]
                    0 <= k < i ==> {
                        &&& ranges@[k].0 == self.entries@[k].0
                        &&& ranges@[k].1.start == boundary(self.entries@, delivered as nat, k)
                        &&& ranges@[k].1.end == boundary(self.entries@, delivered as nat, k + 1)
                    },
            decreases self.entries@.len() - i,
        {
            let (gap, len): (u64, u32) = self.entries[i];
            assert(self.entries@.take(i + 1).drop_last() =~= self.entries@.take(i as int));
            let left: usize = delivered - offset;
            let end: usize = if len as u64 <= left as u64 {
                offset + len as usize
            } else {
                delivered
            };
            ranges.push((gap, offset..end));
            offset = end;
            i += 1;
        }
        ranges
    }

    /// The plan as the child reads it: a header line, then one line per chunk.
    pub open spec fn written(&self) -> Seq<char> {
        "{\"mode\":\""@ + self.mode.label() + "\",\"line_bytes\":"@ + decimal(
            self.line_bytes as nat,
        ) + ",\"checksum_every\":"@ + decimal(self.checksum_every as nat) + ",\"chunks\":"@
            + decimal(self.entries@.len()) + "}\n"@ + entry_lines(self.entries@)
    }

    /// Serialise for the child. Recorded bytes travel beside this text.
    pub fn to_text(&self) -> (text: String)
        ensures
            text@ == self.written(),
    {
        let mut text = "{\"mode\":\"".to_owned();
        text.append(self.mode.name());
        text.append("\",\"line_bytes\":");
        push_usize(&mut text, self.line_bytes);
        text.append(",\"checksum_every\":");
        push_u64(&mut text, self.checksum_every);
        text.append(",\"chunks\":");
        push_usize(&mut text, self.entries.len());
        text.append("}\n");
        let ghost head = text@;
        let mut i: usize = 0;
        assert(self.entries@.take(0) =~= Seq::empty());
        assert(head + entry_lines(Seq::empty()) =~= head);
        while i < self.entries.len()
            invariant
                i <= self.entries@.len(),
                text@ == head + entry_lines(self.entries@.take(i as int)),
            decreases self.entries@.len() - i,
        {
            let ghost before = text@;
            let ghost done = entry_lines(self.entries@.take(i as int));
            let (gap, len): (u64, u32) = self.entries[i];
            text.append("{\"gap_ns\":");
            push_u64(&mut text, gap);
            text.append(",\"len\":");
            push_u64(&mut text, len as u64);
            text.append("}\n");
            proof {
                assert(self.entries@.take(i + 1).drop_last() =~= self.entries@.take(i as int));
                assert(text@ =~= before + entry_line(self.entries@[i as int]));
                assert(head + done + entry_line(self.entries@[i as int]) =~= head + (done
                    + entry_line(self.entries@[i as int])));
            }
            i += 1;
        }
        assert(self.entries@.take(i as int) =~= self.entries@);
        text
    }
}

/// Where chunk `i` starts in a stream of `delivered` bytes.
pub open spec fn boundary(entries: Seq<(u64, u32)>, delivered: nat, i: int) -> nat {
    let v = volume(entries.take(i));
    if v < delivered {
        v
    } else {
        delivered
    }
}

/// One chunk as the child reads it.
pub open spec fn entry_line(entry: (u64, u32)) -> Seq<char> {
    "{\"gap_ns\":"@ + decimal(entry.0 as nat) + ",\"len\":"@ + decimal(entry.1 as nat) + "}\n"@
}

/// The chunks as the child reads them.
pub open spec fn entry_lines(entries: Seq<(u64, u32)>) -> Seq<char>
    decreases entries.len(),
{
    if entries.len() == 0 {
        Seq::empty()
    } else {
        entry_lines(entries.drop_last()) + entry_line(entries.last())
    }
}

proof fn lemma_sums(entries: Seq<(u64, u32)>, n: int)
    requires
        0 <= n <= entries.len(),
    ensures
        span(entries.take(n)) <= span(entries),
        volume(entries.take(n)) <= volume(entries),
    decreases entries.len() - n,
{
    if n == entries.len() {
        assert(entries.take(n) =~= entries);
    } else {
        lemma_sums(entries, n + 1);
        assert(entries.take(n + 1).drop_last() =~= entries.take(n));
    }
}

/// What a plan's header line says.
#[derive(Clone, Copy, Debug)]
pub struct PlanHeader {
    pub mode: Mode,
    pub line_bytes: usize,
    pub checksum_every: u64,
    pub chunks: u64,
}

/// What is said of a plan whose header promises another number of chunks.
pub open spec fn count_fault(path: Seq<char>, promised: u64, carried: nat) -> Seq<char> {
    path + ": header promises "@ + decimal(promised as nat) + " chunks, file carries "@ + decimal(
        carried,
    )
}

/// What is said of a bytes file of another length than the plan.
pub open spec fn bytes_fault(path: Seq<char>, held: nat, expected: nat) -> Seq<char> {
    path + ": "@ + decimal(held) + " bytes for a plan of "@ + decimal(expected)
}

/// A bytes file that was read: where from, and what it holds.
pub struct BytesFile {
    pub path: String,
    pub bytes: Vec<u8>,
}

/// A bytes file's contents.
pub open spec fn file_view(file: Option<BytesFile>) -> Option<(Seq<char>, Seq<u8>)> {
    match file {
        Some(f) => Some((f.path@, f.bytes@)),
        None => None,
    }
}

/// What stands against a plan that was read at `path`; none where nothing does.
pub open spec fn assembly_fault(
    path: Seq<char>,
    header: PlanHeader,
    entries: Seq<(u64, u32)>,
    file: Option<(Seq<char>, Seq<u8>)>,
) -> Option<Seq<char>> {
    if entries.len() != header.chunks {
        Some(count_fault(path, header.chunks, entries.len()))
    } else {
        match (header.mode, file) {
            (Mode::Generated, _) => None,
            (Mode::Recorded, None) => Some("a recorded plan needs its bytes file"@),
            (Mode::Recorded, Some((from, bytes))) => if bytes.len() == volume(entries) {
                None
            } else {
                Some(bytes_fault(from, bytes.len(), volume(entries)))
            },
        }
    }
}

/// The header of a plan as it is written.
pub open spec fn header_of(plan: Plan) -> PlanHeader {
    PlanHeader {
        mode: plan.mode,
        line_bytes: plan.line_bytes,
        checksum_every: plan.checksum_every,
        chunks: plan.entries@.len() as u64,
    }
}

/// A plan is accepted back from its own files: with the header, the chunks and
/// the bytes that were written, nothing stands against it.
pub proof fn law_a_plan_is_accepted_back(plan: Plan, path: Seq<char>, bytes_path: Seq<char>)
    requires
        plan.entries@.len() <= u64::MAX,
        plan.mode == Mode::Recorded ==> plan.bytes@.len() == volume(plan.entries@),
    ensures
        assembly_fault(path, header_of(plan), plan.entries@, Some((bytes_path, plan.bytes@))) is None,
{
}

/// A line of a plan behind its header: its text, and what it parses as.
#[derive(Debug)]
pub struct EntryLine {
    pub text: String,
    /// The gap and the length of a chunk, or the parser's complaint.
    pub parsed: Result<(u64, u32), String>,
}

/// What a line contributes: nothing where it is empty, its contents, or the
/// reason why it has none.
pub open spec fn entry_reading(line: EntryLine) -> Result<Option<(u64, u32)>, Seq<char>> {
    if line.text@.len() == 0 {
        Ok(None)
    } else {
        match line.parsed {
            Ok(value) => Ok(Some(value)),
            Err(why) => Err(why@),
        }
    }
}

/// The contents of lines that all have some or are empty, in order.
pub open spec fn entry_contents(lines: Seq<EntryLine>) -> Seq<(u64, u32)>
    decreases lines.len(),
{
    if lines.len() == 0 {
        Seq::empty()
    } else {
        match entry_reading(lines.last()) {
            Ok(Some(value)) => entry_contents(lines.drop_last()).push(value),
            _ => entry_contents(lines.drop_last()),
        }
    }
}

/// Whether line `i` is the first that cannot be read.
pub open spec fn first_bad_entry(lines: Seq<EntryLine>, i: int) -> bool {
    &&& 0 <= i < lines.len()
    &&& entry_reading(lines[i]) is Err
    &&& forall|j: int| 0 <= j < i ==> entry_reading(#[trigger] lines[j]) is Ok
}

/// Read the chunks of the plan at `path`, whose header is its first line. Any
/// malformed line is an error.
pub fn plan_entries(path: &str, lines: &Vec<EntryLine>) -> (r: Result<Vec<(u64, u32)>, String>)
    ensures
        match r {
            Ok(values) => {
                &&& forall|i: int|
                    0 <= i < lines@.len() ==> entry_reading(#[trigger] lines@[i]) is Ok
                &&& values@ == entry_contents(lines@)
            },
            Err(text) => exists|i: int| #[trigger]
                first_bad_entry(lines@, i) && text@ == path@ + ":"@ + decimal((i + 2) as nat)
                    + ": "@ + entry_reading(lines@[i])->Err_0,
        },
{
    let mut values: Vec<(u64, u32)> = Vec::new();
    let mut i: usize = 0;
    assert(lines@.take(0) =~= Seq::empty());
    while i < lines.len()
        invariant
            i <= lines@.len(),
            forall|j: int| 0 <= j < i ==> entry_reading(#[trigger] lines@[j]) is Ok,
            values@ == entry_contents(lines@.take(i as int)),
        decreases lines@.len() - i,
    {
        assert(lines@.take(i + 1).drop_last() =~= lines@.take(i as int));
        let line = &lines[i];
        proof {
            reveal_strlit("");
            assert(line.text@.len() == 0 ==> line.text@ =~= ""@);
        }
        if !same_text(line.text.as_str(), "") {
            match &line.parsed {
                Ok(value) => {
                    values.push(*value);
                },
                Err(why) => {
                    let mut text = path.to_owned();
                    text.append(":");
                    push_u128(&mut text, i as u128 + 2);
                    text.append(": ");
                    text.append(why.as_str());
                    assert(first_bad_entry(lines@, i as int));
                    return Err(text);
                },
            }
        }
        i += 1;
    }
    assert(lines@.take(i as int) =~= lines@);
    Ok(values)
}

/// What the first line of a plan comes to: its header, or why it has none.
pub open spec fn header_reading(
    path: Seq<char>,
    first: Option<Result<PlanHeader, String>>,
) -> Result<PlanHeader, Seq<char>> {
    match first {
        None => Err(path + ": empty plan"@),
        Some(Err(why)) => Err(path + ": header: "@ + why@),
        Some(Ok(header)) => Ok(header),
    }
}

/// Read the header of the plan at `path` from what its first line parses as.
pub fn plan_header(path: &str, first: Option<Result<PlanHeader, String>>) -> (r: Result<
    PlanHeader,
    String,
>)
    ensures
        match r {
            Ok(header) => header_reading(path@, first) == Ok::<PlanHeader, Seq<char>>(header),
            Err(text) => header_reading(path@, first) == Err::<PlanHeader, Seq<char>>(text@),
        },
{
    match first {
        None => {
            let mut text = path.to_owned();
            text.append(": empty plan");
            Err(text)
        },
        Some(Err(why)) => {
            let mut text = path.to_owned();
            text.append(": header: ");
            text.append(why.as_str());
            Err(text)
        },
        Some(Ok(header)) => Ok(header),
    }
}

/// Put a plan together from what was read at `path`: its header, its chunks and,
/// for recorded content, its bytes.
pub fn assemble_plan(
    path: &str,
    header: PlanHeader,
    entries: Vec<(u64, u32)>,
    file: Option<BytesFile>,
) -> (r: Result<Plan, String>)
    requires
        volume(entries@) <= u64::MAX,
    ensures
        match r {
            Ok(plan) => {
                &&& assembly_fault(path@, header, entries@, file_view(file)) is None
                &&& plan.mode == header.mode
                &&& plan.line_bytes == header.line_bytes
                &&& plan.checksum_every == header.checksum_every
                &&& plan.entries == entries
                &&& plan.bytes@ == match (header.mode, file) {
                    (Mode::Recorded, Some(f)) => f.bytes@,
                    _ => Seq::<u8>::empty(),
                }
                &&& plan.sources@.len() == 0
                &&& plan.cols == 0
                &&& plan.rows == 0
                &&& plan.idle_threshold_ns == 0
                &&& plan.idle_divisor == 1
            },
            Err(text) => assembly_fault(path@, header, entries@, file_view(file)) == Some(text@),
        },
{
    if entries.len() as u64 != header.chunks {
        let mut text = path.to_owned();
        text.append(": header promises ");
        push_u64(&mut text, header.chunks);
        text.append(" chunks, file carries ");
        push_usize(&mut text, entries.len());
        return Err(text);
    }
    let mut plan = Plan {
        mode: header.mode,
        line_bytes: header.line_bytes,
        checksum_every: header.checksum_every,
        entries,
        bytes: Vec::new(),
        sources: Vec::new(),
        cols: 0,
        rows: 0,
        idle_threshold_ns: 0,
        idle_divisor: 1,
    };
    match header.mode {
        Mode::Generated => Ok(plan),
        Mode::Recorded => match file {
            None => Err("a recorded plan needs its bytes file".to_owned()),
            Some(f) => {
                let expected: u64 = plan.total_bytes();
                if f.bytes.len() as u64 != expected {
                    let mut text = f.path;
                    text.append(": ");
                    push_usize(&mut text, f.bytes.len());
                    text.append(" bytes for a plan of ");
                    push_u64(&mut text, expected);
                    return Err(text);
                }
                plan.bytes = f.bytes;
                Ok(plan)
            },
        },
    }
}

/// The delivered chunks are consecutive and cover the stream exactly: the first
/// starts at its start, each starts where the one before it ended, and the last
/// ends at its end.
pub proof fn law_chunks_cover_the_stream(entries: Seq<(u64, u32)>, delivered: nat, i: int)
    requires
        0 <= i < entries.len(),
        delivered <= volume(entries),
    ensures
        boundary(entries, delivered, 0) == 0,
        boundary(entries, delivered, i) <= boundary(entries, delivered, i + 1),
        boundary(entries, delivered, i + 1) - boundary(entries, delivered, i) <= entries[i].1,
        boundary(entries, delivered, entries.len() as int) == delivered,
{
    assert(entries.take(0) =~= Seq::empty());
    assert(entries.take(entries.len() as int) =~= entries);
    assert(entries.take(i + 1).drop_last() =~= entries.take(i));
}

/// A generated plan never schedules its own truncation: what it delivers is
/// whole lines, no more than its volume, and falls short of the volume by less
/// than the next line.
pub proof fn law_delivery_is_whole_lines(stream: Seq<GeneratedLine>, room: nat)
    ensures
        ({
            let n = lines_that_fit(stream, room);
            &&& n <= stream.len()
            &&& line_bytes_of(stream.take(n as int)).len() <= room
            &&& n < stream.len() ==> line_bytes_of(stream.take(n as int)).len() + byte_len(
                stream[n as int].text@,
            ) > room
        }),
    decreases stream.len(),
{
    let n = lines_that_fit(stream, room);
    if stream.len() == 0 || byte_len(stream[0].text@) > room {
        assert(stream.take(0) =~= Seq::empty());
    } else {
        let rest = stream.drop_first();
        law_delivery_is_whole_lines(rest, (room - byte_len(stream[0].text@)) as nat);
        lemma_line_bytes_front(stream, n as int);
        assert(stream.take(n as int).drop_first() =~= rest.take(n - 1));
    }
}

proof fn lemma_line_bytes_front(stream: Seq<GeneratedLine>, n: int)
    requires
        0 < n <= stream.len(),
    ensures
        line_bytes_of(stream.take(n)) == encode_utf8(stream[0].text@) + line_bytes_of(
            stream.drop_first().take(n - 1),
        ),
    decreases n,
{
    let all = stream.take(n);
    let rest = stream.drop_first();
    assert(all.drop_last() =~= stream.take(n - 1));
    if n == 1 {
        assert(stream.take(0) =~= Seq::empty());
        assert(rest.take(0) =~= Seq::empty());
        assert(line_bytes_of(stream.take(0)) =~= Seq::empty());
        assert(line_bytes_of(all) =~= encode_utf8(stream[0].text@) + line_bytes_of(rest.take(0)));
    } else {
        lemma_line_bytes_front(stream, n - 1);
        assert(rest.take(n - 1).drop_last() =~= rest.take(n - 2));
        let first = encode_utf8(stream[0].text@);
        let mid = line_bytes_of(rest.take(n - 2));
        let last = encode_utf8(all.last().text@);
        assert((first + mid) + last =~= first + (mid + last));
    }
}

/// How much of the generator's stream is handed in does not matter, once it
/// reaches past the plan's volume.
pub proof fn law_delivery_ignores_the_rest_of_the_stream(
    stream: Seq<GeneratedLine>,
    more: Seq<GeneratedLine>,
    room: nat,
)
    requires
        lines_that_fit(stream, room) < stream.len(),
    ensures
        lines_that_fit(stream + more, room) == lines_that_fit(stream, room),
        (stream + more).take(lines_that_fit(stream, room) as int) == stream.take(
            lines_that_fit(stream, room) as int,
        ),
    decreases stream.len(),
{
    law_delivery_is_whole_lines(stream, room);
    if byte_len(stream[0].text@) <= room {
        law_delivery_ignores_the_rest_of_the_stream(
            stream.drop_first(),
            more,
            (room - byte_len(stream[0].text@)) as nat,
        );
        assert((stream + more).drop_first() =~= stream.drop_first() + more);
    }
    assert((stream + more).take(lines_that_fit(stream, room) as int) =~= stream.take(
        lines_that_fit(stream, room) as int,
    ));
}

/// Which line of the generator's stream comes next.
#[derive(Clone, Copy, Debug, PartialEq, Eq, Structural)]
pub enum NextLine {
    /// Payload line `seq`.
    Payload { seq: u64 },
    /// The checkpoint over the first `covered` payload lines.
    Checkpoint { covered: u64 },
}

/// The order of the generator's line stream: payload lines, with a checkpoint
/// after every `checksum_every` of them, or none where that is zero.
#[derive(Clone, Copy, Debug)]
pub struct GeneratedStream {
    line_bytes: usize,
    checksum_every: u64,
    seq: u64,
    queued: bool,
}

impl GeneratedStream {
    /// How many payload lines have come.
    pub closed spec fn payloads(&self) -> u64 {
        self.seq
    }

    /// Whether a checkpoint is owed next.
    pub closed spec fn owes_checkpoint(&self) -> bool {
        self.queued
    }

    /// How many payload lines lie between two checkpoints.
    pub closed spec fn every(&self) -> u64 {
        self.checksum_every
    }

    /// How many bytes of payload each line carries.
    pub closed spec fn width(&self) -> usize {
        self.line_bytes
    }

    /// A checkpoint is owed only right after a payload line that completes a block.
    pub open spec fn wf(&self) -> bool {
        self.owes_checkpoint() ==> self.every() > 0 && self.payloads() > 0 && self.payloads()
            % self.every() == 0
    }

    /// The stream from its start.
    pub fn new(line_bytes: usize, checksum_every: u64) -> (s: Self)
        ensures
            s.wf(),
            s.payloads() == 0,
            !s.owes_checkpoint(),
            s.every() == checksum_every,
            s.width() == line_bytes,
    {
        GeneratedStream { line_bytes, checksum_every, seq: 0, queued: false }
    }

    /// How many bytes of payload each line carries.
    pub fn line_bytes(&self) -> (n: usize)
        ensures
            n == self.width(),
    {
        self.line_bytes
    }

    /// The next line of the stream.
    pub fn next_line(&mut self) -> (line: NextLine)
        requires
            old(self).wf(),
            old(self).payloads() < u64::MAX,
        ensures
            final(self).wf(),
            final(self).every() == old(self).every(),
            final(self).width() == old(self).width(),
            if old(self).owes_checkpoint() {
                &&& line == NextLine::Checkpoint { covered: old(self).payloads() }
                &&& final(self).payloads() == old(self).payloads()
                &&& !final(self).owes_checkpoint()
            } else {
                &&& line == NextLine::Payload { seq: old(self).payloads() }
                &&& final(self).payloads() == old(self).payloads() + 1
                &&& final(self).owes_checkpoint() == (old(self).every() > 0
                    && final(self).payloads() % old(self).every() == 0)
            },
    {
        if self.queued {
            self.queued = false;
            return NextLine::Checkpoint { covered: self.seq };
        }
        let seq: u64 = self.seq;
        self.seq = seq + 1;
        self.queued = self.checksum_every > 0 && self.seq % self.checksum_every == 0;
        NextLine::Payload { seq }
    }
}

/// A written plan is one header line and a line for each chunk, in order: line
/// `i + 1` says the gap and the length of chunk `i`.
pub proof fn law_each_chunk_has_its_line(plan: Plan, i: int)
    requires
        0 <= i < plan.entries@.len(),
    ensures
        exists|start: int, end: int| #[trigger]
            is_line(plan.written(), i + 1, start, end) && plan.written().subrange(start, end)
                == "{\"gap_ns\":"@ + decimal(plan.entries@[i].0 as nat) + ",\"len\":"@ + decimal(
                plan.entries@[i].1 as nat,
            ) + "}"@,
        line_feeds(plan.written()) == plan.entries@.len() + 1,
{
    let entries = plan.entries@;
    let head = plan.written().take(plan.written().len() - entry_lines(entries).len());
    lemma_header_line(plan);
    lemma_entry_feeds(entries);
    lemma_entry_feeds(entries.take(i));
    lemma_entry_lines_grow(entries, i + 1);
    let next = entries.take(i + 1);
    assert(next.drop_last() =~= entries.take(i));
    let body = entry_body(entries[i]);
    lemma_entry_body(entries[i]);
    let before = head + entry_lines(entries.take(i));
    lemma_line_feeds_add(head, entry_lines(entries.take(i)));
    lemma_line_feeds_add(head, entry_lines(entries));
    let after = entry_lines(entries).skip(entry_lines(next).len() as int);
    assert(plan.written() =~= head + entry_lines(entries));
    assert(entry_lines(entries) =~= entry_lines(entries.take(i)) + body.push('\n') + after);
    assert(plan.written() =~= before + body.push('\n') + after);
    lemma_is_line(before, body, after);
    assert(is_line(
        plan.written(),
        i + 1,
        before.len() as int,
        before.len() + body.len() as int,
    ));
}

/// The first line of a written plan says how its content is made and how many
/// chunks follow.
pub proof fn law_a_plan_begins_with_its_header(plan: Plan)
    ensures
        exists|end: int| #[trigger]
            is_line(plan.written(), 0, 0, end) && plan.written().subrange(0, end)
                == "{\"mode\":\""@ + plan.mode.label() + "\",\"line_bytes\":"@ + decimal(
                plan.line_bytes as nat,
            ) + ",\"checksum_every\":"@ + decimal(plan.checksum_every as nat) + ",\"chunks\":"@
                + decimal(plan.entries@.len()) + "}"@,
{
    lemma_header_line(plan);
    let body = header_body(plan);
    let none = Seq::<char>::empty();
    assert(plan.written() =~= none + body.push('\n') + entry_lines(plan.entries@));
    lemma_is_line(none, body, entry_lines(plan.entries@));
    assert(is_line(plan.written(), 0, 0, body.len() as int));
}

spec fn header_body(plan: Plan) -> Seq<char> {
    "{\"mode\":\""@ + plan.mode.label() + "\",\"line_bytes\":"@ + decimal(plan.line_bytes as nat)
        + ",\"checksum_every\":"@ + decimal(plan.checksum_every as nat) + ",\"chunks\":"@ + decimal(
        plan.entries@.len(),
    ) + "}"@
}

#[verifier::rlimit(40)]
proof fn lemma_header_line(plan: Plan)
    ensures
        !header_body(plan).contains('\n'),
        plan.written() == header_body(plan).push('\n') + entry_lines(plan.entries@),
        ({
            let head = plan.written().take(
                plan.written().len() - entry_lines(plan.entries@).len(),
            );
            head == header_body(plan).push('\n') && line_feeds(head) == 1
        }),
{
    reveal_strlit("{\"mode\":\"");
    reveal_strlit("\",\"line_bytes\":");
    reveal_strlit(",\"checksum_every\":");
    reveal_strlit(",\"chunks\":");
    reveal_strlit("}");
    reveal_strlit("}\n");
    reveal_strlit("recorded");
    reveal_strlit("generated");
    lemma_decimal_digits(plan.line_bytes as nat);
    lemma_decimal_digits(plan.checksum_every as nat);
    lemma_decimal_digits(plan.entries@.len());
    let body = header_body(plan);
    assert(plan.written() =~= body.push('\n') + entry_lines(plan.entries@));
    lemma_one_line_feed(body);
    assert(plan.written().take(plan.written().len() - entry_lines(plan.entries@).len())
        =~= body.push('\n'));
}

spec fn entry_body(entry: (u64, u32)) -> Seq<char> {
    "{\"gap_ns\":"@ + decimal(entry.0 as nat) + ",\"len\":"@ + decimal(entry.1 as nat) + "}"@
}

proof fn lemma_entry_body(entry: (u64, u32))
    ensures
        entry_line(entry) == entry_body(entry).push('\n'),
        !entry_body(entry).contains('\n'),
{
    reveal_strlit("{\"gap_ns\":");
    reveal_strlit(",\"len\":");
    reveal_strlit("}");
    reveal_strlit("}\n");
    lemma_decimal_digits(entry.0 as nat);
    lemma_decimal_digits(entry.1 as nat);
    assert(entry_line(entry) =~= entry_body(entry).push('\n'));
}

proof fn lemma_entry_feeds(entries: Seq<(u64, u32)>)
    ensures
        line_feeds(entry_lines(entries)) == entries.len(),
        entry_lines(entries).len() == 0 || entry_lines(entries).last() == '\n',
    decreases entries.len(),
{
    if entries.len() > 0 {
        let front = entries.drop_last();
        lemma_entry_feeds(front);
        lemma_entry_body(entries.last());
        lemma_one_line_feed(entry_body(entries.last()));
        lemma_line_feeds_add(entry_lines(front), entry_line(entries.last()));
    }
}

proof fn lemma_entry_lines_grow(entries: Seq<(u64, u32)>, n: int)
    requires
        0 <= n <= entries.len(),
    ensures
        entry_lines(entries.take(n)).len() <= entry_lines(entries).len(),
        entry_lines(entries).take(entry_lines(entries.take(n)).len() as int) == entry_lines(
            entries.take(n),
        ),
    decreases entries.len() - n,
{
    if n == entries.len() {
        assert(entries.take(n) =~= entries);
        assert(entry_lines(entries).take(entry_lines(entries).len() as int) =~= entry_lines(
            entries,
        ));
    } else {
        lemma_entry_lines_grow(entries, n + 1);
        assert(entries.take(n + 1).drop_last() =~= entries.take(n));
        let short = entry_lines(entries.take(n));
        let long = entry_lines(entries.take(n + 1));
        assert(long.take(short.len() as int) =~= short);
        assert(entry_lines(entries).take(short.len() as int) =~= long.take(short.len() as int));
    }
}

/// Chunk `i` of a delivery begins behind the lengths of the chunks before it, or
/// at the end of what is delivered where that comes first.
pub proof fn law_a_chunk_begins_behind_those_before_it(
    entries: Seq<(u64, u32)>,
    delivered: nat,
    i: int,
)
    requires
        0 <= i <= entries.len(),
    ensures
        ({
            let before = sum(|j: int| entries[j].1 as int, i);
            boundary(entries, delivered, i) == if before < delivered {
                before
            } else {
                delivered as int
            }
        }),
{
    lemma_lengths_are_summed(entries.take(i), |j: int| entries[j].1 as int);
}

proof fn lemma_lengths_are_summed(entries: Seq<(u64, u32)>, lens: spec_fn(int) -> int)
    requires
        forall|j: int| 0 <= j < entries.len() ==> #[trigger] lens(j) == entries[j].1,
    ensures
        volume(entries) == sum(lens, entries.len() as int),
    decreases entries.len(),
{
    if entries.len() > 0 {
        let front = entries.drop_last();
        assert forall|j: int| 0 <= j < front.len() implies #[trigger] lens(j) == front[j].1 by {}
        lemma_lengths_are_summed(front, lens);
        assert(lens(entries.len() - 1) == entries.last().1);
    }
}

/// What a generated plan delivers is the bytes of its lines, one after the other,
/// and its checkpoints are those lines that are checkpoints.
pub proof fn law_delivered_bytes_are_those_of_the_lines(lines: Seq<GeneratedLine>)
    ensures
        line_bytes_of(lines) == lines.map_values(
            |l: GeneratedLine| encode_utf8(l.text@),
        ).flatten(),
        checkpoints_in(lines) == sum(
            |j: int| if lines[j].checkpoint { 1int } else { 0int },
            lines.len() as int,
        ),
    decreases lines.len(),
{
    let bytes = lines.map_values(|l: GeneratedLine| encode_utf8(l.text@));
    if lines.len() > 0 {
        let front = lines.drop_last();
        law_delivered_bytes_are_those_of_the_lines(front);
        let first = front.map_values(|l: GeneratedLine| encode_utf8(l.text@));
        assert(bytes =~= first.push(encode_utf8(lines.last().text@)));
        first.lemma_flatten_push(encode_utf8(lines.last().text@));
        lemma_sum_same(
            |j: int| if lines[j].checkpoint { 1int } else { 0int },
            |j: int| if front[j].checkpoint { 1int } else { 0int },
            front.len() as int,
        );
    } else {
        assert(bytes.len() == 0);
    }
}

/// A plan is refused exactly when its file carries another number of chunks than
/// its header promises, or when it is of recorded content and its bytes are
/// missing or not as many as its chunks add up to.
pub proof fn law_a_plan_is_refused_for_what_is_missing(
    path: Seq<char>,
    header: PlanHeader,
    entries: Seq<(u64, u32)>,
    file: Option<(Seq<char>, Seq<u8>)>,
)
    ensures
        assembly_fault(path, header, entries, file) is None <==> header.chunks == entries.len() && (
        header.mode == Mode::Recorded ==> file is Some && (file->0).1.len() == sum(
            |j: int| entries[j].1 as int,
            entries.len() as int,
        )),
{
    lemma_lengths_are_summed(entries, |j: int| entries[j].1 as int);
}

/// The lines of a plan contribute in order: what parses, where it is not empty.
pub proof fn law_plan_lines_are_read_in_order(a: Seq<EntryLine>, line: EntryLine)
    ensures
        line.text@.len() == 0 ==> entry_contents(a.push(line)) == entry_contents(a),
        line.text@.len() > 0 && line.parsed is Ok ==> entry_contents(a.push(line))
            == entry_contents(a).push(line.parsed->Ok_0),
        entry_contents(Seq::empty()).len() == 0,
        entry_reading(line) is Err <==> line.text@.len() > 0 && line.parsed is Err,
{
    assert(a.push(line).drop_last() =~= a);
}

/// Payload lines are numbered in a row from where the stream stands. Behind a line
/// that completes a multiple of the interval comes a checkpoint that covers every
/// line so far, and behind no other; the line behind a checkpoint is a payload.
pub proof fn law_a_checkpoint_comes_behind_every_full_interval(
    stream: &mut GeneratedStream,
    line: NextLine,
)
    requires
        old(stream).wf(),
        old(stream).payloads() < u64::MAX,
        call_ensures(GeneratedStream::next_line, (stream,), line),
    ensures
        line matches NextLine::Payload { seq } ==> {
            &&& seq == old(stream).payloads()
            &&& final(stream).payloads() == seq + 1
            &&& final(stream).owes_checkpoint() <==> old(stream).every() > 0 && (seq + 1) % (old(
                stream,
            ).every() as int) == 0
        },
        line matches NextLine::Checkpoint { covered } ==> {
            &&& covered == old(stream).payloads()
            &&& final(stream).payloads() == covered
            &&& !final(stream).owes_checkpoint()
        },
        line is Checkpoint <==> old(stream).owes_checkpoint(),
{
}

} // verus!
