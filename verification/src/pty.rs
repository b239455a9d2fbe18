//! What a probe makes of a child's terminal: the cursor-position query that
//! must be answered, the bounded window of recent output, and the decisions of
//! waiting for, killing and tearing down.
//!
//! Times are readings of one monotonic clock, in nanoseconds.
use vstd::prelude::*;
use vstd::string::*;
use vstd::utf8::*;

use crate::ansi::{strip_chars, stripped};
use crate::capture::{CaptureLine, CaptureWriter, ChunkView};
use crate::firsttoken::{FirstTokenClock, Readings};
use crate::report::optional_text;
use crate::session::elapsed;
use crate::text::{
    byte_len, char_width, chars_of, contains, decimal, occurs, push_u128, push_u64, text_of, width,
};
use crate::total::{lemma_sum_same, sum};
use crate::utf8::{carried_after, decoded_after, may_continue, Reassembler};

pub use crate::ansi::strip_ansi;

verus! {

/// How many bytes one master read may return.
pub const DEFAULT_READ_BUFFER_BYTES: usize = 8192;

/// How much recently decoded output a tracker keeps.
pub const RECENT_WINDOW_BYTES: usize = 65_536;

/// How long a killed child gets to disappear.
pub const KILL_GRACE: u64 = 2_000_000_000;

/// Why and how a stream ended.
#[derive(Debug)]
pub struct EndInfo {
    pub reason: String,
    pub cursor_queries_answered: u32,
    /// First failure writing the cursor-position reply, if any.
    pub cursor_reply_error: Option<String>,
}

/// What a reader hands over.
#[derive(Debug)]
pub enum ReaderEvent {
    Data { at: u64, bytes: Vec<u8> },
    End(EndInfo),
}

/// What is sent in answer to a cursor-position query: row one, column one.
pub open spec fn cursor_reply_bytes() -> Seq<u8> {
    seq![0x1bu8, 0x5b, 0x31, 0x3b, 0x31, 0x52]
}

/// What is sent in answer to a cursor-position query.
pub fn cursor_reply() -> (bytes: Vec<u8>)
    ensures
        bytes@ == cursor_reply_bytes(),
{
    let bytes: Vec<u8> = vec![0x1b, 0x5b, 0x31, 0x3b, 0x31, 0x52];
    assert(bytes@ =~= cursor_reply_bytes());
    bytes
}

/// Whether a run of bytes ends with the cursor-position query, `ESC [ 6 n`.
pub open spec fn ends_with_query(s: Seq<u8>) -> bool {
    let n = s.len();
    n >= 4 && s[n - 4] == 0x1b && s[n - 3] == 0x5b && s[n - 2] == 0x36 && s[n - 1] == 0x6e
}

/// How many cursor-position queries a run of bytes holds.
pub open spec fn queries(s: Seq<u8>) -> nat
    decreases s.len(),
{
    if s.len() == 0 {
        0
    } else {
        queries(s.drop_last()) + if ends_with_query(s) {
            1nat
        } else {
            0nat
        }
    }
}

/// The last bytes of a stream that a query could still continue from.
pub open spec fn query_tail(s: Seq<u8>) -> Seq<u8> {
    if s.len() <= 3 {
        s
    } else {
        s.skip(s.len() - 3)
    }
}

/// Finds cursor-position queries in a stream of chunks and keeps the record of
/// their answers.
#[derive(Debug)]
pub struct QueryScan {
    tail: Vec<u8>,
    answered: u32,
    reply_error: Option<String>,
}

impl QueryScan {
    /// The end of what was scanned.
    pub closed spec fn carried(&self) -> Seq<u8> {
        self.tail@
    }

    /// How many replies were delivered.
    pub closed spec fn delivered(&self) -> u32 {
        self.answered
    }

    /// The first failure to deliver one.
    pub closed spec fn failed(&self) -> Option<Seq<char>> {
        optional_text(self.reply_error)
    }

    /// A scan that has seen nothing.
    pub fn new() -> (s: Self)
        ensures
            s.carried() == Seq::<u8>::empty(),
            s.delivered() == 0,
            s.failed() is None,
    {
        QueryScan { tail: Vec::new(), answered: 0, reply_error: None }
    }

    /// How many queries a chunk completes. The query can arrive split, so the
    /// end of what came before is scanned along.
    pub fn scan(&mut self, chunk: &[u8]) -> (n: usize)
        requires
            old(self).carried().len() <= 3,
        ensures
            n == queries(old(self).carried() + chunk@),
            final(self).carried() == query_tail(old(self).carried() + chunk@),
            final(self).carried().len() <= 3,
            final(self).delivered() == old(self).delivered(),
            final(self).failed() == old(self).failed(),
    {
        let mut all: Vec<u8> = Vec::new();
        std::mem::swap(&mut all, &mut self.tail);
        let ghost before = all@;
        all.extend_from_slice(chunk);
        assert(all@ =~= before + chunk@);
        let mut n: usize = 0;
        let mut i: usize = 0;
        assert(all@.take(0) =~= Seq::empty());
        while i < all.len()
            invariant
                i <= all@.len(),
                n <= i,
                n == queries(all@.take(i as int)),
            decreases all@.len() - i,
        {
            assert(all@.take(i + 1).drop_last() =~= all@.take(i as int));
            if i >= 3 && all[i - 3] == 0x1b && all[i - 2] == 0x5b && all[i - 1] == 0x36 && all[i]
                == 0x6e {
                n += 1;
            }
            i += 1;
        }
        assert(all@.take(i as int) =~= all@);
        let start: usize = if all.len() <= 3 {
            0
        } else {
            all.len() - 3
        };
        let tail = all.split_off(start);
        assert(tail@ =~= query_tail(before + chunk@));
        self.tail = tail;
        n
    }

    /// A reply was delivered, or failed to be. Only delivered ones are counted,
    /// and only the first failure is kept.
    pub fn note_reply(&mut self, error: Option<&str>)
        requires
            old(self).delivered() < u32::MAX,
        ensures
            final(self).carried() == old(self).carried(),
            match error {
                None => final(self).delivered() == old(self).delivered() + 1
                    && final(self).failed() == old(self).failed(),
                Some(text) => final(self).delivered() == old(self).delivered()
                    && final(self).failed() == match old(self).failed() {
                    Some(first) => Some(first),
                    None => Some(text@),
                },
            },
    {
        match error {
            None => {
                self.answered = self.answered + 1;
            },
            Some(text) => {
                if self.reply_error.is_none() {
                    self.reply_error = Some(text.to_owned());
                }
            },
        }
    }

    /// The end of the stream, for the reason given.
    pub fn end(self, reason: &str) -> (info: EndInfo)
        ensures
            info.reason@ == reason@,
            info.cursor_queries_answered == self.delivered(),
            optional_text(info.cursor_reply_error) == self.failed(),
    {
        EndInfo {
            reason: reason.to_owned(),
            cursor_queries_answered: self.answered,
            cursor_reply_error: self.reply_error,
        }
    }
}

/// Every query is found once, however the stream is cut: what a chunk completes
/// is what the stream holds with it, less what it held without it.
pub proof fn law_a_split_query_is_found_once(stream: Seq<u8>, chunk: Seq<u8>)
    ensures
        queries(stream + chunk) == queries(stream) + queries(query_tail(stream) + chunk),
        query_tail(stream + chunk) == query_tail(query_tail(stream) + chunk),
    decreases chunk.len(),
{
    let tail = query_tail(stream);
    if chunk.len() == 0 {
        assert(stream + chunk =~= stream);
        assert(tail + chunk =~= tail);
        lemma_short_has_no_query(tail);
        assert(query_tail(tail) =~= tail);
    } else {
        let less = chunk.drop_last();
        law_a_split_query_is_found_once(stream, less);
        assert((stream + chunk).drop_last() =~= stream + less);
        assert((tail + chunk).drop_last() =~= tail + less);
        let a = stream + chunk;
        let b = tail + chunk;
        if b.len() >= 4 {
            assert(b =~= a.skip(a.len() - b.len()));
        }
        assert(ends_with_query(a) == ends_with_query(b));
        assert(query_tail(a) =~= query_tail(b));
    }
}

proof fn lemma_short_has_no_query(s: Seq<u8>)
    requires
        s.len() <= 3,
    ensures
        queries(s) == 0,
    decreases s.len(),
{
    if s.len() > 0 {
        lemma_short_has_no_query(s.drop_last());
    }
}

/// The size of a read buffer: the asked one, but at least a byte, since a reader
/// that can never make progress diagnoses nothing.
pub fn read_buffer_bytes(asked: usize) -> (bytes: usize)
    ensures
        bytes == if asked == 0 {
            1
        } else {
            asked
        },
{
    if asked == 0 {
        1
    } else {
        asked
    }
}

/// What one read of the master gave.
#[derive(Debug)]
pub enum ReadOutcome {
    /// So many bytes; none at the end of the stream.
    Bytes(usize),
    /// A signal cut the read short.
    Interrupted,
    Failed { error: String },
}

/// What a reader does after one read.
#[derive(Debug)]
pub enum ReadStep {
    /// Scan and hand over what was read.
    Deliver,
    /// Read again.
    Resume,
    /// The stream ended, for this reason.
    End(String),
}

/// Decide what follows a read. A read cut short by a signal ends nothing; a
/// read that fails does, since a closed terminal reads as an error on some
/// platforms.
pub fn read_step(outcome: &ReadOutcome) -> (s: ReadStep)
    ensures
        match *outcome {
            ReadOutcome::Bytes(n) => if n == 0 {
                s matches ReadStep::End(reason) && reason@ == "eof"@
            } else {
                s is Deliver
            },
            ReadOutcome::Interrupted => s is Resume,
            ReadOutcome::Failed { error } => s matches ReadStep::End(reason) && reason@
                == "read error: "@ + error@,
        },
{
    match outcome {
        ReadOutcome::Bytes(n) => {
            if *n == 0 {
                ReadStep::End("eof".to_owned())
            } else {
                ReadStep::Deliver
            }
        },
        ReadOutcome::Interrupted => ReadStep::Resume,
        ReadOutcome::Failed { error } => {
            let mut reason = "read error: ".to_owned();
            reason.append(error.as_str());
            ReadStep::End(reason)
        },
    }
}

/// How many characters must go from the front of a text for `excess` bytes to
/// go with them.
pub open spec fn dropped(s: Seq<char>, excess: int) -> nat
    decreases s.len(),
{
    if s.len() == 0 || excess <= 0 {
        0
    } else {
        1 + dropped(s.drop_first(), excess - width(s[0]))
    }
}

/// The end of a text that fits the window, whole characters only.
pub open spec fn recent_window(s: Seq<char>) -> Seq<char> {
    s.skip(dropped(s, byte_len(s) - RECENT_WINDOW_BYTES) as int)
}

/// The last characters of a text.
pub open spec fn last_chars(s: Seq<char>, chars: nat) -> Seq<char> {
    if s.len() <= chars {
        s
    } else {
        s.skip(s.len() - chars)
    }
}

proof fn lemma_byte_len_first(s: Seq<char>)
    requires
        s.len() > 0,
    ensures
        byte_len(s) == width(s[0]) + byte_len(s.drop_first()),
        width(s[0]) >= 1,
{
}

/// Trimming keeps a suffix within the window, and keeps all that fits: one more
/// character would be too much.
pub proof fn law_the_window_is_bounded(s: Seq<char>)
    ensures
        ({
            let k = dropped(s, byte_len(s) - RECENT_WINDOW_BYTES);
            &&& k <= s.len()
            &&& byte_len(recent_window(s)) <= RECENT_WINDOW_BYTES
            &&& k > 0 ==> byte_len(s.skip(k - 1)) > RECENT_WINDOW_BYTES
            &&& byte_len(s) <= RECENT_WINDOW_BYTES ==> recent_window(s) == s
        }),
{
    lemma_dropped(s, byte_len(s) - RECENT_WINDOW_BYTES);
    if byte_len(s) <= RECENT_WINDOW_BYTES {
        assert(s.skip(0) =~= s);
    }
}

proof fn lemma_dropped(s: Seq<char>, excess: int)
    requires
        excess <= byte_len(s),
    ensures
        ({
            let k = dropped(s, excess);
            &&& k <= s.len()
            &&& byte_len(s.skip(k as int)) <= byte_len(s) - excess || excess <= 0
            &&& excess <= 0 ==> k == 0
            &&& k > 0 ==> byte_len(s.skip(k - 1)) > byte_len(s) - excess
        }),
    decreases s.len(),
{
    let k = dropped(s, excess);
    if s.len() == 0 || excess <= 0 {
        assert(s.skip(0) =~= s);
    } else {
        lemma_byte_len_first(s);
        let rest = s.drop_first();
        if excess - width(s[0]) <= byte_len(rest) {
            lemma_dropped(rest, excess - width(s[0]));
        }
        assert(rest.skip(k - 1) =~= s.skip(k as int));
        if k - 1 > 0 {
            assert(rest.skip(k - 2) =~= s.skip(k - 1));
        } else {
            assert(s.skip(0) =~= s);
        }
    }
}

/// The text trimmed to the window.
fn trim_recent(text: String) -> (kept: String)
    ensures
        kept@ == recent_window(text@),
{
    let total: usize = text.as_str().as_bytes().len();
    if total <= RECENT_WINDOW_BYTES {
        assert(text@.skip(0) =~= text@);
        return text;
    }
    let excess: usize = total - RECENT_WINDOW_BYTES;
    let chars = chars_of(text.as_str());
    let mut gone: usize = 0;
    let mut i: usize = 0;
    assert(chars@.skip(0) =~= chars@);
    while i < chars.len() && gone < excess
        invariant
            chars@ == text@,
            i <= chars@.len(),
            excess == byte_len(text@) - RECENT_WINDOW_BYTES,
            gone <= excess + 3,
            excess <= usize::MAX - 65_536,
            dropped(text@, excess as int) == i + dropped(chars@.skip(i as int), excess - gone),
        decreases chars@.len() - i,
    {
        let ghost rest = chars@.skip(i as int);
        assert(rest.drop_first() =~= chars@.skip(i + 1));
        gone = gone + char_width(chars[i]);
        i += 1;
    }
    assert(chars@.subrange(i as int, chars@.len() as int) =~= text@.skip(i as int));
    text_of(vstd::slice::slice_subrange(chars.as_slice(), i, chars.len()))
}

/// What a wait comes to on one look.
#[derive(Debug)]
pub enum WaitStep {
    /// What was waited for is there.
    Ready,
    /// Wait on.
    Wait,
    /// It will not come.
    Fail(String),
}

/// Accumulates a child's output: decoded text for marker waits, chunk times into
/// the first-token clock, lines for an optional capture.
pub struct OutputTracker {
    reassembler: Reassembler,
    recent: String,
    clock: FirstTokenClock,
    capture: Option<CaptureWriter>,
    end: Option<EndInfo>,
    chunks: u64,
}

impl OutputTracker {
    /// The window of recent output, escape sequences included.
    pub closed spec fn window(&self) -> Seq<char> {
        self.recent@
    }

    /// The bytes held back for the rest of their character.
    pub closed spec fn held(&self) -> Seq<u8> {
        self.reassembler.held()
    }

    /// The first-token readings.
    pub closed spec fn readings(&self) -> Readings {
        self.clock@
    }

    /// The capture that chunks are recorded into.
    pub closed spec fn recording(&self) -> Option<CaptureWriter> {
        self.capture
    }

    /// What was noted of the stream's end, once it has ended.
    pub closed spec fn closing(&self) -> Option<EndInfo> {
        self.end
    }

    /// Why the stream ended, once it has.
    pub open spec fn ended(&self) -> Option<Seq<char>> {
        match self.closing() {
            Some(info) => Some(info.reason@),
            None => None,
        }
    }

    /// How many chunks arrived.
    pub closed spec fn count(&self) -> u64 {
        self.chunks
    }

    /// The decoded text that is not in the window: what stood in front of bytes
    /// that can never be UTF-8.
    pub closed spec fn untaken(&self) -> Seq<char> {
        self.reassembler.text()
    }

    /// A tracker that has seen nothing.
    pub fn new(clock: FirstTokenClock, capture: Option<CaptureWriter>) -> (t: Self)
        ensures
            t.untaken() == Seq::<char>::empty(),
            t.window() == Seq::<char>::empty(),
            t.held() == Seq::<u8>::empty(),
            t.readings() == clock@,
            t.recording() == capture,
            t.closing() is None,
            t.count() == 0,
    {
        OutputTracker {
            reassembler: Reassembler::new(),
            recent: String::new(),
            clock,
            capture,
            end: None,
            chunks: 0,
        }
    }

    /// How many output chunks have arrived.
    pub fn chunks_seen(&self) -> (n: u64)
        ensures
            n == self.count(),
    {
        self.chunks
    }

    /// The first-token clock.
    pub fn first_token(&self) -> (c: &FirstTokenClock)
        ensures
            c@ == self.readings(),
    {
        &self.clock
    }

    /// A prompt was submitted.
    pub fn note_submit(&mut self, at: u64)
        ensures
            final(self).untaken() == old(self).untaken(),
            final(self).readings() == old(self).readings().after_submit(at),
            final(self).window() == old(self).window(),
            final(self).held() == old(self).held(),
            final(self).recording() == old(self).recording(),
            final(self).closing() == old(self).closing(),
            final(self).count() == old(self).count(),
    {
        self.clock.note_submit(at);
    }

    /// A chunk arrived: count it, time it, and give the line to write where a
    /// capture is running.
    pub fn note_chunk(&mut self, at: u64, bytes: &[u8]) -> (line: Option<CaptureLine>)
        requires
            old(self).count() < u64::MAX,
            bytes@.len() <= usize::MAX / 4,
            old(self).recording() matches Some(c) ==> c.chunk_count() < u64::MAX
                && c.byte_count() + bytes@.len() <= u64::MAX,
        ensures
            final(self).untaken() == old(self).untaken(),
            final(self).count() == old(self).count() + 1,
            final(self).readings() == old(self).readings().after_chunk(at),
            final(self).window() == old(self).window(),
            final(self).held() == old(self).held(),
            final(self).closing() == old(self).closing(),
            match (old(self).recording(), final(self).recording()) {
                (Some(c), Some(after)) => {
                    &&& line matches Some(l) && l.stands_for(
                        (ChunkView { t_ns: elapsed(c.spawned(), at) as u64, bytes: bytes@ }),
                    )
                    &&& after.spawned() == c.spawned()
                    &&& after.chunk_count() == c.chunk_count() + 1
                    &&& after.byte_count() == c.byte_count() + bytes@.len()
                },
                (None, None) => line is None,
                _ => false,
            },
    {
        self.chunks = self.chunks + 1;
        self.clock.note_chunk(at);
        match self.capture {
            Some(c) => {
                let mut capture = c;
                let line = capture.record(at, bytes);
                self.capture = Some(capture);
                Some(line)
            },
            None => None,
        }
    }

    /// Take a chunk's text into the window. Bytes that can never be UTF-8 are an
    /// error, and stay one for every later chunk.
    pub fn absorb(&mut self, bytes: &[u8]) -> (r: Result<(), String>)
        ensures
            ({
                let held = carried_after(old(self).held(), bytes@);
                let text = decoded_after(old(self).untaken(), old(self).held(), bytes@);
                &&& final(self).held() == held
                &&& match r {
                    Ok(()) => {
                        &&& may_continue(held)
                        &&& final(self).window() == recent_window(old(self).window() + text)
                        &&& final(self).untaken() == Seq::<char>::empty()
                    },
                    Err(why) => {
                        &&& !may_continue(held)
                        &&& final(self).window() == old(self).window()
                        &&& final(self).untaken() == text
                        &&& why@ == "output contained bytes that can never be valid UTF-8"@
                    },
                }
            }),
            final(self).count() == old(self).count(),
            final(self).readings() == old(self).readings(),
            final(self).recording() == old(self).recording(),
            final(self).closing() == old(self).closing(),
    {
        match self.reassembler.push(bytes) {
            Ok(()) => {
                let text = self.reassembler.take_decoded();
                let mut recent = String::new();
                std::mem::swap(&mut recent, &mut self.recent);
                recent.append(text.as_str());
                self.recent = trim_recent(recent);
                Ok(())
            },
            Err(_) => Err("output contained bytes that can never be valid UTF-8".to_owned()),
        }
    }

    /// The stream ended.
    pub fn note_end(&mut self, info: EndInfo)
        ensures
            final(self).untaken() == old(self).untaken(),
            final(self).closing() == Some(info),
            final(self).window() == old(self).window(),
            final(self).held() == old(self).held(),
            final(self).readings() == old(self).readings(),
            final(self).recording() == old(self).recording(),
            final(self).count() == old(self).count(),
    {
        self.end = Some(info);
    }

    /// Why the child's output stream ended, if it has.
    pub fn stream_ended(&self) -> (reason: Option<&str>)
        ensures
            match reason {
                Some(text) => self.ended() == Some(text@),
                None => self.ended() is None,
            },
    {
        match &self.end {
            Some(info) => Some(info.reason.as_str()),
            None => None,
        }
    }

    /// An error as soon as the stream has ended, naming what was awaited.
    pub fn ensure_live(&self, waiting_for: &str) -> (r: Result<(), String>)
        ensures
            match self.ended() {
                Some(reason) => r matches Err(text) && text@ == "the child's output stream ended ("@
                    + reason + ") while waiting for "@ + waiting_for@
                    + " \u{2014} the process is gone, not merely quiet"@,
                None => r is Ok,
            },
    {
        match self.stream_ended() {
            Some(reason) => {
                let mut text = "the child's output stream ended (".to_owned();
                text.append(reason);
                text.append(") while waiting for ");
                text.append(waiting_for);
                text.append(" \u{2014} the process is gone, not merely quiet");
                Err(text)
            },
            None => Ok(()),
        }
    }

    /// One look in a wait for the first output chunk.
    pub fn wait_for_first_chunk(&self, waited_ns: u64, timeout_ns: u128) -> (s: WaitStep)
        ensures
            match s {
                WaitStep::Ready => self.readings().first_byte is Some,
                WaitStep::Wait => self.readings().first_byte is None && self.ended() is None
                    && waited_ns < timeout_ns,
                WaitStep::Fail(text) => {
                    &&& self.readings().first_byte is None
                    &&& match self.ended() {
                        Some(reason) => text@ == "stream ended ("@ + reason
                            + ") before any output byte"@,
                        None => waited_ns >= timeout_ns && text@ == "no output byte within "@
                            + decimal((timeout_ns / 1_000_000) as nat) + "ms of spawn"@,
                    }
                },
            },
    {
        if self.clock.launch_latency().is_some() {
            return WaitStep::Ready;
        }
        match self.stream_ended() {
            Some(reason) => {
                let mut text = "stream ended (".to_owned();
                text.append(reason);
                text.append(") before any output byte");
                return WaitStep::Fail(text);
            },
            None => {},
        }
        if waited_ns as u128 >= timeout_ns {
            let mut text = "no output byte within ".to_owned();
            push_u128(&mut text, timeout_ns / 1_000_000);
            text.append("ms of spawn");
            return WaitStep::Fail(text);
        }
        WaitStep::Wait
    }

    /// One look in a wait for something in the output, found or not; `what` names
    /// it in the diagnostics.
    pub fn wait_for(&self, what: &str, found: bool, waited_ns: u64, timeout_ns: u128) -> (s: WaitStep)
        ensures
            self.waits(what@, found, waited_ns, timeout_ns, s),
    {
        if found {
            return WaitStep::Ready;
        }
        match self.stream_ended() {
            Some(reason) => {
                let mut text = "stream ended (".to_owned();
                text.append(reason);
                text.append(") before ");
                text.append(what);
                text.append("; tail: '");
                text.append(self.screen_tail(200).as_str());
                text.append("'");
                return WaitStep::Fail(text);
            },
            None => {},
        }
        if waited_ns as u128 >= timeout_ns {
            let mut text = what.to_owned();
            text.append(" not observed within ");
            push_u128(&mut text, timeout_ns / 1_000_000);
            text.append("ms; tail: '");
            text.append(self.screen_tail(200).as_str());
            text.append("'");
            return WaitStep::Fail(text);
        }
        WaitStep::Wait
    }

    /// What a look in a wait comes to: ready once it is found, failed once the
    /// stream has ended or the time is up, never hanging.
    pub open spec fn waits(
        &self,
        what: Seq<char>,
        found: bool,
        waited_ns: u64,
        timeout_ns: u128,
        s: WaitStep,
    ) -> bool {
        let tail = last_chars(stripped(self.window()), 200);
        match s {
            WaitStep::Ready => found,
            WaitStep::Wait => !found && self.ended() is None && waited_ns < timeout_ns,
            WaitStep::Fail(text) => {
                &&& !found
                &&& match self.ended() {
                    Some(reason) => text@ == "stream ended ("@ + reason + ") before "@ + what
                        + "; tail: '"@ + tail + "'"@,
                    None => waited_ns >= timeout_ns && text@ == what + " not observed within "@
                        + decimal((timeout_ns / 1_000_000) as nat) + "ms; tail: '"@ + tail + "'"@,
                }
            },
        }
    }

    /// One look in a wait for a text in the window.
    pub fn wait_for_text(&self, what: &str, needle: &str, waited_ns: u64, timeout_ns: u128) -> (s:
        WaitStep)
        ensures
            self.waits(what@, occurs(self.window(), needle@), waited_ns, timeout_ns, s),
    {
        let found = contains(self.recent.as_str(), needle);
        self.wait_for(what, found, waited_ns, timeout_ns)
    }

    /// One look in a wait for a marker in the visible text.
    pub fn wait_for_marker(&self, marker: &str, waited_ns: u64, timeout_ns: u128) -> (s: WaitStep)
        ensures
            self.waits(
                "text marker '"@ + marker@ + "'"@,
                occurs(stripped(self.window()), marker@),
                waited_ns,
                timeout_ns,
                s,
            ),
    {
        let found = contains(self.visible_text().as_str(), marker);
        let mut what = "text marker '".to_owned();
        what.append(marker);
        what.append("'");
        self.wait_for(what.as_str(), found, waited_ns, timeout_ns)
    }

    /// The recent output, escape sequences included.
    pub fn recent(&self) -> (text: &str)
        ensures
            text@ == self.window(),
    {
        self.recent.as_str()
    }

    /// The recent output without its escape sequences.
    pub fn visible_text(&self) -> (text: String)
        ensures
            text@ == stripped(self.window()),
    {
        strip_ansi(self.recent.as_str())
    }

    /// The last `chars` characters of the visible text.
    pub fn screen_tail(&self, chars: usize) -> (text: String)
        ensures
            text@ == last_chars(stripped(self.window()), chars as nat),
    {
        let visible = strip_chars(chars_of(self.recent.as_str()).as_slice());
        if visible.len() <= chars {
            return text_of(visible.as_slice());
        }
        let start: usize = visible.len() - chars;
        assert(visible@.subrange(start as int, visible@.len() as int) =~= visible@.skip(
            start as int,
        ));
        text_of(vstd::slice::slice_subrange(visible.as_slice(), start, visible.len()))
    }

    /// What was noted of the stream's end.
    pub fn end_info(&self) -> (info: Option<&EndInfo>)
        ensures
            match info {
                Some(i) => self.closing() == Some(*i),
                None => self.closing() is None,
            },
    {
        match &self.end {
            Some(info) => Some(info),
            None => None,
        }
    }

    /// What teardown needs: the capture to finish, and any end already noted.
    pub fn into_teardown_parts(self) -> (parts: (Option<CaptureWriter>, Option<EndInfo>))
        ensures
            parts.0 == self.recording(),
            parts.1 == self.closing(),
    {
        (self.capture, self.end)
    }
}

/// What a wait for silence comes to on one look.
#[derive(Debug)]
pub enum QuietStep {
    Wait,
    /// Quiet, this long after the wait began.
    Quiet { elapsed_ns: u64 },
    Fail(String),
}

/// Watches for output to go quiet. Silence is a sign that a generation has
/// stopped which depends on nothing that the child says.
#[derive(Debug)]
pub struct QuietWatch {
    started: u64,
    last_chunk_at: u64,
    last_seen: u64,
}

impl QuietWatch {
    /// When the wait began.
    pub closed spec fn began(&self) -> u64 {
        self.started
    }

    /// When output was last seen to arrive.
    pub closed spec fn heard_at(&self) -> u64 {
        self.last_chunk_at
    }

    /// How many chunks had arrived by then.
    pub closed spec fn heard(&self) -> u64 {
        self.last_seen
    }

    /// A watch that begins now, with so many chunks arrived.
    pub fn new(now: u64, chunks_seen: u64) -> (w: Self)
        ensures
            w.began() == now,
            w.heard_at() == now,
            w.heard() == chunks_seen,
    {
        QuietWatch { started: now, last_chunk_at: now, last_seen: chunks_seen }
    }

    /// One look, after draining what arrived. A chunk since the last look begins
    /// the silence anew; a stream that ended is an error, never silence.
    pub fn look(
        &mut self,
        tracker: &OutputTracker,
        now: u64,
        quiet_for_ns: u128,
        timeout_ns: u128,
    ) -> (s: QuietStep)
        ensures
            final(self).began() == old(self).began(),
            match tracker.ended() {
                Some(reason) => s matches QuietStep::Fail(text) && text@
                    == "the child's output stream ended ("@ + reason
                    + ") while waiting for the output to go quiet"@
                    + " \u{2014} the process is gone, not merely quiet"@,
                None => {
                    let arrived = tracker.count() != old(self).heard();
                    let quiet = !arrived && elapsed(old(self).heard_at(), now) >= quiet_for_ns;
                    let over = elapsed(old(self).began(), now) >= timeout_ns;
                    &&& final(self).heard() == tracker.count()
                    &&& final(self).heard_at() == if arrived {
                        now
                    } else {
                        old(self).heard_at()
                    }
                    &&& match s {
                        QuietStep::Quiet { elapsed_ns } => quiet && elapsed_ns == elapsed(
                            old(self).began(),
                            now,
                        ),
                        QuietStep::Fail(text) => !quiet && over && text@
                            == "output never went quiet for "@ + decimal(
                            (quiet_for_ns / 1_000_000) as nat,
                        ) + "ms within "@ + decimal((timeout_ns / 1_000_000_000) as nat)
                            + "s \u{2014} it is still streaming"@,
                        QuietStep::Wait => !quiet && !over,
                    }
                },
            },
    {
        match tracker.stream_ended() {
            Some(reason) => {
                let mut text = "the child's output stream ended (".to_owned();
                text.append(reason);
                text.append(") while waiting for the output to go quiet");
                text.append(" \u{2014} the process is gone, not merely quiet");
                return QuietStep::Fail(text);
            },
            None => {},
        }
        let seen: u64 = tracker.chunks_seen();
        if seen != self.last_seen {
            self.last_seen = seen;
            self.last_chunk_at = now;
        } else if now.saturating_sub(self.last_chunk_at) as u128 >= quiet_for_ns {
            return QuietStep::Quiet { elapsed_ns: now.saturating_sub(self.started) };
        }
        if now.saturating_sub(self.started) as u128 >= timeout_ns {
            let mut text = "output never went quiet for ".to_owned();
            push_u128(&mut text, quiet_for_ns / 1_000_000);
            text.append("ms within ");
            push_u128(&mut text, timeout_ns / 1_000_000_000);
            text.append("s \u{2014} it is still streaming");
            return QuietStep::Fail(text);
        }
        QuietStep::Wait
    }
}

/// One poll of a child.
#[derive(Debug)]
pub enum Poll {
    Exited { code: u32 },
    Running,
    Failed { error: String },
}

/// What waiting for a child to exit cleanly comes to on one poll.
#[derive(Debug)]
pub enum ReapStep {
    Wait,
    /// It overran: kill it. The text goes before what the kill reports.
    Kill(String),
    Clean(String),
    Fail(String),
}

/// Decide one poll in a wait for a clean exit.
pub fn wait_child(poll: &Poll, elapsed_ns: u64, timeout_ns: u128) -> (s: ReapStep)
    ensures
        match s {
            ReapStep::Wait => poll is Running && elapsed_ns < timeout_ns,
            ReapStep::Kill(text) => poll is Running && elapsed_ns >= timeout_ns && text@
                == "child still running after "@ + decimal((timeout_ns / 1_000_000_000) as nat)
                + "s of try_wait polling; "@,
            ReapStep::Clean(text) => *poll matches Poll::Exited { code } && code == 0 && text@
                == "child exited cleanly in "@ + decimal((elapsed_ns / 1_000_000) as nat) + "ms"@,
            ReapStep::Fail(text) => match *poll {
                Poll::Exited { code } => code != 0 && text@ == "child exited with code "@ + decimal(
                    code as nat,
                ),
                Poll::Failed { error } => text@ == "child wait failed: "@ + error@,
                Poll::Running => false,
            },
        },
{
    match poll {
        Poll::Exited { code } => {
            if *code == 0 {
                let mut text = "child exited cleanly in ".to_owned();
                push_u64(&mut text, elapsed_ns / 1_000_000);
                text.append("ms");
                ReapStep::Clean(text)
            } else {
                let mut text = "child exited with code ".to_owned();
                push_u64(&mut text, *code as u64);
                ReapStep::Fail(text)
            }
        },
        Poll::Running => {
            if elapsed_ns as u128 >= timeout_ns {
                let mut text = "child still running after ".to_owned();
                push_u128(&mut text, timeout_ns / 1_000_000_000);
                text.append("s of try_wait polling; ");
                ReapStep::Kill(text)
            } else {
                ReapStep::Wait
            }
        },
        Poll::Failed { error } => {
            let mut text = "child wait failed: ".to_owned();
            text.append(error.as_str());
            ReapStep::Fail(text)
        },
    }
}

/// Where a forced kill stands.
#[derive(Debug)]
pub enum KillState {
    /// Poll the child first: it may have exited already.
    Check,
    /// Signal it. The poll's failure is kept where the poll failed: unreadable
    /// proves neither alive nor exited.
    Signal { unreadable: Option<String> },
    /// Poll until it is reaped.
    Reap,
}

/// What performing a step of a kill gave.
#[derive(Debug)]
pub enum KillEvent {
    Polled(Poll),
    /// The signal was sent, or could not be.
    Signalled { error: Option<String> },
    /// The grace period is over.
    GraceOver,
}

/// What a forced kill comes to.
#[derive(Debug)]
pub enum KillMove {
    Next(KillState),
    Done(String),
}

/// What is said when a kill is over; `None` while it goes on.
pub open spec fn kill_outcome(state: KillState, event: KillEvent) -> Option<Seq<char>> {
    match (state, event) {
        (KillState::Check, KillEvent::Polled(Poll::Exited { code })) => Some(
            "child had already exited (code "@ + decimal(code as nat) + ")"@,
        ),
        (
            KillState::Signal { unreadable },
            KillEvent::Signalled { error: Some(error) },
        ) => match unreadable {
            Some(check) => Some(
                "checking whether the child was alive failed ("@ + check@
                    + ") and the precautionary kill also failed: "@ + error@,
            ),
            None => Some("kill failed: "@ + error@),
        },
        (KillState::Reap, KillEvent::Polled(Poll::Exited { code })) => Some(
            "killed and reaped (exit code "@ + decimal(code as nat) + ")"@,
        ),
        (KillState::Reap, KillEvent::Polled(Poll::Failed { error })) => Some(
            "killed, but the reap failed: "@ + error@,
        ),
        (KillState::Reap, KillEvent::GraceOver) => Some(
            "kill issued, but the child was not reaped within 2s"@,
        ),
        _ => None,
    }
}

/// Decide a step of a forced kill. A child that had already exited is not
/// killed; one whose state cannot be read is killed anyway; and a kill is
/// reported only as far as it was confirmed.
pub fn force_kill(state: KillState, event: &KillEvent) -> (m: KillMove)
    ensures
        match m {
            KillMove::Done(text) => kill_outcome(state, *event) == Some(text@),
            KillMove::Next(next) => {
                &&& kill_outcome(state, *event) is None
                &&& match (state, *event) {
                    (KillState::Check, KillEvent::Polled(poll)) => next
                        matches KillState::Signal { unreadable } && match poll {
                        Poll::Failed { error } => unreadable matches Some(u) && u@ == error@,
                        _ => unreadable is None,
                    },
                    (KillState::Signal { .. }, KillEvent::Signalled { .. }) => next is Reap,
                    _ => next == state,
                }
            },
        },
{
    match (state, event) {
        (KillState::Check, KillEvent::Polled(poll)) => match poll {
            Poll::Exited { code } => {
                let mut text = "child had already exited (code ".to_owned();
                push_u64(&mut text, *code as u64);
                text.append(")");
                KillMove::Done(text)
            },
            Poll::Running => KillMove::Next(KillState::Signal { unreadable: None }),
            Poll::Failed { error } => KillMove::Next(
                KillState::Signal { unreadable: Some(error.clone()) },
            ),
        },
        (KillState::Signal { unreadable }, KillEvent::Signalled { error }) => match error {
            Some(error) => match unreadable {
                Some(check) => {
                    let mut text = "checking whether the child was alive failed (".to_owned();
                    text.append(check.as_str());
                    text.append(") and the precautionary kill also failed: ");
                    text.append(error.as_str());
                    KillMove::Done(text)
                },
                None => {
                    let mut text = "kill failed: ".to_owned();
                    text.append(error.as_str());
                    KillMove::Done(text)
                },
            },
            None => KillMove::Next(KillState::Reap),
        },
        (KillState::Reap, KillEvent::Polled(poll)) => match poll {
            Poll::Exited { code } => {
                let mut text = "killed and reaped (exit code ".to_owned();
                push_u64(&mut text, *code as u64);
                text.append(")");
                KillMove::Done(text)
            },
            Poll::Running => KillMove::Next(KillState::Reap),
            Poll::Failed { error } => {
                let mut text = "killed, but the reap failed: ".to_owned();
                text.append(error.as_str());
                KillMove::Done(text)
            },
        },
        (KillState::Reap, KillEvent::GraceOver) => KillMove::Done(
            "kill issued, but the child was not reaped within 2s".to_owned(),
        ),
        (state, _) => KillMove::Next(state),
    }
}

/// A known hang of a re-rendering terminal, named where it may be the cause.
pub open spec fn hang_hint(rerenders: bool, hint: Seq<char>) -> Seq<char> {
    if rerenders {
        hint
    } else {
        Seq::empty()
    }
}

/// Why a terminal was not allocated.
#[derive(Debug)]
pub enum AllocFault {
    Failed { error: String },
    TimedOut,
    Died,
}

/// What is said of a terminal that was not allocated.
pub fn alloc_failure(fault: &AllocFault, timeout_ns: u128, rerenders: bool) -> (text: String)
    ensures
        text@ == match *fault {
            AllocFault::Failed { error } => "pty allocation failed: "@ + error@,
            AllocFault::TimedOut => "pty allocation did not complete within "@ + decimal(
                (timeout_ns / 1_000_000_000) as nat,
            ) + "s"@ + hang_hint(
                rerenders,
                " \u{2014} matches the known ConPTY hang when the console subsystem is uninitialised"@,
            ),
            AllocFault::Died => "pty allocation thread died without a result"@,
        },
{
    match fault {
        AllocFault::Failed { error } => {
            let mut text = "pty allocation failed: ".to_owned();
            text.append(error.as_str());
            text
        },
        AllocFault::TimedOut => {
            let mut text = "pty allocation did not complete within ".to_owned();
            push_u128(&mut text, timeout_ns / 1_000_000_000);
            text.append("s");
            let ghost head = text@;
            if rerenders {
                text.append(
                    " \u{2014} matches the known ConPTY hang when the console subsystem is uninitialised",
                );
            } else {
                assert(head + Seq::<char>::empty() =~= head);
            }
            text
        },
        AllocFault::Died => "pty allocation thread died without a result".to_owned(),
    }
}

/// What is said of a master that did not close in time.
pub fn close_timeout(timeout_ns: u128, rerenders: bool) -> (text: String)
    ensures
        text@ == "closing the pty master did not complete within "@ + decimal(
            (timeout_ns / 1_000_000_000) as nat,
        ) + "s"@ + hang_hint(
            rerenders,
            " \u{2014} matches the known ClosePseudoConsole deadlock (microsoft/terminal#1810)"@,
        ),
{
    let mut text = "closing the pty master did not complete within ".to_owned();
    push_u128(&mut text, timeout_ns / 1_000_000_000);
    text.append("s");
    let ghost head = text@;
    if rerenders {
        text.append(
            " \u{2014} matches the known ClosePseudoConsole deadlock (microsoft/terminal#1810)",
        );
    } else {
        assert(head + Seq::<char>::empty() =~= head);
    }
    text
}

/// What is waited for in a teardown, once the master is closed.
#[derive(Debug)]
pub enum DrainEvent {
    /// The stream's end, from the reader or noted earlier.
    Ended(EndInfo),
    /// Output that arrived after the last step.
    Data,
    /// The time is up.
    TimedOut,
    /// The reader is gone without having reported the end.
    Disconnected,
}

/// What a teardown reports.
pub open spec fn teardown_text(info: EndInfo, close_ms: nat) -> Seq<char> {
    let detail = "master closed in "@ + decimal(close_ms) + "ms; reader end: "@ + info.reason@
        + "; cursor-position queries answered: "@ + decimal(info.cursor_queries_answered as nat);
    match info.cursor_reply_error {
        Some(error) => detail + "; cursor-reply write failed: "@ + error@,
        None => detail,
    }
}

/// Decide one event of a teardown: what it reports once the end is there, or
/// `None` while output is still draining.
pub fn teardown(event: &DrainEvent, close_ms: u64, timeout_ns: u128) -> (r: Option<
    Result<String, String>,
>)
    ensures
        match *event {
            DrainEvent::Ended(info) => r matches Some(Ok(text)) && text@ == teardown_text(
                info,
                close_ms as nat,
            ),
            DrainEvent::Data => r is None,
            DrainEvent::TimedOut => r matches Some(Err(text)) && text@
                == "the reader did not reach end-of-stream within "@ + decimal(
                (timeout_ns / 1_000_000_000) as nat,
            ) + "s of closing the master"@,
            DrainEvent::Disconnected => r matches Some(Err(text)) && text@
                == "reader thread ended without reporting end-of-stream"@,
        },
{
    match event {
        DrainEvent::Ended(info) => {
            let mut text = "master closed in ".to_owned();
            push_u64(&mut text, close_ms);
            text.append("ms; reader end: ");
            text.append(info.reason.as_str());
            text.append("; cursor-position queries answered: ");
            push_u64(&mut text, info.cursor_queries_answered as u64);
            match &info.cursor_reply_error {
                Some(error) => {
                    text.append("; cursor-reply write failed: ");
                    text.append(error.as_str());
                },
                None => {},
            }
            Some(Ok(text))
        },
        DrainEvent::Data => None,
        DrainEvent::TimedOut => {
            let mut text = "the reader did not reach end-of-stream within ".to_owned();
            push_u128(&mut text, timeout_ns / 1_000_000_000);
            text.append("s of closing the master");
            Some(Err(text))
        },
        DrainEvent::Disconnected => Some(
            Err("reader thread ended without reporting end-of-stream".to_owned()),
        ),
    }
}

/// There is one query for each place at which its four bytes stand, whatever
/// stands around them.
pub proof fn law_every_query_is_counted(s: Seq<u8>)
    ensures
        queries(s) == sum(
            |i: int|
                if i >= 3 && s.subrange(i - 3, i + 1) == seq![0x1bu8, 0x5b, 0x36, 0x6e] {
                    1int
                } else {
                    0int
                },
            s.len() as int,
        ),
    decreases s.len(),
{
    let found = |i: int|
        if i >= 3 && s.subrange(i - 3, i + 1) == seq![0x1bu8, 0x5b, 0x36, 0x6e] {
            1int
        } else {
            0int
        };
    if s.len() > 0 {
        let front = s.drop_last();
        law_every_query_is_counted(front);
        let earlier = |i: int|
            if i >= 3 && front.subrange(i - 3, i + 1) == seq![0x1bu8, 0x5b, 0x36, 0x6e] {
                1int
            } else {
                0int
            };
        assert forall|i: int| 0 <= i < front.len() implies #[trigger] found(i) == earlier(i) by {
            if i >= 3 {
                assert(s.subrange(i - 3, i + 1) =~= front.subrange(i - 3, i + 1));
            }
        }
        lemma_sum_same(found, earlier, front.len() as int);
        let n = s.len() as int;
        if n >= 4 {
            let end = s.subrange(n - 4, n);
            let query = seq![0x1bu8, 0x5b, 0x36, 0x6e];
            if ends_with_query(s) {
                assert(end =~= query);
            } else {
                assert(end[0] == s[n - 4] && end[1] == s[n - 3] && end[2] == s[n - 2] && end[3]
                    == s[n - 1]);
                assert(query[0] == 0x1b && query[1] == 0x5b && query[2] == 0x36 && query[3] == 0x6e);
                assert(end != query);
            }
        }
        assert(found(n - 1) == if ends_with_query(s) {
            1int
        } else {
            0int
        });
    }
}

/// The last characters of a text are its end, as many as asked for or all of it.
pub proof fn law_the_last_characters_are_the_end(s: Seq<char>, chars: nat)
    ensures
        last_chars(s, chars).len() == if s.len() < chars {
            s.len()
        } else {
            chars
        },
        last_chars(s, chars) == s.skip(s.len() - last_chars(s, chars).len()),
{
    assert(s.skip(0) =~= s);
}

/// The window is the end of the text, at most 64 KiB of it, and one character more
/// would be too much.
pub proof fn law_the_window_is_the_end_of_the_output(s: Seq<char>)
    ensures
        ({
            let kept = recent_window(s);
            let from = s.len() - kept.len();
            &&& 0 <= from
            &&& kept == s.skip(from)
            &&& encode_utf8(kept).len() <= 64 * 1024
            &&& from > 0 ==> encode_utf8(s.skip(from - 1)).len() > 64 * 1024
        }),
{
    law_the_window_is_bounded(s);
}

/// A kill is over when the child was seen to have exited before any signal, when
/// the signal could not be sent, or when behind the signal the child was reaped,
/// could not be, or its grace is over; and it goes on at anything else.
pub proof fn law_when_a_kill_is_over(state: KillState, event: KillEvent)
    ensures
        state is Check ==> (kill_outcome(state, event) is Some <==> (event
            matches KillEvent::Polled(poll) && poll is Exited)),
        state is Signal ==> (kill_outcome(state, event) is Some <==> (event
            matches KillEvent::Signalled { error } && error is Some)),
        state is Reap ==> (kill_outcome(state, event) is Some <==> event is GraceOver || (event
            matches KillEvent::Polled(poll) && !(poll is Running))),
{
}

/// A wait is ready exactly when what it looks for is there, and gives up exactly
/// when it is not there and the stream has ended or the time is up. What it then
/// says ends in the last characters of the output, without escape sequences.
pub proof fn law_a_wait_never_hangs(
    tracker: OutputTracker,
    what: Seq<char>,
    found: bool,
    waited_ns: u64,
    timeout_ns: u128,
    step: WaitStep,
)
    requires
        tracker.waits(what, found, waited_ns, timeout_ns, step),
    ensures
        step is Ready <==> found,
        step is Fail <==> !found && (tracker.closing() is Some || waited_ns >= timeout_ns),
        step matches WaitStep::Fail(text) ==> ({
            let output = stripped(tracker.window());
            let tail = output.skip(
                if output.len() > 200 {
                    output.len() - 200
                } else {
                    0
                },
            );
            text@ == match tracker.closing() {
                Some(info) => "stream ended ("@ + info.reason@ + ") before "@ + what + "; tail: '"@
                    + tail + "'"@,
                None => what + " not observed within "@ + decimal((timeout_ns / 1_000_000) as nat)
                    + "ms; tail: '"@ + tail + "'"@,
            }
        }),
{
    let output = stripped(tracker.window());
    law_the_last_characters_are_the_end(output, 200);
    assert(output.skip(0) =~= output);
}

/// Waiting for a clean exit goes on exactly as long as the child runs and the time
/// is not up, ends in a kill exactly when it still runs then, and is clean exactly
/// when the child exited with zero, however long that took.
pub proof fn law_only_a_zero_exit_is_clean(
    poll: Poll,
    elapsed_ns: u64,
    timeout_ns: u128,
    s: ReapStep,
)
    requires
        call_ensures(wait_child, (&poll, elapsed_ns, timeout_ns), s),
    ensures
        s is Wait <==> poll is Running && elapsed_ns < timeout_ns,
        s is Kill <==> poll is Running && timeout_ns <= elapsed_ns,
        s is Clean <==> poll == (Poll::Exited { code: 0 }),
        poll matches Poll::Exited { code } ==> (code != 0 ==> s is Fail && s->Fail_0@
            == "child exited with code "@ + decimal(code as nat)),
        poll matches Poll::Failed { error } ==> s is Fail && s->Fail_0@ == "child wait failed: "@
            + error@,
{
}

/// Output is quiet exactly when the stream is open, no chunk came since the last
/// look, and the last one came as long ago as was asked for. An ended stream is a
/// failure at once. Any chunk begins the silence anew.
pub proof fn law_silence_is_measured_from_the_last_chunk(
    watch: &mut QuietWatch,
    tracker: OutputTracker,
    now: u64,
    quiet_for_ns: u128,
    timeout_ns: u128,
    s: QuietStep,
)
    requires
        call_ensures(QuietWatch::look, (watch, &tracker, now, quiet_for_ns, timeout_ns), s),
        quiet_for_ns > 0,
        timeout_ns > 0,
    ensures
        tracker.closing() is Some ==> s is Fail,
        tracker.closing() is None ==> {
            &&& s is Quiet <==> tracker.count() == old(watch).heard() && now - old(watch).heard_at()
                >= quiet_for_ns
            &&& s is Fail <==> !(s is Quiet) && now - old(watch).began() >= timeout_ns
            &&& final(watch).heard() == tracker.count()
            &&& tracker.count() != old(watch).heard() ==> final(watch).heard_at() == now
            &&& tracker.count() == old(watch).heard() ==> final(watch).heard_at() == old(
                watch,
            ).heard_at()
        },
        s matches QuietStep::Quiet { elapsed_ns } ==> elapsed_ns == if now > old(watch).began() {
            now - old(watch).began()
        } else {
            0
        },
        final(watch).began() == old(watch).began(),
{
}

/// A wait for the first output is ready exactly when a byte came, and gives up
/// exactly when none did and the stream has ended or the time is up.
pub proof fn law_any_output_ends_the_wait_for_it(
    tracker: OutputTracker,
    waited_ns: u64,
    timeout_ns: u128,
    s: WaitStep,
)
    requires
        call_ensures(OutputTracker::wait_for_first_chunk, (&tracker, waited_ns, timeout_ns), s),
    ensures
        s is Ready <==> tracker.readings().first_byte is Some,
        s is Fail <==> tracker.readings().first_byte is None && (tracker.closing() is Some
            || waited_ns >= timeout_ns),
{
}

/// A teardown is over at anything but more output, and is in order only at the end
/// of the stream.
pub proof fn law_a_teardown_drains_to_the_end(
    event: DrainEvent,
    close_ms: u64,
    timeout_ns: u128,
    r: Option<Result<String, String>>,
)
    requires
        call_ensures(teardown, (&event, close_ms, timeout_ns), r),
    ensures
        r is None <==> event is Data,
        r matches Some(end) ==> (end is Ok <==> event is Ended),
{
}

/// Reading goes on exactly when bytes came or a signal cut it short, and bytes are
/// passed on exactly when there are some.
pub proof fn law_reading_ends_without_bytes(outcome: ReadOutcome, s: ReadStep)
    requires
        call_ensures(read_step, (&outcome,), s),
    ensures
        s is Deliver <==> (outcome matches ReadOutcome::Bytes(n) && n > 0),
        s is Resume <==> outcome is Interrupted,
        s is End <==> outcome is Failed || outcome == ReadOutcome::Bytes(0),
{
}

} // verus!
