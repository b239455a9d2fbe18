//! Turning arriving chunks back into lines.
//!
//! A line arrives split across chunks as readily as three lines arrive in one.
//! `\r\n` and `\n` are one line ending. A bare carriage return inside a line is
//! a boundary too: it is how a re-rendering terminal overwrites a row in place,
//! and each version of the row is handed over on its own.
use vstd::prelude::*;
use vstd::utf8::*;

use crate::ansi::{law_no_escape_survives, law_stripping_adds_nothing, strip_chars, stripped};
use crate::report::texts;
use crate::text::{chars_of, text_of};

verus! {

/// A line longer than this is handed over as it is rather than held further.
pub const MAX_LINE_BYTES: usize = 1_048_576;

/// What `String::from_utf8_lossy` makes of a run of bytes.
pub uninterp spec fn lossy(bytes: Seq<u8>) -> Seq<char>;

/// `String::from_utf8_lossy`, as an owned text. Valid UTF-8 decodes to the text
/// that it encodes; which replacement characters stand for invalid bytes is
/// left to the name. A line feed comes from the byte of that code alone.
#[verifier::external_body]
pub(crate) fn decode_lossy(bytes: &[u8]) -> (text: String)
    ensures
        text@ == lossy(bytes@),
        valid_utf8(bytes@) ==> text@ == decode_utf8(bytes@),
        !bytes@.contains(10u8) ==> !text@.contains('\n'),
{
    String::from_utf8_lossy(bytes).into_owned()
}

/// The index of the first `sep`, or the length.
pub open spec fn cut<T>(s: Seq<T>, sep: T) -> int
    decreases s.len(),
{
    if s.len() == 0 || s[0] == sep {
        0
    } else {
        1 + cut(s.drop_first(), sep)
    }
}

/// What stands behind the first `sep`.
pub open spec fn behind<T>(s: Seq<T>, sep: T) -> Seq<T> {
    if cut(s, sep) < s.len() {
        s.skip(cut(s, sep) + 1)
    } else {
        Seq::empty()
    }
}

/// The pieces between carriage returns that are not empty, in order.
pub open spec fn pieces(s: Seq<char>) -> Seq<Seq<char>>
    decreases s.len(),
{
    if s.len() == 0 {
        Seq::empty()
    } else {
        let head = s.take(cut(s, '\r'));
        proof {
            lemma_cut(s, '\r');
        }
        let tail = pieces(behind(s, '\r'));
        if head.len() > 0 {
            seq![head] + tail
        } else {
            tail
        }
    }
}

/// The lines that one terminated run of bytes says.
pub open spec fn lines_of(raw: Seq<u8>) -> Seq<Seq<char>> {
    pieces(stripped(lossy(raw)))
}

/// The lines of every terminated run of bytes.
pub open spec fn complete_lines(all: Seq<u8>) -> Seq<Seq<char>>
    decreases all.len(),
{
    let k = cut(all, 10u8);
    if k >= all.len() {
        Seq::empty()
    } else {
        proof {
            lemma_cut(all, 10u8);
        }
        lines_of(all.take(k)) + complete_lines(behind(all, 10u8))
    }
}

/// What stands behind the last line ending.
pub open spec fn unfinished(all: Seq<u8>) -> Seq<u8>
    decreases all.len(),
{
    if cut(all, 10u8) >= all.len() {
        all
    } else {
        proof {
            lemma_cut(all, 10u8);
        }
        unfinished(behind(all, 10u8))
    }
}

/// The lines that a chunk completes: the terminated ones, and the held-back run
/// too where it has grown past the cap.
pub open spec fn pushed_lines(all: Seq<u8>) -> Seq<Seq<char>> {
    if unfinished(all).len() > MAX_LINE_BYTES {
        complete_lines(all) + lines_of(unfinished(all))
    } else {
        complete_lines(all)
    }
}

/// What is held back after a chunk.
pub open spec fn held_after(all: Seq<u8>) -> Seq<u8> {
    if unfinished(all).len() > MAX_LINE_BYTES {
        Seq::empty()
    } else {
        unfinished(all)
    }
}

/// The lines of what is held back when the stream ends.
pub open spec fn finished_lines(held: Seq<u8>) -> Seq<Seq<char>> {
    if held.len() == 0 {
        Seq::empty()
    } else {
        lines_of(held)
    }
}

/// The lines that feeding chunks one by one gives, and then ending the stream.
pub open spec fn lines_over(held: Seq<u8>, chunks: Seq<Seq<u8>>) -> Seq<Seq<char>>
    decreases chunks.len(),
{
    if chunks.len() == 0 {
        finished_lines(held)
    } else {
        let all = held + chunks[0];
        pushed_lines(all) + lines_over(held_after(all), chunks.drop_first())
    }
}

/// The bytes of chunks, in order.
pub open spec fn joined_bytes(chunks: Seq<Seq<u8>>) -> Seq<u8>
    decreases chunks.len(),
{
    if chunks.len() == 0 {
        Seq::empty()
    } else {
        chunks[0] + joined_bytes(chunks.drop_first())
    }
}

/// Whether no run of bytes without a line feed outgrows the cap.
pub open spec fn within_cap(bytes: Seq<u8>) -> bool {
    forall|i: int, j: int|
        0 <= i <= j <= bytes.len() && !(#[trigger] bytes.subrange(i, j)).contains(10u8) ==> j - i
            <= MAX_LINE_BYTES
}

/// Whether a text is one line that shows something: not empty, with no line
/// feed, carriage return or escape character.
pub open spec fn is_clean(line: Seq<char>) -> bool {
    line.len() > 0 && !line.contains('\n') && !line.contains('\r') && !line.contains('\x1b')
}

/// Whether every text of a list is one line that shows something.
pub open spec fn all_clean(lines: Seq<Seq<char>>) -> bool {
    forall|i: int| 0 <= i < lines.len() ==> is_clean(#[trigger] lines[i])
}

/// The cut is the first place where the separator stands.
pub proof fn lemma_cut<T>(s: Seq<T>, sep: T)
    ensures
        0 <= cut(s, sep) <= s.len(),
        cut(s, sep) < s.len() ==> s[cut(s, sep)] == sep,
        forall|i: int| 0 <= i < cut(s, sep) ==> s[i] != sep,
    decreases s.len(),
{
    if s.len() > 0 && s[0] != sep {
        lemma_cut(s.drop_first(), sep);
        assert forall|i: int| 0 <= i < cut(s, sep) implies s[i] != sep by {
            if i > 0 {
                assert(s[i] == s.drop_first()[i - 1]);
            }
        }
    }
}

/// The first index of `sep` is where the cut is.
pub proof fn lemma_cut_at<T>(s: Seq<T>, sep: T, k: int)
    requires
        0 <= k <= s.len(),
        k < s.len() ==> s[k] == sep,
        forall|i: int| 0 <= i < k ==> s[i] != sep,
    ensures
        cut(s, sep) == k,
{
    lemma_cut(s, sep);
    if cut(s, sep) < k {
        assert(s[cut(s, sep)] != sep);
    }
    if k < cut(s, sep) {
        assert(s[k] != sep);
    }
}

/// Hand over the lines that one run of bytes says.
fn emit(raw: &[u8], out: &mut Vec<String>)
    requires
        !raw@.contains(10u8),
        all_clean(texts(old(out)@)),
    ensures
        texts(final(out)@) == texts(old(out)@) + lines_of(raw@),
        all_clean(texts(final(out)@)),
{
    broadcast use crate::report::lemma_texts_push;

    let chars = strip_chars(chars_of(decode_lossy(raw).as_str()).as_slice());
    proof {
        law_no_escape_survives(lossy(raw@));
        law_stripping_adds_nothing(lossy(raw@), '\n');
        lemma_pieces_clean(chars@);
    }
    let mut start: usize = 0;
    let mut i: usize = 0;
    proof {
        assert(chars@.skip(0) =~= chars@);
    }
    while i < chars.len()
        invariant
            chars@ == stripped(lossy(raw@)),
            all_clean(texts(old(out)@)),
            all_clean(pieces(chars@)),
            start <= i <= chars@.len(),
            forall|j: int| start <= j < i ==> chars@[j] != '\r',
            texts(out@) + pieces(chars@.skip(start as int)) == texts(old(out)@) + pieces(chars@),
        decreases chars@.len() - i,
    {
        if chars[i] == '\r' {
            let ghost rest = chars@.skip(start as int);
            let ghost before = texts(out@);
            proof {
                lemma_cut_at(rest, '\r', i - start);
                assert(behind(rest, '\r') =~= chars@.skip(i + 1));
                assert(rest.take(i - start) =~= chars@.subrange(start as int, i as int));
            }
            if start < i {
                let piece = text_of(vstd::slice::slice_subrange(chars.as_slice(), start, i));
                let ghost tail = pieces(chars@.skip(i + 1));
                assert(before + (seq![piece@] + tail) =~= before.push(piece@) + tail);
                out.push(piece);
            }
            start = i + 1;
        }
        i += 1;
    }
    let ghost rest = chars@.skip(start as int);
    let ghost before = texts(out@);
    proof {
        if start < i {
            lemma_cut_at(rest, '\r', i - start);
            assert(rest.take(i - start) =~= rest);
            assert(rest =~= chars@.subrange(start as int, i as int));
            assert(pieces(behind(rest, '\r')).len() == 0);
            assert(pieces(rest) =~= seq![rest]);
            assert(before + seq![rest] =~= before.push(rest));
        } else {
            assert(rest.len() == 0);
            assert(before + pieces(rest) =~= before);
        }
    }
    if start < i {
        out.push(text_of(vstd::slice::slice_subrange(chars.as_slice(), start, i)));
    }
    proof {
        lemma_clean_add(texts(old(out)@), pieces(chars@));
    }
}

proof fn lemma_clean_add(a: Seq<Seq<char>>, b: Seq<Seq<char>>)
    requires
        all_clean(a),
        all_clean(b),
    ensures
        all_clean(a + b),
{
    assert forall|i: int| 0 <= i < (a + b).len() implies is_clean(#[trigger] (a + b)[i]) by {
        if i < a.len() {
            assert((a + b)[i] == a[i]);
        } else {
            assert((a + b)[i] == b[i - a.len()]);
        }
    }
}

/// The pieces of a text without line feeds and escape characters are clean.
proof fn lemma_pieces_clean(s: Seq<char>)
    requires
        !s.contains('\n'),
        !s.contains('\x1b'),
    ensures
        all_clean(pieces(s)),
    decreases s.len(),
{
    if s.len() > 0 {
        lemma_cut(s, '\r');
        let k = cut(s, '\r');
        let head = s.take(k);
        let rest = behind(s, '\r');
        assert forall|i: int| 0 <= i < head.len() implies head[i] != '\n' && head[i] != '\x1b'
            && head[i] != '\r' by {
            assert(s.contains(s[i]));
        }
        assert forall|i: int| 0 <= i < rest.len() implies rest[i] != '\n' && rest[i] != '\x1b' by {
            assert(s.contains(s[i + k + 1]));
        }
        lemma_pieces_clean(rest);
        if head.len() > 0 {
            assert(is_clean(head));
            lemma_clean_add(seq![head], pieces(rest));
        }
    }
}

/// Turns chunks of bytes into lines.
pub struct LineSplitter {
    buf: Vec<u8>,
}

impl LineSplitter {
    /// The bytes of the line that has not ended yet.
    pub closed spec fn held(&self) -> Seq<u8> {
        self.buf@
    }

    /// What is held back has not ended.
    #[verifier::type_invariant]
    spec fn wf(&self) -> bool {
        !self.buf@.contains(10u8)
    }

    /// A splitter that has seen nothing.
    pub fn new() -> (s: Self)
        ensures
            s.held() == Seq::<u8>::empty(),
    {
        LineSplitter { buf: Vec::new() }
    }

    /// How many bytes are held back for the rest of their line.
    pub fn pending(&self) -> (n: usize)
        ensures
            n == self.held().len(),
    {
        self.buf.len()
    }

    /// Feed one arrived chunk and get every line that it completes, without its
    /// escape sequences and its terminator.
    pub fn push(&mut self, chunk: &[u8]) -> (lines: Vec<String>)
        ensures
            texts(lines@) == pushed_lines(old(self).held() + chunk@),
            final(self).held() == held_after(old(self).held() + chunk@),
            final(self).held().len() <= MAX_LINE_BYTES,
            all_clean(texts(lines@)),
    {
        let mut all: Vec<u8> = Vec::new();
        std::mem::swap(&mut all, &mut self.buf);
        let ghost before = all@;
        all.extend_from_slice(chunk);
        assert(all@ =~= before + chunk@);
        let mut lines: Vec<String> = Vec::new();
        let mut start: usize = 0;
        let mut i: usize = 0;
        proof {
            assert(all@.skip(0) =~= all@);
            assert(texts(lines@) + complete_lines(all@) =~= complete_lines(all@));
        }
        while i < all.len()
            invariant
                start <= i <= all@.len(),
                forall|j: int| start <= j < i ==> all@[j] != 10u8,
                all_clean(texts(lines@)),
                texts(lines@) + complete_lines(all@.skip(start as int)) == complete_lines(all@),
                unfinished(all@.skip(start as int)) == unfinished(all@),
            decreases all@.len() - i,
        {
            if all[i] == 10 {
                let ghost rest = all@.skip(start as int);
                let ghost said = texts(lines@);
                proof {
                    lemma_cut_at(rest, 10u8, i - start);
                    assert(behind(rest, 10u8) =~= all@.skip(i + 1));
                    assert(rest.take(i - start) =~= all@.subrange(start as int, i as int));
                }
                emit(vstd::slice::slice_subrange(all.as_slice(), start, i), &mut lines);
                proof {
                    let tail = complete_lines(all@.skip(i + 1));
                    let head = lines_of(all@.subrange(start as int, i as int));
                    assert(said + (head + tail) =~= (said + head) + tail);
                }
                start = i + 1;
            }
            i += 1;
        }
        proof {
            lemma_cut_at(all@.skip(start as int), 10u8, i - start);
            assert(texts(lines@) + complete_lines(all@.skip(start as int)) =~= texts(lines@));
        }
        let rest: Vec<u8> = all.split_off(start);
        assert(rest@ =~= unfinished(before + chunk@));
        assert(!rest@.contains(10u8));
        if rest.len() > MAX_LINE_BYTES {
            emit(rest.as_slice(), &mut lines);
            self.buf = Vec::new();
        } else {
            self.buf = rest;
        }
        lines
    }

    /// Whatever is left when the stream ends: a final line that never got its
    /// terminator is still a line that arrived.
    pub fn finish(&mut self) -> (lines: Vec<String>)
        ensures
            texts(lines@) == finished_lines(old(self).held()),
            final(self).held() == Seq::<u8>::empty(),
            all_clean(texts(lines@)),
    {
        proof {
            use_type_invariant(&*self);
        }
        let mut lines: Vec<String> = Vec::new();
        if self.buf.len() > 0 {
            let mut held: Vec<u8> = Vec::new();
            std::mem::swap(&mut held, &mut self.buf);
            emit(held.as_slice(), &mut lines);
            assert(texts(Seq::empty()) + lines_of(held@) =~= lines_of(held@));
        } else {
            assert(texts(lines@) =~= Seq::<Seq<char>>::empty());
        }
        lines
    }
}

/// Where a stream is cut into chunks does not matter while no line outgrows the
/// cap: two chunks complete the lines that the two as one would, in the same
/// order, and hold back the same bytes.
pub proof fn law_chunk_boundaries_are_immaterial(held: Seq<u8>, a: Seq<u8>, b: Seq<u8>)
    requires
        unfinished(held + a).len() <= MAX_LINE_BYTES,
    ensures
        pushed_lines(held + a) + pushed_lines(held_after(held + a) + b) == pushed_lines(
            held + (a + b),
        ),
        held_after(held_after(held + a) + b) == held_after(held + (a + b)),
{
    assert(held + (a + b) =~= (held + a) + b);
    lemma_complete_add(held + a, b);
    let x = held + a;
    let more = complete_lines(unfinished(x) + b);
    let flush = lines_of(unfinished(unfinished(x) + b));
    assert(complete_lines(x) + (more + flush) =~= (complete_lines(x) + more) + flush);
}

/// However a stream is cut into chunks, feeding them and ending the stream gives
/// the same lines, as long as no run of its bytes outgrows the cap.
pub proof fn law_every_cut_gives_the_same_lines(chunks: Seq<Seq<u8>>)
    requires
        within_cap(joined_bytes(chunks)),
    ensures
        lines_over(Seq::empty(), chunks) == complete_lines(joined_bytes(chunks)) + finished_lines(
            unfinished(joined_bytes(chunks)),
        ),
{
    let all = joined_bytes(chunks);
    assert(Seq::<u8>::empty() + all =~= all);
    lemma_cut_at(Seq::<u8>::empty(), 10u8, 0);
    lemma_lines_over(Seq::empty(), chunks);
}

proof fn lemma_lines_over(held: Seq<u8>, chunks: Seq<Seq<u8>>)
    requires
        within_cap(held + joined_bytes(chunks)),
        !held.contains(10u8),
    ensures
        lines_over(held, chunks) == complete_lines(held + joined_bytes(chunks)) + finished_lines(
            unfinished(held + joined_bytes(chunks)),
        ),
    decreases chunks.len(),
{
    let all = held + joined_bytes(chunks);
    if chunks.len() == 0 {
        assert(all =~= held);
        lemma_no_ending(held);
        assert(Seq::<Seq<char>>::empty() + finished_lines(held) =~= finished_lines(held));
    } else {
        let first = held + chunks[0];
        let rest = chunks.drop_first();
        let later = joined_bytes(rest);
        assert(all =~= first + later);
        lemma_unfinished(first);
        let n = first.len() - unfinished(first).len();
        assert(all.subrange(n, first.len() as int) =~= unfinished(first));
        let now = unfinished(first) + later;
        assert forall|i: int, j: int|
            0 <= i <= j <= now.len() && !(#[trigger] now.subrange(i, j)).contains(10u8) implies j
            - i <= MAX_LINE_BYTES by {
            assert(all.subrange(i + n, j + n) =~= now.subrange(i, j));
        }
        lemma_lines_over(unfinished(first), rest);
        lemma_complete_add(first, later);
        let a = complete_lines(first);
        let b = complete_lines(now);
        let c = finished_lines(unfinished(now));
        assert(a + (b + c) =~= (a + b) + c);
    }
}

/// A chunk that ends no line gives none, until the line outgrows the cap: it is
/// held back with what came before it.
pub proof fn law_an_open_line_is_held_back(held: Seq<u8>, chunk: Seq<u8>)
    requires
        !held.contains(10u8),
        !chunk.contains(10u8),
        held.len() + chunk.len() <= MAX_LINE_BYTES,
    ensures
        pushed_lines(held + chunk).len() == 0,
        held_after(held + chunk) == held + chunk,
{
    let all = held + chunk;
    assert forall|i: int| 0 <= i < all.len() implies all[i] != 10u8 by {
        if i < held.len() {
            assert(held.contains(held[i]));
        } else {
            assert(chunk.contains(chunk[i - held.len()]));
        }
    }
    lemma_no_ending(all);
}

proof fn lemma_no_ending(s: Seq<u8>)
    requires
        !s.contains(10u8),
    ensures
        complete_lines(s).len() == 0,
        unfinished(s) == s,
{
    assert forall|i: int| 0 <= i < s.len() implies s[i] != 10u8 by {
        assert(s.contains(s[i]));
    }
    lemma_cut_at(s, 10u8, s.len() as int);
}

/// What stands behind the last line ending is the end of the bytes, and holds no
/// line ending.
proof fn lemma_unfinished(s: Seq<u8>)
    ensures
        unfinished(s).len() <= s.len(),
        unfinished(s) == s.skip(s.len() - unfinished(s).len()),
        !unfinished(s).contains(10u8),
    decreases s.len(),
{
    lemma_cut(s, 10u8);
    if cut(s, 10u8) >= s.len() {
        assert(s.skip(0) =~= s);
    } else {
        let rest = behind(s, 10u8);
        lemma_unfinished(rest);
        assert(rest.skip(rest.len() - unfinished(rest).len()) =~= s.skip(
            s.len() - unfinished(rest).len(),
        ));
    }
}

proof fn lemma_complete_add(x: Seq<u8>, b: Seq<u8>)
    ensures
        complete_lines(x + b) == complete_lines(x) + complete_lines(unfinished(x) + b),
        unfinished(x + b) == unfinished(unfinished(x) + b),
    decreases x.len(),
{
    let k = cut(x, 10u8);
    lemma_cut(x, 10u8);
    if k >= x.len() {
        assert(Seq::<Seq<char>>::empty() + complete_lines(x + b) =~= complete_lines(x + b));
    } else {
        lemma_cut_at(x + b, 10u8, k);
        assert((x + b).take(k) =~= x.take(k));
        assert(behind(x + b, 10u8) =~= behind(x, 10u8) + b);
        lemma_complete_add(behind(x, 10u8), b);
        let head = lines_of(x.take(k));
        let mid = complete_lines(behind(x, 10u8));
        let tail = complete_lines(unfinished(x) + b);
        assert(head + (mid + tail) =~= (head + mid) + tail);
    }
}

/// Every line feed ends a line: what stands before the first one is taken as text,
/// stripped of its escapes and parted at its carriage returns, and the rest is
/// taken in the same way.
pub proof fn law_each_line_feed_ends_a_line(raw: Seq<u8>, rest: Seq<u8>)
    requires
        !raw.contains(10u8),
    ensures
        complete_lines(raw.push(10u8) + rest) == pieces(stripped(lossy(raw))) + complete_lines(rest),
        unfinished(raw.push(10u8) + rest) == unfinished(rest),
{
    let all = raw.push(10u8) + rest;
    assert forall|i: int| 0 <= i < raw.len() implies all[i] != 10u8 by {
        assert(all[i] == raw[i] && raw.contains(raw[i]));
    }
    lemma_cut_at(all, 10u8, raw.len() as int);
    assert(all.take(raw.len() as int) =~= raw);
    assert(behind(all, 10u8) =~= rest);
}

/// A carriage return parts a line in two, and a part without one is a line where
/// it holds anything.
pub proof fn law_each_carriage_return_parts_a_line(head: Seq<char>, rest: Seq<char>)
    requires
        !head.contains('\r'),
    ensures
        head.len() == 0 ==> pieces(head) == Seq::<Seq<char>>::empty(),
        head.len() > 0 ==> pieces(head) == seq![head],
        pieces(head.push('\r') + rest) == pieces(head) + pieces(rest),
{
    let all = head.push('\r') + rest;
    assert forall|i: int| 0 <= i < head.len() implies head[i] != '\r' && all[i] != '\r' by {
        assert(all[i] == head[i] && head.contains(head[i]));
    }
    lemma_cut_at(all, '\r', head.len() as int);
    lemma_cut_at(head, '\r', head.len() as int);
    assert(all.take(head.len() as int) =~= head);
    assert(behind(all, '\r') =~= rest);
    assert(head.take(head.len() as int) =~= head);
    reveal_with_fuel(pieces, 2);
    assert(pieces(head) =~= if head.len() == 0 {
        Seq::empty()
    } else {
        seq![head]
    });
    assert(pieces(all) =~= pieces(head) + pieces(rest));
}

/// What outgrows a mebibyte without ending is handed over as it stands, and
/// nothing of it is held back.
pub proof fn law_an_overlong_line_is_handed_over(held: Seq<u8>)
    requires
        !held.contains(10u8),
    ensures
        held.len() <= 1024 * 1024 ==> held_after(held) == held && pushed_lines(held).len() == 0,
        held.len() > 1024 * 1024 ==> held_after(held).len() == 0 && pushed_lines(held) == pieces(
            stripped(lossy(held)),
        ),
        held.len() > 0 ==> finished_lines(held) == pieces(stripped(lossy(held))),
        held.len() == 0 ==> finished_lines(held).len() == 0,
{
    lemma_no_ending(held);
    assert(complete_lines(held) + lines_of(held) =~= lines_of(held));
}

} // verus!
