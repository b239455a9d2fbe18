//! Byte-stream capture: everything the child writes to the terminal, with its
//! arrival time, so that a live session can be replayed offline.
//!
//! A capture is one JSON line per read chunk, `{"t_ns":<ns since spawn>,
//! "data":"<base64 bytes>"}`, beside a `-meta.json` file that identifies it.
use base64::engine::general_purpose::STANDARD;
use base64::Engine;
use vstd::prelude::*;
use vstd::string::*;

use crate::session::{elapsed, json_literal, json_string};
use crate::text::{all_space, chars_of, decimal, digit, is_blank, push_u64, text_of};

verus! {

/// What the standard base64 alphabet with padding makes of a run of bytes.
pub uninterp spec fn base64_text(bytes: Seq<u8>) -> Seq<char>;

/// What a base64 text decodes to, or why it does not.
pub uninterp spec fn base64_reading(text: Seq<char>) -> Result<Seq<u8>, Seq<char>>;

/// `base64::engine::general_purpose::STANDARD.encode`: four characters for every
/// three bytes begun, and the same engine decodes the text back to the bytes.
#[verifier::external_body]
fn encode_base64(bytes: &[u8]) -> (text: String)
    requires
        bytes@.len() <= usize::MAX / 4,
    ensures
        text@ == base64_text(bytes@),
        text@.len() == (bytes@.len() + 2) / 3 * 4,
        base64_reading(text@) is Ok && base64_reading(text@)->Ok_0 == bytes@,
{
    STANDARD.encode(bytes)
}

/// `base64::engine::general_purpose::STANDARD.decode`, with the error in words.
/// Which texts decode, and to what, is left to the name.
#[verifier::external_body]
fn decode_base64(text: &str) -> (r: Result<Vec<u8>, String>)
    ensures
        match r {
            Ok(bytes) => base64_reading(text@) is Ok && base64_reading(text@)->Ok_0 == bytes@,
            Err(why) => base64_reading(text@) is Err && base64_reading(text@)->Err_0 == why@,
        },
{
    STANDARD.decode(text.as_bytes()).map_err(|err| err.to_string())
}

/// One recorded read: when it came after the spawn, and what it held.
#[derive(Debug)]
pub struct CaptureChunk {
    pub t_ns: u64,
    pub bytes: Vec<u8>,
}

/// A recorded read's contents.
pub struct ChunkView {
    pub t_ns: u64,
    pub bytes: Seq<u8>,
}

impl View for CaptureChunk {
    type V = ChunkView;

    open spec fn view(&self) -> ChunkView {
        ChunkView { t_ns: self.t_ns, bytes: self.bytes@ }
    }
}

/// What identifies a capture without provenance folklore.
#[derive(Clone, Debug)]
pub struct CaptureMeta {
    pub cli_version: String,
    pub os: String,
    pub cols: u16,
    pub rows: u16,
    /// UTC calendar date of the capture, `YYYY-MM-DD`.
    pub captured_on: String,
    pub scenario: String,
    pub chunks: u64,
    pub bytes: u64,
}

/// One line of a capture, between its fields and its text.
#[derive(Clone, Debug)]
pub struct CaptureLine {
    pub t_ns: u64,
    pub data: String,
}

impl CaptureLine {
    /// The line as it stands in the file, terminator included.
    pub open spec fn written(&self) -> Seq<char> {
        "{\"t_ns\":"@ + decimal(self.t_ns as nat) + ",\"data\":"@ + json_literal(self.data@)
            + "}\n"@
    }

    /// The line as it stands in the file, terminator included.
    pub fn to_text(&self) -> (text: String)
        ensures
            text@ == self.written(),
    {
        let mut text = "{\"t_ns\":".to_owned();
        push_u64(&mut text, self.t_ns);
        text.append(",\"data\":");
        text.append(json_string(self.data.as_str()).as_str());
        text.append("}\n");
        text
    }

    /// Whether the line stands for this chunk.
    pub open spec fn stands_for(&self, chunk: ChunkView) -> bool {
        self.t_ns == chunk.t_ns && base64_reading(self.data@) == Ok::<Seq<u8>, Seq<char>>(
            chunk.bytes,
        )
    }
}

/// Counts what a capture records. Times are readings of one monotonic clock.
#[derive(Clone, Copy, Debug)]
pub struct CaptureWriter {
    t0: u64,
    chunks: u64,
    bytes: u64,
}

impl CaptureWriter {
    /// The child's spawn.
    pub closed spec fn spawned(&self) -> u64 {
        self.t0
    }

    /// How many chunks were recorded.
    pub closed spec fn chunk_count(&self) -> u64 {
        self.chunks
    }

    /// How many bytes were recorded.
    pub closed spec fn byte_count(&self) -> u64 {
        self.bytes
    }

    /// A capture that measures from the child's spawn.
    pub fn create(t0: u64) -> (w: Self)
        ensures
            w.spawned() == t0,
            w.chunk_count() == 0,
            w.byte_count() == 0,
    {
        CaptureWriter { t0, chunks: 0, bytes: 0 }
    }

    /// Record a chunk read at `at`: the line to write.
    pub fn record(&mut self, at: u64, data: &[u8]) -> (line: CaptureLine)
        requires
            old(self).chunk_count() < u64::MAX,
            old(self).byte_count() + data@.len() <= u64::MAX,
            data@.len() <= usize::MAX / 4,
        ensures
            line.data@ == base64_text(data@),
            line.stands_for(
                ChunkView { t_ns: elapsed(old(self).spawned(), at) as u64, bytes: data@ },
            ),
            final(self).spawned() == old(self).spawned(),
            final(self).chunk_count() == old(self).chunk_count() + 1,
            final(self).byte_count() == old(self).byte_count() + data@.len(),
    {
        let line = CaptureLine { t_ns: at.saturating_sub(self.t0), data: encode_base64(data) };
        self.chunks = self.chunks + 1;
        self.bytes = self.bytes + data.len() as u64;
        line
    }

    /// The side file of a finished capture.
    pub fn finish(
        self,
        cli_version: &str,
        os: &str,
        cols: u16,
        rows: u16,
        captured_on: &str,
        scenario: &str,
    ) -> (meta: CaptureMeta)
        ensures
            meta.cli_version@ == cli_version@,
            meta.os@ == os@,
            meta.cols == cols,
            meta.rows == rows,
            meta.captured_on@ == captured_on@,
            meta.scenario@ == scenario@,
            meta.chunks == self.chunk_count(),
            meta.bytes == self.byte_count(),
    {
        CaptureMeta {
            cli_version: cli_version.to_owned(),
            os: os.to_owned(),
            cols,
            rows,
            captured_on: captured_on.to_owned(),
            scenario: scenario.to_owned(),
            chunks: self.chunks,
            bytes: self.bytes,
        }
    }
}

/// Whether a character separates the parts of a path on some platform.
pub open spec fn separates(c: char) -> bool {
    c == '/' || c == '\\'
}

/// Whether a text is a file name and nothing else on every platform.
pub open spec fn bare_name(name: Seq<char>) -> bool {
    &&& name.len() > 0
    &&& name != "."@
    &&& name != ".."@
    &&& forall|i: int| 0 <= i < name.len() ==> !separates(#[trigger] name[i]) && name[i] != ':'
}

/// What stands behind the last slash of a path.
pub open spec fn last_name(path: Seq<char>) -> Seq<char>
    decreases path.len(),
{
    if path.len() == 0 || path.last() == '/' {
        Seq::empty()
    } else {
        last_name(path.drop_last()).push(path.last())
    }
}

/// What stands up to the last slash of a path, the slash among it.
pub open spec fn dir_part(path: Seq<char>) -> Seq<char> {
    path.take(path.len() - last_name(path).len())
}

/// Whether a path names a file on every platform: it ends in a bare name, and
/// does not begin like a network or device path.
pub open spec fn names_a_file(path: Seq<char>) -> bool {
    &&& bare_name(last_name(path))
    &&& !(path.len() >= 2 && separates(path[0]) && separates(path[1]))
}

/// Whether a directory part ends in one separator behind a name of its own, so
/// that no platform shortens it: no doubled separator, and no current directory
/// behind another.
pub open spec fn plain_dir(dir: Seq<char>) -> bool {
    let n = dir.len();
    &&& n >= 2 ==> !separates(dir[n - 2])
    &&& n >= 3 && dir[n - 2] == '.' ==> !separates(dir[n - 3])
}

/// What stands behind the last separator or colon of a name.
pub open spec fn last_part(name: Seq<char>) -> Seq<char>
    decreases name.len(),
{
    if name.len() == 0 || separates(name.last()) || name.last() == ':' {
        Seq::empty()
    } else {
        last_part(name.drop_last()).push(name.last())
    }
}

/// Whether a text ends in another.
pub open spec fn ends_in(text: Seq<char>, end: Seq<char>) -> bool {
    text.len() >= end.len() && text.skip(text.len() - end.len()) == end
}

/// The index of the last dot of a name; below zero where it has none.
pub open spec fn last_dot(name: Seq<char>) -> int
    decreases name.len(),
{
    if name.len() == 0 {
        -1
    } else if name.last() == '.' {
        name.len() - 1
    } else {
        last_dot(name.drop_last())
    }
}

/// A name without its extension. A name whose only dot is its first character
/// has none.
pub open spec fn name_stem(name: Seq<char>) -> Seq<char> {
    if last_dot(name) > 0 {
        name.take(last_dot(name))
    } else {
        name
    }
}

/// Where the file name of a path begins, where the path names a file on every
/// platform.
fn file_name_start(path: &[char]) -> (start: Option<usize>)
    ensures
        match start {
            Some(n) => names_a_file(path@) && n == path@.len() - last_name(path@).len(),
            None => !names_a_file(path@),
        },
{
    let mut n: usize = path.len();
    assert(path@.take(n as int) =~= path@);
    assert(last_name(path@) =~= last_name(path@) + path@.skip(n as int));
    while n > 0 && path[n - 1] != '/'
        invariant
            n <= path@.len(),
            last_name(path@) == last_name(path@.take(n as int)) + path@.skip(n as int),
        decreases n,
    {
        let ghost before = path@.take(n as int);
        assert(before.drop_last() =~= path@.take(n - 1));
        assert(last_name(before.drop_last()).push(before.last()) + path@.skip(n as int)
            =~= last_name(before.drop_last()) + path@.skip(n - 1));
        n -= 1;
    }
    let ghost name = last_name(path@);
    proof {
        reveal_strlit(".");
        reveal_strlit("..");
        if n > 0 {
            assert(path@.take(n as int).last() == '/');
        }
        assert(name =~= path@.skip(n as int));
    }
    if n == path.len() {
        return None;
    }
    if path.len() - n == 1 && path[n] == '.' {
        assert(name =~= "."@);
        return None;
    }
    if path.len() - n == 2 && path[n] == '.' && path[n + 1] == '.' {
        assert(name =~= ".."@);
        return None;
    }
    if path.len() >= 2 && (path[0] == '/' || path[0] == '\\') && (path[1] == '/' || path[1]
        == '\\') {
        return None;
    }
    let mut i: usize = n;
    while i < path.len()
        invariant
            n <= i <= path@.len(),
            name == last_name(path@),
            name == path@.skip(n as int),
            forall|j: int| 0 <= j < i - n ==> !separates(#[trigger] name[j]) && name[j] != ':',
        decreases path@.len() - i,
    {
        if path[i] == '/' || path[i] == '\\' || path[i] == ':' {
            assert(name[i - n] == path@[i as int]);
            return None;
        }
        i += 1;
    }
    assert(name != "."@ && name != ".."@) by {
        if name.len() == 1 {
            assert(name[0] == path@[n as int]);
        }
        if name.len() == 2 {
            assert(name[0] == path@[n as int] && name[1] == path@[n + 1]);
        }
    }
    Some(n)
}

/// `std::path::Path::file_stem`: the file name without its extension, for a path
/// that names a file on every platform. Of other paths nothing is said, since
/// platforms take them apart differently.
#[verifier::external_body]
fn file_stem(path: &str) -> (stem: Option<String>)
    ensures
        names_a_file(path@) ==> stem is Some && stem->Some_0@ == name_stem(last_name(path@)),
{
    std::path::Path::new(path).file_stem().map(|stem| stem.to_string_lossy().into_owned())
}

/// `std::path::Path::with_file_name`: the path with its file name replaced by
/// another, which is what the result then ends in: the last part of it, where it
/// has more than one. Of what stands before it nothing is said, since platforms
/// take a path apart differently.
#[verifier::external_body]
fn with_file_name(path: &str, name: &str) -> (sibling: String)
    ensures
        bare_name(last_part(name@)) ==> ends_in(sibling@, last_part(name@)),
{
    std::path::Path::new(path).with_file_name(name).to_string_lossy().into_owned()
}

/// The name of the side file for a capture's stem.
pub open spec fn meta_name_text(stem: Option<Seq<char>>) -> Seq<char> {
    match stem {
        Some(stem) => stem + "-meta.json"@,
        None => "capture-meta.json"@,
    }
}

/// The name of the side file for a capture's stem.
pub fn meta_name(stem: Option<&str>) -> (name: String)
    ensures
        name@ == meta_name_text(
            match stem {
                Some(stem) => Some(stem@),
                None => None,
            },
        ),
{
    match stem {
        Some(stem) => {
            let mut name = stem.to_owned();
            name.append("-meta.json");
            name
        },
        None => "capture-meta.json".to_owned(),
    }
}

/// `capture.ndjson` to `capture-meta.json`, next to each other. How a path is
/// taken apart that does not name a file on every platform, or whose directory
/// some platform writes shorter, is the platform's.
pub fn meta_path_for(capture: &str) -> (meta: String)
    ensures
        ends_in(meta@, "-meta.json"@),
        names_a_file(capture@) ==> ends_in(
            meta@,
            meta_name_text(Some(name_stem(last_name(capture@)))),
        ),
        names_a_file(capture@) && plain_dir(dir_part(capture@)) ==> meta@ == dir_part(capture@)
            + meta_name_text(Some(name_stem(last_name(capture@)))),
{
    let name = match file_stem(capture) {
        Some(stem) => meta_name(Some(stem.as_str())),
        None => meta_name(None),
    };
    proof {
        reveal_strlit("-meta.json");
        reveal_strlit("capture-meta.json");
        let end = "-meta.json"@;
        assert(name@.skip(name@.len() - end.len()) =~= end);
    }
    proof {
        lemma_last_part(name@);
        if names_a_file(capture@) {
            lemma_meta_name_is_bare(last_name(capture@));
        }
    }
    let path = chars_of(capture);
    match file_name_start(path.as_slice()) {
        Some(start) => {
            if is_plain_dir(path.as_slice(), start) {
                let mut meta = text_of(vstd::slice::slice_subrange(path.as_slice(), 0, start));
                assert(meta@ =~= dir_part(capture@));
                let ghost dir = meta@;
                meta.append(name.as_str());
                proof {
                    lemma_ends_in(dir, name@);
                    lemma_ends_in_chain(meta@, name@, "-meta.json"@);
                }
                return meta;
            }
        },
        None => {},
    }
    let meta = with_file_name(capture, name.as_str());
    proof {
        lemma_ends_in_chain(meta@, last_part(name@), "-meta.json"@);
    }
    meta
}

/// Whether the first `n` characters of a path are a directory part that no
/// platform shortens.
fn is_plain_dir(path: &[char], n: usize) -> (yes: bool)
    requires
        n <= path@.len(),
    ensures
        yes == plain_dir(path@.take(n as int)),
{
    if n >= 2 && (path[n - 2] == '/' || path[n - 2] == '\\') {
        return false;
    }
    !(n >= 3 && path[n - 2] == '.' && (path[n - 3] == '/' || path[n - 3] == '\\'))
}

proof fn lemma_ends_in(front: Seq<char>, end: Seq<char>)
    ensures
        ends_in(front + end, end),
{
    assert((front + end).skip(front.len() as int) =~= end);
}

proof fn lemma_ends_in_chain(text: Seq<char>, end: Seq<char>, last: Seq<char>)
    requires
        ends_in(text, end),
        ends_in(end, last),
    ensures
        ends_in(text, last),
{
    assert(text.skip(text.len() - last.len()) =~= end.skip(end.len() - last.len()));
}

/// A name for a side file ends in its suffix, and so does its last part, which is
/// a bare name.
proof fn lemma_last_part(name: Seq<char>)
    requires
        ends_in(name, "-meta.json"@),
    ensures
        bare_name(last_part(name)),
        ends_in(last_part(name), "-meta.json"@),
        bare_name(name) ==> last_part(name) == name,
{
    reveal_strlit("-meta.json");
    reveal_strlit(".");
    reveal_strlit("..");
    let end = "-meta.json"@;
    let k = name.len() - 10;
    assert(forall|i: int| 0 <= i < 10 ==> #[trigger] name[k + i] == end[i]) by {
        assert forall|i: int| 0 <= i < 10 implies #[trigger] name[k + i] == end[i] by {
            assert(name.skip(k)[i] == name[k + i]);
        }
    }
    assert forall|j: int| k <= j < name.len() implies !separates(#[trigger] name[j]) && name[j]
        != ':' by {
        assert(name[k + (j - k)] == end[j - k]);
    }
    lemma_part_of(name, k);
    let part = last_part(name);
    assert(part.skip(part.len() - 10) =~= end) by {
        assert forall|i: int| 0 <= i < 10 implies part.skip(part.len() - 10)[i] == end[i] by {
            assert(name[k + i] == end[i]);
        }
    }
    if bare_name(name) {
        lemma_part_of(name, 0);
        assert(part =~= name);
    }
}

/// The last part of a name is its end, holds no separator or colon, and reaches
/// at least as far back as the name holds none.
proof fn lemma_part_of(name: Seq<char>, k: int)
    requires
        0 <= k <= name.len(),
        forall|j: int| k <= j < name.len() ==> !separates(#[trigger] name[j]) && name[j] != ':',
    ensures
        name.len() - k <= last_part(name).len() <= name.len(),
        last_part(name) == name.skip(name.len() - last_part(name).len()),
        forall|i: int|
            0 <= i < last_part(name).len() ==> !separates(#[trigger] last_part(name)[i])
                && last_part(name)[i] != ':',
    decreases name.len(),
{
    if name.len() == 0 || separates(name.last()) || name.last() == ':' {
        if k < name.len() {
            assert(name[name.len() - 1] == name.last());
        }
        assert(name.skip(name.len() as int) =~= Seq::empty());
    } else {
        let rest = name.drop_last();
        let m = if k < name.len() {
            k
        } else {
            rest.len() as int
        };
        assert forall|j: int| m <= j < rest.len() implies !separates(#[trigger] rest[j])
            && rest[j] != ':' by {
            assert(rest[j] == name[j]);
        }
        lemma_part_of(rest, m);
        assert(last_part(name) =~= name.skip(name.len() - last_part(name).len()));
    }
}

/// The side file of a file with a bare name has a bare name.
proof fn lemma_meta_name_is_bare(name: Seq<char>)
    requires
        bare_name(name),
    ensures
        bare_name(meta_name_text(Some(name_stem(name)))),
{
    reveal_strlit("-meta.json");
    reveal_strlit(".");
    reveal_strlit("..");
    lemma_last_dot(name);
    let whole = meta_name_text(Some(name_stem(name)));
    assert(whole.len() >= 10);
    assert forall|i: int| 0 <= i < whole.len() implies !separates(#[trigger] whole[i]) && whole[i]
        != ':' by {
        if i < name_stem(name).len() {
            assert(whole[i] == name[i]);
        }
    }
}

proof fn lemma_last_dot(name: Seq<char>)
    ensures
        -1 <= last_dot(name) < name.len() || (name.len() == 0 && last_dot(name) == -1),
    decreases name.len(),
{
    if name.len() > 0 {
        lemma_last_dot(name.drop_last());
    }
}

/// One line of a capture file: its text, and what it parses as.
#[derive(Debug)]
pub struct LineRead {
    pub text: String,
    /// The fields, or the parser's complaint.
    pub parsed: Result<CaptureLine, String>,
}

/// What a line contributes: nothing where it is blank, its chunk, or the reason
/// why it has none.
pub open spec fn line_reading(line: LineRead) -> Result<Option<ChunkView>, Seq<char>> {
    if all_space(line.text@) {
        Ok(None)
    } else {
        match line.parsed {
            Err(why) => Err(why@),
            Ok(fields) => match base64_reading(fields.data@) {
                Ok(bytes) => Ok(Some(ChunkView { t_ns: fields.t_ns, bytes })),
                Err(why) => Err("base64: "@ + why),
            },
        }
    }
}

/// The chunks of lines that all have one or are blank, in order.
pub open spec fn chunks_of(lines: Seq<LineRead>) -> Seq<ChunkView>
    decreases lines.len(),
{
    if lines.len() == 0 {
        Seq::empty()
    } else {
        match line_reading(lines.last()) {
            Ok(Some(chunk)) => chunks_of(lines.drop_last()).push(chunk),
            _ => chunks_of(lines.drop_last()),
        }
    }
}

/// Whether line `i` is the first that cannot be read.
pub open spec fn first_bad(lines: Seq<LineRead>, i: int) -> bool {
    &&& 0 <= i < lines.len()
    &&& line_reading(lines[i]) is Err
    &&& forall|j: int| 0 <= j < i ==> line_reading(#[trigger] lines[j]) is Ok
}

/// The chunks' contents.
pub open spec fn views(chunks: Seq<CaptureChunk>) -> Seq<ChunkView> {
    chunks.map_values(|c: CaptureChunk| c@)
}

/// Read a capture back into ordered chunks. Any malformed line is an error: a
/// capture that cannot round-trip must fail the tool that reads it.
pub fn read_capture(path: &str, lines: &Vec<LineRead>) -> (r: Result<Vec<CaptureChunk>, String>)
    ensures
        match r {
            Ok(chunks) => {
                &&& forall|i: int| 0 <= i < lines@.len() ==> line_reading(#[trigger] lines@[i]) is Ok
                &&& views(chunks@) == chunks_of(lines@)
            },
            Err(text) => exists|i: int| #[trigger]
                first_bad(lines@, i) && text@ == path@ + ":"@ + decimal((i + 1) as nat) + ": "@
                    + line_reading(lines@[i])->Err_0,
        },
{
    let mut chunks: Vec<CaptureChunk> = Vec::new();
    let mut i: usize = 0;
    assert(lines@.take(0) =~= Seq::empty());
    assert(views(chunks@) =~= Seq::empty());
    while i < lines.len()
        invariant
            i <= lines@.len(),
            forall|j: int| 0 <= j < i ==> line_reading(#[trigger] lines@[j]) is Ok,
            views(chunks@) == chunks_of(lines@.take(i as int)),
        decreases lines@.len() - i,
    {
        let line = &lines[i];
        let ghost before = chunks@;
        assert(lines@.take(i + 1).drop_last() =~= lines@.take(i as int));
        if !is_blank(line.text.as_str()) {
            let why: String = match &line.parsed {
                Err(why) => why.clone(),
                Ok(fields) => match decode_base64(fields.data.as_str()) {
                    Ok(bytes) => {
                        chunks.push(CaptureChunk { t_ns: fields.t_ns, bytes });
                        assert(views(chunks@) =~= views(before).push(chunks@.last()@));
                        i += 1;
                        continue ;
                    },
                    Err(why) => {
                        let mut text = "base64: ".to_owned();
                        text.append(why.as_str());
                        text
                    },
                },
            };
            let mut text = path.to_owned();
            text.append(":");
            push_u64(&mut text, i as u64 + 1);
            text.append(": ");
            text.append(why.as_str());
            assert(first_bad(lines@, i as int));
            return Err(text);
        }
        i += 1;
    }
    assert(lines@.take(i as int) =~= lines@);
    Ok(chunks)
}

/// A capture reads back as it was recorded: lines that stand for chunks, in any
/// file that holds them, give exactly those chunks, bytes and pacing both.
pub proof fn law_a_capture_reads_back(lines: Seq<LineRead>, chunks: Seq<ChunkView>)
    requires
        lines.len() == chunks.len(),
        forall|i: int| #![trigger lines[i]]
            0 <= i < lines.len() ==> !all_space(lines[i].text@) && lines[i].parsed is Ok
                && lines[i].parsed->Ok_0.stands_for(chunks[i]),
    ensures
        forall|i: int| 0 <= i < lines.len() ==> line_reading(#[trigger] lines[i]) is Ok,
        chunks_of(lines) == chunks,
    decreases lines.len(),
{
    if lines.len() == 0 {
        assert(chunks =~= Seq::empty());
    } else {
        let k = lines.len() - 1;
        assert(lines[k].parsed->Ok_0.stands_for(chunks[k]));
        assert forall|i: int| #![trigger lines.drop_last()[i]]
            0 <= i < k implies !all_space(lines.drop_last()[i].text@) && lines.drop_last()[i].parsed
            is Ok && lines.drop_last()[i].parsed->Ok_0.stands_for(chunks.drop_last()[i]) by {
            assert(lines.drop_last()[i] == lines[i]);
        }
        law_a_capture_reads_back(lines.drop_last(), chunks.drop_last());
        assert(chunks =~= chunks.drop_last().push(chunks[k]));
        assert forall|i: int| 0 <= i < lines.len() implies line_reading(#[trigger] lines[i])
            is Ok by {
            if i < k {
                assert(lines.drop_last()[i] == lines[i]);
            }
        }
    }
}

/// How many leap years there are in the years 1 to `y`.
pub open spec fn leap_years(y: int) -> int {
    y / 4 - y / 100 + y / 400
}

/// Whether a year of the Gregorian calendar has 366 days.
pub open spec fn is_leap(y: int) -> bool {
    y % 4 == 0 && (y % 100 != 0 || y % 400 == 0)
}

/// How many days of a year lie before its month `m`, counted from one.
pub open spec fn days_before_month(y: int, m: int) -> int {
    let common = if m == 1 {
        0
    } else if m == 2 {
        31
    } else if m == 3 {
        59
    } else if m == 4 {
        90
    } else if m == 5 {
        120
    } else if m == 6 {
        151
    } else if m == 7 {
        181
    } else if m == 8 {
        212
    } else if m == 9 {
        243
    } else if m == 10 {
        273
    } else if m == 11 {
        304
    } else {
        334int
    };
    if m > 2 && is_leap(y) {
        common + 1
    } else {
        common
    }
}

/// How many days a month has.
pub open spec fn days_in_month(y: int, m: int) -> int {
    if m == 2 {
        if is_leap(y) {
            29
        } else {
            28
        }
    } else if m == 4 || m == 6 || m == 9 || m == 11 {
        30
    } else {
        31
    }
}

/// The number of a Gregorian calendar day, counted from 1970-01-01 as zero.
pub open spec fn day_number(y: int, m: int, d: int) -> int {
    365 * (y - 1) + leap_years(y - 1) - 719_162 + days_before_month(y, m) + d - 1
}

/// Whether a year, month and day name a day of the calendar.
pub open spec fn is_date(y: int, m: int, d: int) -> bool {
    y >= 1 && 1 <= m <= 12 && 1 <= d <= days_in_month(y, m)
}

/// A number below a hundred in two digits.
pub open spec fn two_digits(n: nat) -> Seq<char> {
    seq![digit(n / 10), digit(n % 10)]
}

/// A date as `YYYY-MM-DD`.
pub open spec fn date_text(y: int, m: int, d: int) -> Seq<char> {
    decimal(y as nat) + "-"@ + two_digits(m as nat) + "-"@ + two_digits(d as nat)
}

proof fn lemma_leap_years(e: int, c: int, q: int, r: int)
    requires
        e >= 0,
        0 <= c <= 3,
        0 <= q <= 24,
        0 <= r <= 3,
    ensures
        ({
            let y = 400 * e + 100 * c + 4 * q + r;
            &&& leap_years(y) == 97 * e + 24 * c + q
            &&& is_leap(y) <==> r == 0 && (q > 0 || c == 0)
        }),
{
}

fn push_two(text: &mut String, n: u64)
    requires
        n < 100,
    ensures
        final(text)@ == old(text)@ + two_digits(n as nat),
{
    let tens: u8 = 48 + (n / 10) as u8;
    let ones: u8 = 48 + (n % 10) as u8;
    text.push(tens as char);
    text.push(ones as char);
    assert(text@ =~= old(text)@ + two_digits(n as nat));
}

/// The day of a year from March on that month `mp` of it begins with.
spec fn march_start(mp: int) -> int {
    if mp == 0 {
        0
    } else if mp == 1 {
        31
    } else if mp == 2 {
        61
    } else if mp == 3 {
        92
    } else if mp == 4 {
        122
    } else if mp == 5 {
        153
    } else if mp == 6 {
        184
    } else if mp == 7 {
        214
    } else if mp == 8 {
        245
    } else if mp == 9 {
        275
    } else if mp == 10 {
        306
    } else if mp == 11 {
        337
    } else {
        366int
    }
}

/// The month of a day, both counted from March on.
proof fn lemma_month_of(doy: int)
    requires
        0 <= doy <= 365,
    ensures
        ({
            let mp = (5 * doy + 2) / 153;
            &&& 0 <= mp <= 11
            &&& (153 * mp + 2) / 5 == march_start(mp)
            &&& march_start(mp) <= doy < march_start(mp + 1)
        }),
{
    let mp = (5 * doy + 2) / 153;
    assert(mp == 0 || mp == 1 || mp == 2 || mp == 3 || mp == 4 || mp == 5 || mp == 6 || mp == 7
        || mp == 8 || mp == 9 || mp == 10 || mp == 11);
}

/// The first of March of a year.
proof fn lemma_first_of_march(e: int, c: int, q: int, r: int)
    requires
        e >= 0,
        0 <= c <= 3,
        0 <= q <= 24,
        0 <= r <= 3,
    ensures
        day_number(400 * e + 100 * c + 4 * q + r, 3, 1) == 146_097 * e + 36_524 * c + 1_461 * q
            + 365 * r - 719_468,
{
    lemma_leap_years(e, c, q, r);
    lemma_year_before(e, c, q, r);
}

/// The date of a day of a year from March on.
proof fn lemma_date(e: int, c: int, q: int, r: int, doy: int)
    requires
        e >= 1,
        0 <= c <= 3,
        0 <= q <= 24,
        0 <= r <= 3,
        0 <= doy <= 365,
        doy == 365 ==> r == 3 && (q < 24 || c == 3),
    ensures
        ({
            let march_year = 400 * e + 100 * c + 4 * q + r;
            let mp = (5 * doy + 2) / 153;
            let d = doy - (153 * mp + 2) / 5 + 1;
            let m = if mp < 10 {
                mp + 3
            } else {
                mp - 9
            };
            let y = if m <= 2 {
                march_year + 1
            } else {
                march_year
            };
            &&& is_date(y, m, d)
            &&& day_number(y, m, d) == 146_097 * e + 36_524 * c + 1_461 * q + 365 * r + doy
                - 719_468
        }),
{
    let y = 400 * e + 100 * c + 4 * q + r;
    lemma_first_of_march(e, c, q, r);
    lemma_month_of(doy);
    lemma_one_year(y);
    assert(day_number(y + 1, 1, 1) == day_number(y, 3, 1) + 306);
    if doy == 365 {
        if q < 24 {
            lemma_leap_years(e, c, q + 1, 0);
        } else {
            lemma_leap_years(e + 1, 0, 0, 0);
        }
        assert(is_leap(y + 1));
    }
}

/// The date of a day, counted from 1970-01-01.
fn date_of(day: u64) -> (ymd: (u64, u64, u64))
    requires
        day <= u64::MAX / 86_400,
    ensures
        is_date(ymd.0 as int, ymd.1 as int, ymd.2 as int),
        day_number(ymd.0 as int, ymd.1 as int, ymd.2 as int) == day,
{
    // Days since 0000-03-01: years that begin in March end with the leap day.
    let z: u64 = day + 719_468;
    let era: u64 = z / 146_097;
    let doe: u64 = z % 146_097;
    let century: u64 = if doe / 36_524 > 3 {
        3
    } else {
        doe / 36_524
    };
    let doc: u64 = doe - century * 36_524;
    let quad: u64 = doc / 1_461;
    let doq: u64 = doc % 1_461;
    let yoq: u64 = if doq / 365 > 3 {
        3
    } else {
        doq / 365
    };
    let doy: u64 = doq - yoq * 365;
    let march_year: u64 = era * 400 + century * 100 + quad * 4 + yoq;
    proof {
        lemma_month_of(doy as int);
    }
    let mp: u64 = (5 * doy + 2) / 153;
    let d: u64 = doy - (153 * mp + 2) / 5 + 1;
    let m: u64 = if mp < 10 {
        mp + 3
    } else {
        mp - 9
    };
    let y: u64 = if m <= 2 {
        march_year + 1
    } else {
        march_year
    };
    proof {
        lemma_date(era as int, century as int, quad as int, yoq as int, doy as int);
    }
    (y, m, d)
}

/// UTC calendar date of a Unix timestamp, `YYYY-MM-DD`.
pub fn utc_date(unix_secs: u64) -> (date: String)
    ensures
        exists|y: int, m: int, d: int| #[trigger]
            is_date(y, m, d) && day_number(y, m, d) == unix_secs / 86_400 && date@ == date_text(
                y,
                m,
                d,
            ),
{
    let (y, m, d) = date_of(unix_secs / 86_400);
    let mut date = String::new();
    push_u64(&mut date, y);
    assert(date@ =~= decimal(y as nat));
    date.append("-");
    push_two(&mut date, m);
    date.append("-");
    push_two(&mut date, d);
    date
}

proof fn lemma_year_before(e: int, c: int, q: int, r: int)
    requires
        e >= 0,
        0 <= c <= 3,
        0 <= q <= 24,
        0 <= r <= 3,
    ensures
        ({
            let y = 400 * e + 100 * c + 4 * q + r;
            leap_years(y) == leap_years(y - 1) + if is_leap(y) {
                1int
            } else {
                0int
            }
        }),
{
}

/// A day has one date: two dates with the same day number are the same date.
pub proof fn law_a_day_has_one_date(y1: int, m1: int, d1: int, y2: int, m2: int, d2: int)
    requires
        is_date(y1, m1, d1),
        is_date(y2, m2, d2),
        day_number(y1, m1, d1) == day_number(y2, m2, d2),
    ensures
        y1 == y2,
        m1 == m2,
        d1 == d2,
{
    if y1 < y2 {
        lemma_years_apart(y1, y2);
    } else if y2 < y1 {
        lemma_years_apart(y2, y1);
    }
}

/// A later year starts behind every day of an earlier one.
proof fn lemma_years_apart(a: int, b: int)
    requires
        1 <= a < b,
    ensures
        day_number(b, 1, 1) > day_number(a, 12, 31),
    decreases b - a,
{
    lemma_one_year(b - 1);
    if a < b - 1 {
        lemma_years_apart(a, b - 1);
    }
}

proof fn lemma_one_year(y: int)
    requires
        y >= 1,
    ensures
        day_number(y + 1, 1, 1) == day_number(y, 12, 31) + 1,
{
    let e = y / 400;
    let a = y % 400;
    let c = a / 100;
    let b = a % 100;
    let q = b / 4;
    let r = b % 4;
    assert(y == 400 * e + 100 * c + 4 * q + r);
    lemma_year_before(e, c, q, r);
}

/// Days are counted as the calendar has them: the first of 1970 is day zero, the
/// day after is one more, and the last of a month is followed by the first of the
/// next. February has a day more in every fourth year, but for three of every
/// four full centuries.
pub proof fn law_each_day_follows_the_one_before(y: int, m: int, d: int)
    requires
        y >= 1,
        1 <= m <= 12,
        d >= 1,
    ensures
        day_number(1970, 1, 1) == 0,
        ({
            let leap = y % 4 == 0 && (y % 100 != 0 || y % 400 == 0);
            let last: int = if m == 2 {
                if leap {
                    29
                } else {
                    28
                }
            } else if m == 4 || m == 6 || m == 9 || m == 11 {
                30
            } else {
                31
            };
            &&& is_date(y, m, d) <==> d <= last
            &&& day_number(y, m, d + 1) == day_number(y, m, d) + 1
            &&& d == last && m < 12 ==> day_number(y, m + 1, 1) == day_number(y, m, d) + 1
            &&& d == last && m == 12 ==> day_number(y + 1, 1, 1) == day_number(y, m, d) + 1
        }),
{
    lemma_one_year(y);
}

/// A date is written as its year, then its month and its day in two digits each.
pub proof fn law_a_date_is_written_in_full(y: int, m: int, d: int)
    requires
        is_date(y, m, d),
    ensures
        date_text(y, m, d) == decimal(y as nat) + "-"@ + (if m < 10 {
            "0"@ + decimal(m as nat)
        } else {
            decimal(m as nat)
        }) + "-"@ + (if d < 10 {
            "0"@ + decimal(d as nat)
        } else {
            decimal(d as nat)
        }),
{
    reveal_strlit("0");
    lemma_two_digits(m as nat);
    lemma_two_digits(d as nat);
}

proof fn lemma_two_digits(n: nat)
    requires
        n < 100,
    ensures
        two_digits(n) == if n < 10 {
            "0"@ + decimal(n)
        } else {
            decimal(n)
        },
{
    reveal_strlit("0");
    reveal_with_fuel(decimal, 2);
    if n < 10 {
        assert(two_digits(n) =~= "0"@ + decimal(n));
    } else {
        assert(two_digits(n) =~= decimal(n));
    }
}

/// A capture's lines contribute in order, and blank ones not at all.
pub proof fn law_capture_lines_are_read_in_order(a: Seq<LineRead>, line: LineRead, chunk: ChunkView)
    ensures
        chunks_of(Seq::empty()).len() == 0,
        all_space(line.text@) ==> chunks_of(a.push(line)) == chunks_of(a) && line_reading(
            line,
        ) is Ok,
        !all_space(line.text@) && line.parsed is Ok && line.parsed->Ok_0.t_ns == chunk.t_ns
            && base64_reading(line.parsed->Ok_0.data@) == Ok::<Seq<u8>, Seq<char>>(chunk.bytes)
            ==> chunks_of(a.push(line)) == chunks_of(a).push(chunk) && line_reading(line) is Ok,
        !all_space(line.text@) && (line.parsed is Err || base64_reading(
            line.parsed->Ok_0.data@,
        ) is Err) ==> line_reading(line) is Err,
{
    assert(a.push(line).drop_last() =~= a);
}

/// A capture's side file stands beside it: of a path, what is behind the last
/// slash is the name and what is up to it the directory, and of a name, what is
/// before the last dot is the stem.
pub proof fn law_a_path_is_taken_apart_at_its_last_slash_and_dot(
    dir: Seq<char>,
    stem: Seq<char>,
    ext: Seq<char>,
)
    requires
        dir.len() == 0 || dir.last() == '/',
        stem.len() > 0,
        !stem.contains('/'),
        !ext.contains('/'),
        !ext.contains('.'),
    ensures
        ({
            let name = stem.push('.') + ext;
            &&& last_name(dir + name) == name
            &&& dir_part(dir + name) == dir
            &&& name_stem(name) == stem
        }),
        !stem.contains('.') ==> name_stem(stem) == stem && last_name(dir + stem) == stem,
{
    let name = stem.push('.') + ext;
    assert forall|i: int| 0 <= i < name.len() implies name[i] != '/' by {
        if i < stem.len() {
            assert(stem.contains(stem[i]));
        } else if i > stem.len() {
            assert(name[i] == ext[i - stem.len() - 1] && ext.contains(name[i]));
        }
    }
    lemma_last_name(dir, name);
    assert((dir + name).take(dir.len() as int) =~= dir);
    lemma_dot_at(stem.push('.'), ext);
    assert(stem.push('.').last() == '.');
    assert(name.take(stem.len() as int) =~= stem);
    if !stem.contains('.') {
        lemma_dot_at(Seq::empty(), stem);
        assert(Seq::<char>::empty() + stem =~= stem);
        assert forall|i: int| 0 <= i < stem.len() implies stem[i] != '/' by {
            assert(stem.contains(stem[i]));
        }
        lemma_last_name(dir, stem);
    }
}

proof fn lemma_last_name(dir: Seq<char>, name: Seq<char>)
    requires
        dir.len() == 0 || dir.last() == '/',
        forall|i: int| 0 <= i < name.len() ==> name[i] != '/',
    ensures
        last_name(dir + name) == name,
    decreases name.len(),
{
    let all = dir + name;
    if name.len() > 0 {
        let front = name.drop_last();
        assert(name[name.len() - 1] != '/');
        lemma_last_name(dir, front);
        assert(all.drop_last() =~= dir + front);
        assert(all.last() == name.last());
        assert(front.push(name.last()) =~= name);
    } else {
        assert(all =~= dir);
    }
}

proof fn lemma_dot_at(front: Seq<char>, ext: Seq<char>)
    requires
        front.len() == 0 || front.last() == '.',
        !ext.contains('.'),
    ensures
        last_dot(front + ext) == front.len() - 1,
    decreases ext.len(),
{
    let all = front + ext;
    if ext.len() > 0 {
        assert(ext.contains(ext.last()));
        let short = ext.drop_last();
        assert forall|i: int| 0 <= i < short.len() implies short[i] != '.' by {
            assert(ext.contains(ext[i]));
        }
        lemma_dot_at(front, short);
        assert(all.drop_last() =~= front + short);
        assert(all.last() == ext.last());
    } else {
        assert(all =~= front);
    }
}

/// A name whose only dot is its first character has no extension.
pub proof fn law_a_leading_dot_begins_no_extension(rest: Seq<char>)
    requires
        !rest.contains('.'),
    ensures
        name_stem(seq!['.'] + rest) == seq!['.'] + rest,
{
    lemma_dot_at(seq!['.'], rest);
}

} // verus!
