//! Incremental UTF-8 reassembly: chunks arrive split at arbitrary byte
//! boundaries, so a multi-byte character may straddle two reads. Complete
//! characters are decoded as each chunk arrives, an incomplete trailing one is
//! carried into the next push, and bytes that can never be valid are reported.
use vstd::prelude::*;
use vstd::slice::slice_subrange;
use vstd::string::*;
use vstd::utf8::*;

verus! {

/// The error type of `core::str::from_utf8`.
#[verifier::external_type_specification]
#[verifier::external_body]
pub struct ExUtf8Error(core::str::Utf8Error);

/// `core::str::from_utf8`: succeeds exactly on valid UTF-8, and the text is
/// then the one that these bytes encode.
pub assume_specification[ core::str::from_utf8 ](v: &[u8]) -> (r: Result<
    &str,
    core::str::Utf8Error,
>)
    ensures
        r is Ok <==> valid_utf8(v@),
        r matches Ok(text) ==> text.spec_bytes() == v@,
;

/// The length of the longest prefix that is valid UTF-8.
pub open spec fn valid_len(bytes: Seq<u8>) -> int
    decreases bytes.len(),
{
    if bytes.len() == 0 || !valid_first_scalar(bytes) {
        0
    } else {
        length_of_first_scalar(bytes) + valid_len(pop_first_scalar(bytes))
    }
}

/// Whether some continuation turns these bytes into the start of one character.
pub open spec fn completable(bytes: Seq<u8>) -> bool {
    exists|tail: Seq<u8>| valid_first_scalar(#[trigger] (bytes + tail))
}

/// The text that a stream has decoded to, after the longest valid prefix of
/// what was carried and what arrives.
pub open spec fn decoded_after(decoded: Seq<char>, carry: Seq<u8>, chunk: Seq<u8>) -> Seq<char> {
    let all = carry + chunk;
    decoded + decode_utf8(all.take(valid_len(all)))
}

/// What is held back after that prefix.
pub open spec fn carried_after(carry: Seq<u8>, chunk: Seq<u8>) -> Seq<u8> {
    let all = carry + chunk;
    all.skip(valid_len(all))
}

/// Whether held-back bytes may still become a character.
pub open spec fn may_continue(carry: Seq<u8>) -> bool {
    carry.len() == 0 || completable(carry)
}

/// The byte stream holds a sequence that can never become valid UTF-8.
#[derive(Clone, Copy, Debug, PartialEq, Eq, Structural)]
pub struct InvalidUtf8;

/// Decodes a stream of byte chunks.
pub struct Reassembler {
    decoded: String,
    carry: Vec<u8>,
}

/// What stands at the front of a run of bytes.
enum Front {
    /// One whole character, of this many bytes.
    Whole(usize),
    /// The start of a character.
    Partial,
    /// Bytes that start no character.
    Broken,
}

proof fn lemma_range_2(b1: u8, b2: u8)
    by (bit_vector)
    requires
        is_leading_byte_width_2(b1),
        is_continuation_byte(b2),
    ensures
        0x80 <= codepoint_width_2(b1, b2) <==> b1 >= 0xc2,
        codepoint_width_2(b1, b2) < 0xd800,
{
}

proof fn lemma_range_3(b1: u8, b2: u8, b3: u8)
    by (bit_vector)
    requires
        is_leading_byte_width_3(b1),
        is_continuation_byte(b2),
        is_continuation_byte(b3),
    ensures
        0x800 <= codepoint_width_3(b1, b2, b3) <==> !(b1 == 0xe0 && b2 < 0xa0),
        0xd800 <= codepoint_width_3(b1, b2, b3) <= 0xdfff <==> b1 == 0xed && b2 >= 0xa0,
{
}

proof fn lemma_range_4(b1: u8, b2: u8, b3: u8, b4: u8)
    by (bit_vector)
    requires
        is_leading_byte_width_4(b1),
        is_continuation_byte(b2),
        is_continuation_byte(b3),
        is_continuation_byte(b4),
    ensures
        0x10000 <= codepoint_width_4(b1, b2, b3, b4) <= 0x10ffff <==> {
            ||| b1 == 0xf0 && b2 >= 0x90
            ||| 0xf1 <= b1 <= 0xf3
            ||| b1 == 0xf4 && b2 < 0x90
        },
        codepoint_width_4(b1, b2, b3, b4) >= 0x10000 ==> codepoint_width_4(b1, b2, b3, b4) > 0xdfff,
{
}

proof fn lemma_range_1(b1: u8)
    by (bit_vector)
    requires
        is_leading_byte_width_1(b1),
    ensures
        codepoint_width_1(b1) < 0x80,
{
}

/// Which second bytes may follow a lead byte.
spec fn second_fits(b1: u8, b2: u8) -> bool {
    &&& is_continuation_byte(b2)
    &&& b1 == 0xe0 ==> b2 >= 0xa0
    &&& b1 == 0xed ==> b2 < 0xa0
    &&& b1 == 0xf0 ==> b2 >= 0x90
    &&& b1 == 0xf4 ==> b2 < 0x90
}

/// How many bytes a character with this lead byte has; zero for no lead byte.
spec fn lead_width(b1: u8) -> int {
    if b1 <= 0x7f {
        1
    } else if 0xc2 <= b1 <= 0xdf {
        2
    } else if 0xe0 <= b1 <= 0xef {
        3
    } else if 0xf0 <= b1 <= 0xf4 {
        4
    } else {
        0
    }
}

/// The front of a run of bytes is one character, by its byte ranges.
spec fn ranges_fit(bytes: Seq<u8>) -> bool {
    let w = lead_width(bytes[0]);
    &&& bytes.len() >= w > 0
    &&& w >= 2 ==> second_fits(bytes[0], bytes[1])
    &&& w >= 3 ==> is_continuation_byte(bytes[2])
    &&& w >= 4 ==> is_continuation_byte(bytes[3])
}

proof fn lemma_ranges(bytes: Seq<u8>)
    requires
        bytes.len() > 0,
    ensures
        valid_first_scalar(bytes) <==> ranges_fit(bytes),
        ranges_fit(bytes) ==> length_of_first_scalar(bytes) == lead_width(bytes[0]),
{
    let b1 = bytes[0];
    if is_leading_byte_width_1(b1) {
        lemma_range_1(b1);
    } else if is_leading_byte_width_2(b1) {
        if bytes.len() >= 2 && is_continuation_byte(bytes[1]) {
            lemma_range_2(b1, bytes[1]);
        }
    } else if is_leading_byte_width_3(b1) {
        if bytes.len() >= 3 && is_continuation_byte(bytes[1]) && is_continuation_byte(bytes[2]) {
            lemma_range_3(b1, bytes[1], bytes[2]);
        }
    } else if is_leading_byte_width_4(b1) {
        if bytes.len() >= 4 && is_continuation_byte(bytes[1]) && is_continuation_byte(bytes[2])
            && is_continuation_byte(bytes[3]) {
            lemma_range_4(b1, bytes[1], bytes[2], bytes[3]);
        }
    }
}

/// The bytes so far fit their lead byte, and more are owed.
spec fn ranges_owe(bytes: Seq<u8>) -> bool {
    let w = lead_width(bytes[0]);
    &&& bytes.len() < w
    &&& bytes.len() >= 2 ==> second_fits(bytes[0], bytes[1])
    &&& bytes.len() >= 3 ==> is_continuation_byte(bytes[2])
}

proof fn lemma_owing_is_completable(bytes: Seq<u8>)
    requires
        bytes.len() > 0,
        !ranges_fit(bytes),
    ensures
        completable(bytes) <==> ranges_owe(bytes),
{
    if ranges_owe(bytes) {
        let b1 = bytes[0];
        let second = if b1 == 0xed || b1 == 0xf4 {
            0x80u8
        } else if b1 == 0xf0 || b1 == 0xe0 {
            0xbfu8
        } else {
            0x80u8
        };
        let tail = if bytes.len() == 1 {
            seq![second, 0x80u8, 0x80u8]
        } else {
            seq![0x80u8, 0x80u8]
        };
        lemma_ranges(bytes + tail);
        assert(valid_first_scalar(bytes + tail));
    } else {
        assert forall|tail: Seq<u8>| !valid_first_scalar(#[trigger] (bytes + tail)) by {
            lemma_ranges(bytes + tail);
            assert((bytes + tail)[0] == bytes[0]);
            if ranges_fit(bytes + tail) {
                assert forall|i: int| 0 <= i < bytes.len() implies (bytes + tail)[i] == bytes[i] by {}
            }
        }
    }
}

/// What stands in `bytes` from `at` on.
fn front(bytes: &[u8], at: usize) -> (f: Front)
    requires
        at < bytes@.len(),
    ensures
        ({
            let rest = bytes@.skip(at as int);
            match f {
                Front::Whole(w) => valid_first_scalar(rest) && w == length_of_first_scalar(rest)
                    && 0 < w <= rest.len(),
                Front::Partial => !valid_first_scalar(rest) && completable(rest),
                Front::Broken => !valid_first_scalar(rest) && !completable(rest),
            }
        }),
{
    let ghost rest = bytes@.skip(at as int);
    proof {
        lemma_ranges(rest);
        if !ranges_fit(rest) {
            lemma_owing_is_completable(rest);
        }
    }
    let n: usize = bytes.len() - at;
    let b1: u8 = bytes[at];
    assert(rest[0] == b1);
    let w: usize = if b1 <= 0x7f {
        1
    } else if 0xc2 <= b1 && b1 <= 0xdf {
        2
    } else if 0xe0 <= b1 && b1 <= 0xef {
        3
    } else if 0xf0 <= b1 && b1 <= 0xf4 {
        4
    } else {
        0
    };
    if w == 0 {
        return Front::Broken;
    }
    if w >= 2 && n >= 2 {
        let b2: u8 = bytes[at + 1];
        assert(rest[1] == b2);
        let fits = 0x80 <= b2 && b2 <= 0xbf && !(b1 == 0xe0 && b2 < 0xa0) && !(b1 == 0xed && b2
            >= 0xa0) && !(b1 == 0xf0 && b2 < 0x90) && !(b1 == 0xf4 && b2 >= 0x90);
        if !fits {
            return Front::Broken;
        }
    }
    if w >= 3 && n >= 3 {
        let b3: u8 = bytes[at + 2];
        assert(rest[2] == b3);
        if !(0x80 <= b3 && b3 <= 0xbf) {
            return Front::Broken;
        }
    }
    if w >= 4 && n >= 4 {
        let b4: u8 = bytes[at + 3];
        assert(rest[3] == b4);
        if !(0x80 <= b4 && b4 <= 0xbf) {
            return Front::Broken;
        }
    }
    if n < w {
        Front::Partial
    } else {
        Front::Whole(w)
    }
}

proof fn lemma_valid_len_bounds(bytes: Seq<u8>)
    ensures
        0 <= valid_len(bytes) <= bytes.len(),
        valid_utf8(bytes.take(valid_len(bytes))),
        ({
            let rest = bytes.skip(valid_len(bytes));
            rest.len() == 0 || !valid_first_scalar(rest)
        }),
    decreases bytes.len(),
{
    if bytes.len() == 0 || !valid_first_scalar(bytes) {
        assert(bytes.skip(0) =~= bytes);
        assert(bytes.take(0).len() == 0);
    } else {
        let w = length_of_first_scalar(bytes);
        let rest = pop_first_scalar(bytes);
        lemma_valid_len_bounds(rest);
        let n = valid_len(bytes);
        let head = bytes.take(n);
        lemma_ranges(bytes);
        lemma_ranges(head);
        assert(forall|i: int| 0 <= i < w ==> head[i] == bytes[i]);
        assert(pop_first_scalar(head) =~= rest.take(n - w));
        assert(bytes.skip(n) =~= rest.skip(n - w));
    }
}

/// The valid prefix grows scalar by scalar.
proof fn lemma_valid_len_extend(bytes: Seq<u8>, at: int)
    requires
        0 <= at <= bytes.len(),
        valid_len(bytes) == at + valid_len(bytes.skip(at)),
        at < bytes.len(),
        valid_first_scalar(bytes.skip(at)),
    ensures
        valid_len(bytes) == at + length_of_first_scalar(bytes.skip(at)) + valid_len(
            bytes.skip(at + length_of_first_scalar(bytes.skip(at))),
        ),
{
    let w = length_of_first_scalar(bytes.skip(at));
    lemma_ranges(bytes.skip(at));
    assert(pop_first_scalar(bytes.skip(at)) =~= bytes.skip(at + w));
}

/// The length of the longest prefix that is valid UTF-8.
fn valid_prefix(bytes: &[u8]) -> (n: usize)
    ensures
        n == valid_len(bytes@),
        n <= bytes@.len(),
        valid_utf8(bytes@.take(n as int)),
{
    let mut at: usize = 0;
    assert(bytes@.skip(0) =~= bytes@);
    proof {
        lemma_valid_len_bounds(bytes@);
    }
    while at < bytes.len()
        invariant
            at <= bytes@.len(),
            valid_len(bytes@) == at + valid_len(bytes@.skip(at as int)),
            valid_utf8(bytes@.take(valid_len(bytes@))),
        decreases bytes@.len() - at,
    {
        match front(bytes, at) {
            Front::Whole(w) => {
                proof {
                    lemma_valid_len_extend(bytes@, at as int);
                }
                at = at + w;
            },
            Front::Partial => {
                return at;
            },
            Front::Broken => {
                return at;
            },
        }
    }
    at
}

/// The text that a run of valid UTF-8 encodes.
pub fn decode(bytes: &[u8]) -> (text: String)
    requires
        valid_utf8(bytes@),
    ensures
        text@ == decode_utf8(bytes@),
{
    match core::str::from_utf8(bytes) {
        Ok(text) => {
            proof {
                encode_utf8_decode_utf8(text@);
            }
            text.to_owned()
        },
        Err(_) => {
            assert(false);
            String::new()
        },
    }
}

impl Reassembler {
    /// The text decoded since the last time it was taken.
    pub closed spec fn text(&self) -> Seq<char> {
        self.decoded@
    }

    /// The bytes held back for the rest of their character.
    pub closed spec fn held(&self) -> Seq<u8> {
        self.carry@
    }

    /// A reassembler that has seen nothing.
    pub fn new() -> (r: Self)
        ensures
            r.text() == Seq::<char>::empty(),
            r.held() == Seq::<u8>::empty(),
    {
        Reassembler { decoded: String::new(), carry: Vec::new() }
    }

    /// Decode `chunk`, appending complete characters to the decoded text and
    /// carrying an incomplete trailing one into the next push. Fails when what
    /// is then held back can never become a character.
    pub fn push(&mut self, chunk: &[u8]) -> (r: Result<(), InvalidUtf8>)
        ensures
            final(self).text() == decoded_after(old(self).text(), old(self).held(), chunk@),
            final(self).held() == carried_after(old(self).held(), chunk@),
            r is Ok <==> may_continue(final(self).held()),
    {
        let mut all: Vec<u8> = Vec::new();
        std::mem::swap(&mut all, &mut self.carry);
        let ghost before = all@;
        all.extend_from_slice(chunk);
        assert(all@ =~= before + chunk@);
        let n: usize = valid_prefix(all.as_slice());
        let head = decode(slice_subrange(all.as_slice(), 0, n));
        assert(all@.subrange(0, n as int) =~= all@.take(n as int));
        self.decoded.append(head.as_str());
        let rest: Vec<u8> = all.split_off(n);
        assert(rest@ =~= carried_after(before, chunk@));
        proof {
            lemma_valid_len_bounds(before + chunk@);
        }
        let ok = if rest.len() == 0 {
            true
        } else {
            assert(rest@.skip(0) =~= rest@);
            match front(rest.as_slice(), 0) {
                Front::Partial => true,
                Front::Whole(_) => false,
                Front::Broken => false,
            }
        };
        self.carry = rest;
        if ok {
            Ok(())
        } else {
            Err(InvalidUtf8)
        }
    }

    /// The text decoded so far, complete characters only.
    pub fn decoded(&self) -> (text: &str)
        ensures
            text@ == self.text(),
    {
        self.decoded.as_str()
    }

    /// Take the decoded text, keeping any carried partial character.
    pub fn take_decoded(&mut self) -> (text: String)
        ensures
            text@ == old(self).text(),
            final(self).text() == Seq::<char>::empty(),
            final(self).held() == old(self).held(),
    {
        let mut text = String::new();
        std::mem::swap(&mut text, &mut self.decoded);
        text
    }

    /// How many bytes are held back for the rest of their character. Above zero
    /// at the end of a stream, the stream ended inside one.
    pub fn pending(&self) -> (n: usize)
        ensures
            n == self.held().len(),
    {
        self.carry.len()
    }
}

/// The valid prefix of a longer stream is the valid prefix of its start,
/// followed by the valid prefix of what that start held back and the rest.
proof fn lemma_valid_len_add(a: Seq<u8>, b: Seq<u8>)
    ensures
        valid_len(a + b) == valid_len(a) + valid_len(a.skip(valid_len(a)) + b),
    decreases a.len(),
{
    if a.len() == 0 || !valid_first_scalar(a) {
        assert(a.skip(0) =~= a);
    } else {
        let w = length_of_first_scalar(a);
        lemma_ranges(a);
        lemma_ranges(a + b);
        assert(forall|i: int| 0 <= i < a.len() ==> (a + b)[i] == a[i]);
        assert(pop_first_scalar(a + b) =~= pop_first_scalar(a) + b);
        lemma_valid_len_add(pop_first_scalar(a), b);
        lemma_valid_len_bounds(pop_first_scalar(a));
        assert(pop_first_scalar(a).skip(valid_len(pop_first_scalar(a))) =~= a.skip(valid_len(a)));
    }
}

/// Decoding two valid runs one after the other is decoding them together.
pub proof fn lemma_decode_add(a: Seq<u8>, b: Seq<u8>)
    requires
        valid_utf8(a),
        valid_utf8(b),
    ensures
        valid_utf8(a + b),
        decode_utf8(a + b) == decode_utf8(a) + decode_utf8(b),
    decreases a.len(),
{
    if a.len() == 0 {
        assert(a + b =~= b);
        assert(decode_utf8(a) + decode_utf8(b) =~= decode_utf8(b));
    } else {
        lemma_ranges(a);
        lemma_ranges(a + b);
        assert(forall|i: int| 0 <= i < a.len() ==> (a + b)[i] == a[i]);
        assert(pop_first_scalar(a + b) =~= pop_first_scalar(a) + b);
        lemma_decode_add(pop_first_scalar(a), b);
        let first = seq![decode_first_scalar(a) as char];
        assert(first + (decode_utf8(pop_first_scalar(a)) + decode_utf8(b)) =~= (first + decode_utf8(
            pop_first_scalar(a),
        )) + decode_utf8(b));
    }
}

/// Where a stream is cut into chunks does not matter: pushing two chunks one
/// after the other leaves the text and the held-back bytes that pushing them
/// as one would.
pub proof fn law_chunk_boundaries_are_immaterial(
    decoded: Seq<char>,
    carry: Seq<u8>,
    a: Seq<u8>,
    b: Seq<u8>,
)
    ensures
        decoded_after(decoded_after(decoded, carry, a), carried_after(carry, a), b)
            == decoded_after(decoded, carry, a + b),
        carried_after(carried_after(carry, a), b) == carried_after(carry, a + b),
{
    let x = carry + a;
    let held = carried_after(carry, a);
    let n = valid_len(x);
    let m = valid_len(held + b);
    lemma_valid_len_add(x, b);
    lemma_valid_len_bounds(x);
    lemma_valid_len_bounds(held + b);
    assert(carry + (a + b) =~= x + b);
    assert((x + b).take(n + m) =~= x.take(n) + (held + b).take(m));
    lemma_decode_add(x.take(n), (held + b).take(m));
    assert((decoded + decode_utf8(x.take(n))) + decode_utf8((held + b).take(m)) =~= decoded + (
    decode_utf8(x.take(n)) + decode_utf8((held + b).take(m))));
    assert((x + b).skip(n + m) =~= (held + b).skip(m));
}

/// No byte is lost or repeated: the decoded text, encoded, and the held-back
/// bytes are the bytes before, with the chunk appended.
pub proof fn law_no_byte_is_lost(decoded: Seq<char>, carry: Seq<u8>, chunk: Seq<u8>)
    ensures
        encode_utf8(decoded_after(decoded, carry, chunk)) + carried_after(carry, chunk)
            == encode_utf8(decoded) + carry + chunk,
{
    let all = carry + chunk;
    let n = valid_len(all);
    lemma_valid_len_bounds(all);
    let text = decode_utf8(all.take(n));
    decode_utf8_encode_utf8(all.take(n));
    lemma_encode_add(decoded, text);
    assert(encode_utf8(decoded) + all.take(n) + all.skip(n) =~= encode_utf8(decoded) + carry
        + chunk);
}

/// Encoding two texts one after the other is encoding them together.
pub proof fn lemma_encode_add(a: Seq<char>, b: Seq<char>)
    ensures
        encode_utf8(a + b) == encode_utf8(a) + encode_utf8(b),
    decreases a.len(),
{
    if a.len() == 0 {
        assert(a + b =~= b);
        assert(encode_utf8(a) + encode_utf8(b) =~= encode_utf8(b));
    } else {
        assert((a + b).drop_first() =~= a.drop_first() + b);
        lemma_encode_add(a.drop_first(), b);
        assert(encode_scalar(a[0] as u32) + (encode_utf8(a.drop_first()) + encode_utf8(b))
            =~= encode_scalar(a[0] as u32) + encode_utf8(a.drop_first()) + encode_utf8(b));
    }
}

/// Bytes that can never become a character stay reported: no later chunk
/// decodes anything more or makes a push succeed again.
pub proof fn law_invalid_bytes_are_never_forgotten(
    decoded: Seq<char>,
    carry: Seq<u8>,
    chunk: Seq<u8>,
)
    requires
        carry.len() > 0,
        !valid_first_scalar(carry),
        !may_continue(carry),
    ensures
        decoded_after(decoded, carry, chunk) == decoded,
        carried_after(carry, chunk) == carry + chunk,
        !may_continue(carried_after(carry, chunk)),
{
    assert(!valid_first_scalar(carry + chunk));
    assert((carry + chunk).take(0) =~= Seq::empty());
    assert(decoded + decode_utf8(Seq::<u8>::empty()) =~= decoded);
    assert((carry + chunk).skip(0) =~= carry + chunk);
    assert forall|tail: Seq<u8>| !valid_first_scalar(#[trigger] ((carry + chunk) + tail)) by {
        assert((carry + chunk) + tail =~= carry + (chunk + tail));
    }
}

/// Everything that is whole is decoded: what is held back begins no whole
/// character, and where all that came is whole nothing is held back.
pub proof fn law_whole_characters_are_never_held_back(
    decoded: Seq<char>,
    carry: Seq<u8>,
    chunk: Seq<u8>,
)
    ensures
        carried_after(carry, chunk).len() > 0 ==> !valid_first_scalar(carried_after(carry, chunk)),
        valid_utf8(carry + chunk) ==> carried_after(carry, chunk).len() == 0 && decoded_after(
            decoded,
            carry,
            chunk,
        ) == decoded + decode_utf8(carry + chunk),
{
    let all = carry + chunk;
    lemma_valid_len_bounds(all);
    if valid_utf8(all) {
        lemma_all_valid(all);
        assert(all.take(all.len() as int) =~= all);
        assert(all.skip(all.len() as int).len() == 0);
    }
}

proof fn lemma_all_valid(bytes: Seq<u8>)
    requires
        valid_utf8(bytes),
    ensures
        valid_len(bytes) == bytes.len(),
    decreases bytes.len(),
{
    if bytes.len() > 0 {
        lemma_all_valid(pop_first_scalar(bytes));
    }
}

/// Held-back bytes are an error exactly when no bytes behind them could make a
/// character of them.
pub proof fn law_only_hopeless_bytes_are_an_error(carry: Seq<u8>)
    ensures
        !may_continue(carry) <==> carry.len() > 0 && forall|tail: Seq<u8>|
            !valid_first_scalar(#[trigger] (carry + tail)),
{
}

} // verus!
