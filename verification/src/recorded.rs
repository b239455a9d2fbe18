//! Byte-for-byte verification against a plan. The first divergence is reported
//! at its offset, and comparing stops there: past a divergence there is no
//! alignment to compare against. How much arrives is still counted.
use vstd::prelude::*;
use vstd::string::*;

use crate::text::{decimal, hex, push_hex, push_u64, push_usize};
use crate::verify::common_len;

verus! {

/// Where a comparison stands.
pub struct Matching {
    /// How many bytes matched.
    pub matched: nat,
    /// How many bytes arrived.
    pub arrived: nat,
    /// The first divergence, in words.
    pub divergence: Option<Seq<char>>,
}

/// What is said of bytes beyond the plan.
pub open spec fn beyond_text(expected: Seq<u8>, arrived: nat, at_ns: nat) -> Seq<char> {
    decimal((arrived - expected.len()) as nat) + " bytes arrived beyond the "@ + decimal(
        expected.len(),
    ) + "-byte plan at "@ + decimal(at_ns / 1_000_000) + " ms into the run"@
}

/// What is said of a byte that differs.
pub open spec fn differs_text(expected: Seq<u8>, matched: nat, got: u8, at_ns: nat) -> Seq<char> {
    "byte "@ + decimal(matched) + " differs at "@ + decimal(at_ns / 1_000_000)
        + " ms into the run: expected 0x"@ + hex(expected[matched as int] as nat, 2, false)
        + ", got 0x"@ + hex(got as nat, 2, false)
}

/// The comparison after a chunk.
pub open spec fn after_chunk(
    expected: Seq<u8>,
    m: Matching,
    chunk: Seq<u8>,
    at_ns: nat,
) -> Matching {
    let arrived = m.arrived + chunk.len();
    if m.divergence is Some {
        Matching { arrived, ..m }
    } else {
        let k = common_len(expected.skip(m.matched as int), chunk);
        let matched = m.matched + k;
        if k == chunk.len() {
            Matching { matched, arrived, divergence: None }
        } else if matched >= expected.len() {
            Matching {
                matched,
                arrived,
                divergence: Some(beyond_text(expected, arrived, at_ns)),
            }
        } else {
            Matching {
                matched,
                arrived,
                divergence: Some(differs_text(expected, matched, chunk[k as int], at_ns)),
            }
        }
    }
}

/// Compares what arrives with what was planned.
pub struct RecordedVerifier {
    expected: Vec<u8>,
    matched: usize,
    arrived: u64,
    divergence: Option<String>,
}

/// What the comparison came to.
#[derive(Debug)]
pub struct RecordedFindings {
    pub expected: u64,
    pub matched: u64,
    pub arrived: u64,
    pub divergence: Option<String>,
}

impl RecordedFindings {
    /// Whether everything arrived, and nothing else.
    pub fn clean(&self) -> (clean: bool)
        ensures
            clean == (self.divergence is None && self.matched == self.expected),
    {
        self.divergence.is_none() && self.matched == self.expected
    }
}

impl RecordedVerifier {
    /// What was planned.
    pub closed spec fn planned(&self) -> Seq<u8> {
        self.expected@
    }

    /// Where the comparison stands.
    pub closed spec fn matching(&self) -> Matching {
        Matching {
            matched: self.matched as nat,
            arrived: self.arrived as nat,
            divergence: crate::report::optional_text(self.divergence),
        }
    }

    /// What every comparison keeps.
    pub open spec fn wf(&self) -> bool {
        let m = self.matching();
        &&& m.matched <= self.planned().len()
        &&& m.matched <= m.arrived <= u64::MAX
    }

    /// A comparison with `expected` that has seen nothing.
    pub fn new(expected: Vec<u8>) -> (v: Self)
        ensures
            v.wf(),
            v.planned() == expected@,
            v.matching() == (Matching { matched: 0, arrived: 0, divergence: None }),
    {
        RecordedVerifier { expected, matched: 0, arrived: 0, divergence: None }
    }

    /// Whether the whole plan has arrived intact.
    pub fn complete(&self) -> (complete: bool)
        ensures
            complete == (self.matching().divergence is None && self.matching().matched
                == self.planned().len()),
    {
        self.divergence.is_none() && self.matched == self.expected.len()
    }

    /// Compare one chunk that arrived `at_ns` into the run.
    pub fn feed(&mut self, chunk: &[u8], at_ns: u64)
        requires
            old(self).wf(),
            old(self).matching().arrived + chunk@.len() <= u64::MAX,
        ensures
            final(self).wf(),
            final(self).planned() == old(self).planned(),
            final(self).matching() == after_chunk(
                old(self).planned(),
                old(self).matching(),
                chunk@,
                at_ns as nat,
            ),
    {
        let ghost start = self.matched as int;
        let ghost expected = self.expected@;
        self.arrived = self.arrived + chunk.len() as u64;
        if self.divergence.is_some() {
            return ;
        }
        let mut i: usize = 0;
        proof {
            assert(chunk@.skip(0) =~= chunk@);
        }
        while i < chunk.len()
            invariant
                i <= chunk@.len(),
                self.expected@ == expected,
                self.matched == start + i,
                self.matched <= expected.len(),
                self.divergence is None,
                self.arrived == old(self).matching().arrived + chunk@.len(),
                old(self).matching().matched == start,
                old(self).matching().divergence is None,
                old(self).planned() == expected,
                start <= old(self).matching().arrived,
                common_len(expected.skip(start), chunk@) == i + common_len(
                    expected.skip(start + i),
                    chunk@.skip(i as int),
                ),
            decreases chunk@.len() - i,
        {
            let byte: u8 = chunk[i];
            let ghost e = expected.skip(start + i);
            let ghost c = chunk@.skip(i as int);
            assert(c[0] == byte);
            if self.matched >= self.expected.len() {
                let mut text = String::new();
                push_u64(&mut text, self.arrived - self.expected.len() as u64);
                text.append(" bytes arrived beyond the ");
                push_usize(&mut text, self.expected.len());
                text.append("-byte plan at ");
                push_u64(&mut text, at_ns / 1_000_000);
                text.append(" ms into the run");
                assert(text@ =~= beyond_text(expected, self.arrived as nat, at_ns as nat));
                self.divergence = Some(text);
                return ;
            }
            assert(e[0] == expected[start + i]);
            if byte != self.expected[self.matched] {
                let mut text = "byte ".to_owned();
                push_usize(&mut text, self.matched);
                text.append(" differs at ");
                push_u64(&mut text, at_ns / 1_000_000);
                text.append(" ms into the run: expected 0x");
                push_hex(&mut text, self.expected[self.matched] as u64, 2, false);
                text.append(", got 0x");
                push_hex(&mut text, byte as u64, 2, false);
                self.divergence = Some(text);
                return ;
            }
            proof {
                assert(e.drop_first() =~= expected.skip(start + i + 1));
                assert(c.drop_first() =~= chunk@.skip(i + 1));
            }
            self.matched = self.matched + 1;
            i += 1;
        }
    }

    /// What the comparison came to.
    pub fn finish(self) -> (f: RecordedFindings)
        ensures
            f.expected == self.planned().len(),
            f.matched == self.matching().matched,
            f.arrived == self.matching().arrived,
            crate::report::optional_text(f.divergence) == self.matching().divergence,
    {
        RecordedFindings {
            expected: self.expected.len() as u64,
            matched: self.matched as u64,
            arrived: self.arrived,
            divergence: self.divergence,
        }
    }
}

/// The comparison after a run of chunks, each with its time into the run.
pub open spec fn after_chunks(
    expected: Seq<u8>,
    m: Matching,
    chunks: Seq<(Seq<u8>, nat)>,
) -> Matching
    decreases chunks.len(),
{
    if chunks.len() == 0 {
        m
    } else {
        after_chunk(
            expected,
            after_chunks(expected, m, chunks.drop_last()),
            chunks.last().0,
            chunks.last().1,
        )
    }
}

/// What a run of chunks amounts to as one stream.
pub open spec fn stream_of(chunks: Seq<(Seq<u8>, nat)>) -> Seq<u8>
    decreases chunks.len(),
{
    if chunks.len() == 0 {
        Seq::empty()
    } else {
        stream_of(chunks.drop_last()) + chunks.last().0
    }
}

/// A comparison that has seen nothing.
pub open spec fn unstarted() -> Matching {
    Matching { matched: 0, arrived: 0, divergence: None }
}

/// However the stream is cut into chunks, the comparison matches exactly the
/// longest prefix that the stream shares with the plan, counts every byte, and
/// reports a divergence exactly when the stream leaves the plan.
pub proof fn law_matching_is_the_common_prefix(expected: Seq<u8>, chunks: Seq<(Seq<u8>, nat)>)
    ensures
        ({
            let m = after_chunks(expected, unstarted(), chunks);
            let stream = stream_of(chunks);
            &&& m.matched == common_len(expected, stream)
            &&& m.arrived == stream.len()
            &&& m.divergence is Some <==> m.matched < stream.len()
        }),
    decreases chunks.len(),
{
    if chunks.len() == 0 {
    } else {
        let earlier = chunks.drop_last();
        let last = chunks.last().0;
        law_matching_is_the_common_prefix(expected, earlier);
        let before = after_chunks(expected, unstarted(), earlier);
        let s = stream_of(earlier);
        lemma_common_bounds(expected, s);
        lemma_common_bounds(expected.skip(before.matched as int), last);
        if before.divergence is Some {
            lemma_common_stays(expected, s, last);
        } else {
            lemma_common_add(expected, s, last);
        }
    }
}

/// A run is complete exactly when what arrived is the plan, byte for byte.
pub proof fn law_complete_means_identical(expected: Seq<u8>, chunks: Seq<(Seq<u8>, nat)>)
    ensures
        ({
            let m = after_chunks(expected, unstarted(), chunks);
            (m.divergence is None && m.matched == expected.len()) <==> stream_of(chunks)
                == expected
        }),
{
    law_matching_is_the_common_prefix(expected, chunks);
    let s = stream_of(chunks);
    lemma_common_bounds(expected, s);
    if common_len(expected, s) == expected.len() && s.len() == expected.len() {
        assert(s =~= expected);
    }
    if s == expected {
        lemma_common_self(s);
    }
}

proof fn lemma_common_bounds(a: Seq<u8>, b: Seq<u8>)
    ensures
        common_len(a, b) <= a.len(),
        common_len(a, b) <= b.len(),
        forall|i: int| 0 <= i < common_len(a, b) ==> a[i] == b[i],
        common_len(a, b) < a.len() && common_len(a, b) < b.len() ==> a[common_len(a, b) as int]
            != b[common_len(a, b) as int],
    decreases a.len(),
{
    if a.len() > 0 && b.len() > 0 && a[0] == b[0] {
        let x = a.drop_first();
        let y = b.drop_first();
        lemma_common_bounds(x, y);
        assert forall|i: int| 0 <= i < common_len(a, b) implies a[i] == b[i] by {
            if i > 0 {
                assert(x[i - 1] == y[i - 1]);
            }
        }
    }
}

proof fn lemma_common_self(a: Seq<u8>)
    ensures
        common_len(a, a) == a.len(),
    decreases a.len(),
{
    if a.len() > 0 {
        lemma_common_self(a.drop_first());
    }
}

/// Once a stream has left the plan, more of it does not come back.
proof fn lemma_common_stays(a: Seq<u8>, s: Seq<u8>, more: Seq<u8>)
    requires
        common_len(a, s) < s.len(),
    ensures
        common_len(a, s + more) == common_len(a, s),
    decreases a.len(),
{
    if a.len() > 0 && s.len() > 0 && a[0] == s[0] {
        assert((s + more).drop_first() =~= s.drop_first() + more);
        lemma_common_stays(a.drop_first(), s.drop_first(), more);
    }
}

/// A stream that has kept to the plan goes on where it stands.
proof fn lemma_common_add(a: Seq<u8>, s: Seq<u8>, more: Seq<u8>)
    requires
        common_len(a, s) == s.len(),
    ensures
        common_len(a, s + more) == s.len() + common_len(a.skip(s.len() as int), more),
    decreases s.len(),
{
    if s.len() == 0 {
        assert(s + more =~= more);
        assert(a.skip(0) =~= a);
    } else {
        lemma_common_bounds(a, s);
        assert((s + more).drop_first() =~= s.drop_first() + more);
        lemma_common_add(a.drop_first(), s.drop_first(), more);
        assert(a.drop_first().skip(s.len() - 1) =~= a.skip(s.len() as int));
    }
}

/// The first byte that leaves the plan is named with its place and both values,
/// and what came before it is what matched.
pub proof fn law_the_first_divergence_is_named(
    expected: Seq<u8>,
    m: Matching,
    chunk: Seq<u8>,
    at_ns: nat,
    k: int,
)
    requires
        m.divergence is None,
        0 <= k < chunk.len(),
        m.matched + k < expected.len(),
        forall|j: int| 0 <= j < k ==> expected[m.matched + j] == #[trigger] chunk[j],
        expected[m.matched + k] != chunk[k],
    ensures
        ({
            let after = after_chunk(expected, m, chunk, at_ns);
            &&& after.matched == m.matched + k
            &&& after.arrived == m.arrived + chunk.len()
            &&& after.divergence == Some(
                "byte "@ + decimal((m.matched + k) as nat) + " differs at "@ + decimal(
                    at_ns / 1_000_000,
                ) + " ms into the run: expected 0x"@ + hex(
                    expected[m.matched + k] as nat,
                    2,
                    false,
                ) + ", got 0x"@ + hex(chunk[k] as nat, 2, false),
            )
        }),
{
    let rest = expected.skip(m.matched as int);
    lemma_common_bounds(rest, chunk);
    let c = common_len(rest, chunk) as int;
    assert(rest[k] == expected[m.matched + k]);
    if c < k {
        assert(rest[c] == expected[m.matched + c]);
        assert(chunk[c] == chunk[c]);
    }
    assert(c == k);
}

/// Bytes past the end of the plan are counted and named, and none of them matches.
pub proof fn law_bytes_beyond_the_plan_are_named(
    expected: Seq<u8>,
    m: Matching,
    chunk: Seq<u8>,
    at_ns: nat,
)
    requires
        m.divergence is None,
        m.matched <= expected.len(),
        m.matched <= m.arrived,
        expected.skip(m.matched as int).len() < chunk.len(),
        forall|j: int|
            0 <= j < expected.len() - m.matched ==> expected[m.matched + j] == #[trigger] chunk[j],
    ensures
        ({
            let after = after_chunk(expected, m, chunk, at_ns);
            &&& after.matched == expected.len()
            &&& after.arrived == m.arrived + chunk.len()
            &&& after.divergence == Some(
                decimal((m.arrived + chunk.len() - expected.len()) as nat)
                    + " bytes arrived beyond the "@ + decimal(expected.len()) + "-byte plan at "@
                    + decimal(at_ns / 1_000_000) + " ms into the run"@,
            )
        }),
{
    let rest = expected.skip(m.matched as int);
    lemma_common_bounds(rest, chunk);
    let c = common_len(rest, chunk) as int;
    if c < rest.len() {
        assert(rest[c] == expected[m.matched + c]);
        assert(chunk[c] == chunk[c]);
    }
}

/// Once a stream has left the plan nothing more is compared, and what arrives is
/// still counted.
pub proof fn law_a_divergence_is_final(
    expected: Seq<u8>,
    m: Matching,
    chunk: Seq<u8>,
    at_ns: nat,
)
    requires
        m.divergence is Some,
    ensures
        after_chunk(expected, m, chunk, at_ns).divergence == m.divergence,
        after_chunk(expected, m, chunk, at_ns).matched == m.matched,
        after_chunk(expected, m, chunk, at_ns).arrived == m.arrived + chunk.len(),
{
}

/// A comparison is complete exactly when all of the plan matched and nothing
/// differed, and what it then comes to is clean.
pub proof fn law_only_the_whole_plan_is_clean(
    verifier: RecordedVerifier,
    complete: bool,
    found: RecordedFindings,
    clean: bool,
)
    requires
        call_ensures(RecordedVerifier::complete, (&verifier,), complete),
        call_ensures(RecordedVerifier::finish, (verifier,), found),
        call_ensures(RecordedFindings::clean, (&found,), clean),
    ensures
        complete == clean,
        clean <==> found.divergence is None && found.matched == verifier.planned().len(),
        found.expected == verifier.planned().len(),
        found.divergence is None <==> verifier.matching().divergence is None,
{
}

} // verus!
