//! What the probe process is holding, sampled over the life of a run, and the
//! growth assessed over the series. A run's start is left out of it:
//! a process climbs while it starts up, and none of that is a leak.
use vstd::prelude::*;
use vstd::slice::slice_subrange;
use vstd::string::*;

use crate::text::{
    all_space, chars_of, debug, debug_text, decimal, is_digit, is_space, is_white,
    law_decimal_reads_back, lemma_decimal_digits, number_value, parse_number, trimmed_start,
};

verus! {

/// One reading of the probe process's resource use.
#[derive(Clone, Copy, Debug, PartialEq, Eq, Structural)]
pub struct Sample {
    /// Nanoseconds since the monitor started.
    pub t_ns: u64,
    /// Open file descriptors (POSIX) or open kernel handles (Windows).
    pub descriptors: u64,
    pub rss_bytes: u64,
}

/// How often to sample when a lane does not say otherwise, in nanoseconds.
pub const DEFAULT_INTERVAL: u128 = 10_000_000_000;

/// How much of a run's start to leave out of the assessment, in nanoseconds.
pub const DEFAULT_WARMUP: u128 = 60_000_000_000;

/// How much above its steady-state baseline a run may end.
pub const RSS_GROWTH_BUDGET_BYTES: u64 = 10_485_760;

/// The growth verdict over a series.
#[derive(Clone, Copy, Debug, PartialEq, Eq, Structural)]
pub struct Assessment {
    pub samples: usize,
    /// Index of the sample that growth is measured from.
    pub baseline_index: usize,
    pub baseline_descriptors: u64,
    pub final_descriptors: u64,
    pub descriptor_delta: i64,
    pub baseline_rss_bytes: u64,
    pub final_rss_bytes: u64,
    pub rss_growth_bytes: i64,
    /// Highest resident reading anywhere from the baseline on.
    pub peak_rss_bytes: u64,
    pub descriptors_leaked: bool,
    pub rss_over_budget: bool,
}

/// A count as a signed number, capped.
pub open spec fn signed(n: u64) -> int {
    if n > i64::MAX {
        i64::MAX as int
    } else {
        n as int
    }
}

/// The highest resident reading of a series.
pub open spec fn peak(samples: Seq<Sample>) -> u64
    decreases samples.len(),
{
    if samples.len() == 0 {
        0
    } else {
        let earlier = peak(samples.drop_last());
        if samples.last().rss_bytes > earlier {
            samples.last().rss_bytes
        } else {
            earlier
        }
    }
}

/// Whether `i` is the first sample at or after the warm-up window.
pub open spec fn is_baseline(samples: Seq<Sample>, warmup_ns: u128, i: int) -> bool {
    &&& 0 <= i < samples.len()
    &&& samples[i].t_ns >= warmup_ns
    &&& forall|j: int| 0 <= j < i ==> (#[trigger] samples[j]).t_ns < warmup_ns
}

/// The assessment of a series whose growth is measured from sample `i`.
pub open spec fn assessment_from(samples: Seq<Sample>, i: int) -> Assessment {
    let baseline = samples[i];
    let last = samples.last();
    let descriptors = signed(last.descriptors) - signed(baseline.descriptors);
    let rss = signed(last.rss_bytes) - signed(baseline.rss_bytes);
    Assessment {
        samples: samples.len() as usize,
        baseline_index: i as usize,
        baseline_descriptors: baseline.descriptors,
        final_descriptors: last.descriptors,
        descriptor_delta: descriptors as i64,
        baseline_rss_bytes: baseline.rss_bytes,
        final_rss_bytes: last.rss_bytes,
        rss_growth_bytes: rss as i64,
        peak_rss_bytes: peak(samples.skip(i)),
        descriptors_leaked: descriptors > 0,
        rss_over_budget: rss > RSS_GROWTH_BUDGET_BYTES,
    }
}

impl Assessment {
    /// Whether neither budget was broken.
    pub fn within_budget(&self) -> (within: bool)
        ensures
            within == (!self.descriptors_leaked && !self.rss_over_budget),
    {
        !self.descriptors_leaked && !self.rss_over_budget
    }
}

fn signed_count(n: u64) -> (s: i64)
    ensures
        s == signed(n),
        s >= 0,
{
    if n > i64::MAX as u64 {
        i64::MAX
    } else {
        n as i64
    }
}

/// Assess a series against the budgets, leaving out the warm-up window. `None`
/// where the window leaves no two samples to compare.
pub fn assess(samples: &[Sample], warmup_ns: u128) -> (verdict: Option<Assessment>)
    ensures
        match verdict {
            Some(a) => exists|i: int| #[trigger]
                is_baseline(samples@, warmup_ns, i) && i + 1 < samples@.len() && a
                    == assessment_from(samples@, i),
            None => forall|i: int| #[trigger]
                is_baseline(samples@, warmup_ns, i) ==> i + 1 == samples@.len(),
        },
{
    let n: usize = samples.len();
    let mut b: usize = 0;
    while b < n && (samples[b].t_ns as u128) < warmup_ns
        invariant
            b <= n == samples@.len(),
            forall|j: int| 0 <= j < b ==> (#[trigger] samples@[j]).t_ns < warmup_ns,
        decreases n - b,
    {
        b += 1;
    }
    if b >= n {
        return None;
    }
    assert(is_baseline(samples@, warmup_ns, b as int));
    if b == n - 1 {
        return None;
    }
    let baseline = samples[b];
    let last = samples[n - 1];
    let mut highest: u64 = 0;
    let mut k: usize = b;
    while k < n
        invariant
            b <= k <= n == samples@.len(),
            highest == peak(samples@.skip(b as int).take(k - b)),
        decreases n - k,
    {
        proof {
            let tail = samples@.skip(b as int);
            assert(tail.take(k - b + 1).drop_last() =~= tail.take(k - b));
        }
        if samples[k].rss_bytes > highest {
            highest = samples[k].rss_bytes;
        }
        k += 1;
    }
    assert(samples@.skip(b as int).take(n - b) =~= samples@.skip(b as int));
    let descriptor_delta: i64 = signed_count(last.descriptors) - signed_count(baseline.descriptors);
    let rss_growth_bytes: i64 = signed_count(last.rss_bytes) - signed_count(baseline.rss_bytes);
    Some(
        Assessment {
            samples: n,
            baseline_index: b,
            baseline_descriptors: baseline.descriptors,
            final_descriptors: last.descriptors,
            descriptor_delta,
            baseline_rss_bytes: baseline.rss_bytes,
            final_rss_bytes: last.rss_bytes,
            rss_growth_bytes,
            peak_rss_bytes: highest,
            descriptors_leaked: descriptor_delta > 0,
            rss_over_budget: rss_growth_bytes > RSS_GROWTH_BUDGET_BYTES as i64,
        },
    )
}

/// The word that a platform's count deserves in a report.
pub open spec fn descriptor_noun_text(handles: bool) -> Seq<char> {
    if handles {
        "open handles"@
    } else {
        "open file descriptors"@
    }
}

/// The word that a platform's count deserves in a report: kernel handles are
/// not file descriptors.
pub fn descriptor_noun(handles: bool) -> (noun: &'static str)
    ensures
        noun@ == descriptor_noun_text(handles),
{
    if handles {
        "open handles"
    } else {
        "open file descriptors"
    }
}

/// The peak is never below the baseline or the last reading, so a spike that
/// was released still shows, and growth never exceeds it.
pub proof fn law_the_peak_bounds_both_ends(samples: Seq<Sample>, i: int)
    requires
        0 <= i < samples.len(),
    ensures
        assessment_from(samples, i).peak_rss_bytes >= assessment_from(
            samples,
            i,
        ).baseline_rss_bytes,
        assessment_from(samples, i).peak_rss_bytes >= assessment_from(samples, i).final_rss_bytes,
        forall|k: int|
            i <= k < samples.len() ==> assessment_from(samples, i).peak_rss_bytes
                >= #[trigger] samples[k].rss_bytes,
{
    let tail = samples.skip(i);
    lemma_peak_bounds(tail);
    assert(tail[0] == samples[i]);
    assert(tail[tail.len() - 1] == samples.last());
    assert forall|k: int| i <= k < samples.len() implies peak(tail)
        >= #[trigger] samples[k].rss_bytes by {
        assert(tail[k - i] == samples[k]);
    }
}

proof fn lemma_peak_bounds(s: Seq<Sample>)
    ensures
        forall|k: int| 0 <= k < s.len() ==> peak(s) >= (#[trigger] s[k]).rss_bytes,
    decreases s.len(),
{
    if s.len() > 0 {
        lemma_peak_bounds(s.drop_last());
        assert forall|k: int| 0 <= k < s.len() implies peak(s) >= (#[trigger] s[k]).rss_bytes by {
            if k < s.len() - 1 {
                assert(s.drop_last()[k] == s[k]);
            }
        }
    }
}

/// What happens inside the warm-up window has no part in the assessment: two
/// series that agree from the baseline on are judged alike, but for where in
/// the series that baseline stands.
pub proof fn law_the_warm_up_window_is_ignored(a: Seq<Sample>, i: int, b: Seq<Sample>, j: int)
    requires
        0 <= i < a.len(),
        0 <= j < b.len(),
        a.skip(i) == b.skip(j),
    ensures
        ({
            let x = assessment_from(a, i);
            let y = assessment_from(b, j);
            x == Assessment { samples: x.samples, baseline_index: x.baseline_index, ..y }
        }),
{
    assert(a.skip(i)[0] == a[i]);
    assert(b.skip(j)[0] == b[j]);
    assert(a.skip(i).last() == a.last());
    assert(b.skip(j).last() == b.last());
}

/// The index of the first white space of a text, or its length.
pub open spec fn word_end(s: Seq<char>) -> int
    decreases s.len(),
{
    if s.len() == 0 || is_space(s[0]) {
        0
    } else {
        1 + word_end(s.drop_first())
    }
}

/// The `n`-th word of a text, counted from zero: a run without white space.
pub open spec fn word(s: Seq<char>, n: nat) -> Option<Seq<char>>
    decreases n,
{
    let t = trimmed_start(s);
    if t.len() == 0 {
        None
    } else if n == 0 {
        Some(t.take(word_end(t)))
    } else {
        word(t.skip(word_end(t)), (n - 1) as nat)
    }
}

/// The resident pages that a process's memory statistics give.
pub open spec fn pages_in(statm: Seq<char>) -> Result<u64, Seq<char>> {
    match word(statm, 1) {
        None => Err("/proc/self/statm: no resident field in "@ + debug_text(statm)),
        Some(field) => match number_value(field, u64::MAX as nat) {
            Ok(pages) => Ok(pages as u64),
            Err(fault) => Err("/proc/self/statm: unreadable resident field: "@ + fault.words()),
        },
    }
}

/// The index of the first white space from `from` on, or the length.
fn find_space(chars: &Vec<char>, from: usize) -> (at: usize)
    requires
        from <= chars@.len(),
    ensures
        from <= at <= chars@.len(),
        at - from == word_end(chars@.skip(from as int)),
{
    let mut i: usize = from;
    while i < chars.len() && !is_white(chars[i])
        invariant
            from <= i <= chars@.len(),
            word_end(chars@.skip(from as int)) == (i - from) + word_end(chars@.skip(i as int)),
        decreases chars@.len() - i,
    {
        assert(chars@.skip(i as int).drop_first() =~= chars@.skip(i + 1));
        i += 1;
    }
    i
}

fn skip_space(chars: &Vec<char>, from: usize) -> (at: usize)
    requires
        from <= chars@.len(),
    ensures
        from <= at <= chars@.len(),
        trimmed_start(chars@.skip(from as int)) == chars@.skip(at as int),
{
    let mut i: usize = from;
    while i < chars.len() && is_white(chars[i])
        invariant
            from <= i <= chars@.len(),
            trimmed_start(chars@.skip(from as int)) == trimmed_start(chars@.skip(i as int)),
        decreases chars@.len() - i,
    {
        assert(chars@.skip(i as int).drop_first() =~= chars@.skip(i + 1));
        i += 1;
    }
    i
}

/// The resident pages that a process's memory statistics give.
pub fn resident_pages(statm: &str) -> (r: Result<u64, String>)
    ensures
        match r {
            Ok(pages) => pages_in(statm@) == Ok::<u64, Seq<char>>(pages),
            Err(text) => pages_in(statm@) == Err::<u64, Seq<char>>(text@),
        },
{
    let chars = chars_of(statm);
    assert(chars@.skip(0) =~= chars@);
    proof {
        reveal_with_fuel(word, 2);
    }
    let first = skip_space(&chars, 0);
    if first < chars.len() {
        let gap = find_space(&chars, first);
        assert(chars@.skip(first as int).skip(gap - first) =~= chars@.skip(gap as int));
        let second = skip_space(&chars, gap);
        if second < chars.len() {
            let end = find_space(&chars, second);
            let field = slice_subrange(chars.as_slice(), second, end);
            assert(field@ =~= chars@.skip(second as int).take(end - second));
            return match parse_number(field, u64::MAX) {
                Ok(pages) => Ok(pages),
                Err(fault) => {
                    let mut text = "/proc/self/statm: unreadable resident field: ".to_owned();
                    text.append(fault.to_text());
                    Err(text)
                },
            };
        }
    }
    let mut text = "/proc/self/statm: no resident field in ".to_owned();
    text.append(debug(statm).as_str());
    Err(text)
}

/// The resident bytes of so many pages.
pub fn resident_bytes(pages: u64, page_size: i64) -> (r: Result<u64, String>)
    requires
        page_size > 0 ==> pages * page_size <= u64::MAX,
    ensures
        match r {
            Ok(bytes) => page_size > 0 && bytes == pages * page_size,
            Err(text) => page_size <= 0 && text@
                == "sysconf(_SC_PAGESIZE) gave no usable page size"@,
        },
{
    if page_size <= 0 {
        return Err("sysconf(_SC_PAGESIZE) gave no usable page size".to_owned());
    }
    Ok(pages * (page_size as u64))
}

/// The open descriptors of a listing that holds the one it was read through.
pub fn descriptors_listed(entries: u64) -> (n: u64)
    ensures
        n == if entries > 0 {
            (entries - 1) as u64
        } else {
            0
        },
{
    entries.saturating_sub(1)
}

/// Growth is what the last sample holds more than the baseline sample: a leak is
/// any more descriptors, and the budget is ten mebibytes more memory. The peak is
/// a reading from the baseline on that none of them exceeds. Readings past what a
/// signed number holds are left out.
pub proof fn law_growth_is_from_the_baseline_to_the_end(samples: Seq<Sample>, i: int)
    requires
        0 <= i < samples.len() <= usize::MAX,
        samples[i].descriptors <= i64::MAX,
        samples[i].rss_bytes <= i64::MAX,
        samples.last().descriptors <= i64::MAX,
        samples.last().rss_bytes <= i64::MAX,
    ensures
        ({
            let a = assessment_from(samples, i);
            let base = samples[i];
            let end = samples[samples.len() - 1];
            &&& a.samples == samples.len()
            &&& a.baseline_index == i
            &&& a.baseline_descriptors == base.descriptors
            &&& a.final_descriptors == end.descriptors
            &&& a.baseline_rss_bytes == base.rss_bytes
            &&& a.final_rss_bytes == end.rss_bytes
            &&& a.descriptor_delta == end.descriptors - base.descriptors
            &&& a.rss_growth_bytes == end.rss_bytes - base.rss_bytes
            &&& a.descriptors_leaked <==> end.descriptors > base.descriptors
            &&& a.rss_over_budget <==> end.rss_bytes > base.rss_bytes + 10 * 1024 * 1024
            &&& forall|k: int|
                i <= k < samples.len() ==> (#[trigger] samples[k]).rss_bytes <= a.peak_rss_bytes
            &&& exists|k: int|
                i <= k < samples.len() && (#[trigger] samples[k]).rss_bytes == a.peak_rss_bytes
        }),
{
    law_the_peak_bounds_both_ends(samples, i);
    let rest = samples.skip(i);
    lemma_peak_is_read(rest);
    let k = choose|k: int| 0 <= k < rest.len() && (#[trigger] rest[k]).rss_bytes == peak(rest);
    assert(samples[i + k] == rest[k]);
}

proof fn lemma_peak_is_read(s: Seq<Sample>)
    requires
        s.len() > 0,
    ensures
        exists|k: int| 0 <= k < s.len() && (#[trigger] s[k]).rss_bytes == peak(s),
    decreases s.len(),
{
    let front = s.drop_last();
    assert(s[s.len() - 1] == s.last());
    if front.len() > 0 {
        lemma_peak_is_read(front);
        let k = choose|k: int| 0 <= k < front.len() && (#[trigger] front[k]).rss_bytes == peak(
            front,
        );
        assert(s[k] == front[k]);
        assert(s[k].rss_bytes == peak(s) || s[s.len() - 1].rss_bytes == peak(s));
    } else {
        assert(peak(front) == 0);
        assert(s[0].rss_bytes == peak(s));
    }
}

/// The baseline is the earliest sample past the warm-up window, there is at most
/// one, and a series has one where some sample is past the window.
pub proof fn law_the_baseline_is_the_first_sample_past_the_warm_up(
    samples: Seq<Sample>,
    warmup_ns: u128,
    k: int,
)
    requires
        0 <= k < samples.len(),
        samples[k].t_ns >= warmup_ns,
    ensures
        exists|i: int|
            0 <= i <= k && #[trigger] is_baseline(samples, warmup_ns, i) && samples[i].t_ns
                >= warmup_ns && forall|j: int|
                0 <= j < i ==> (#[trigger] samples[j]).t_ns < warmup_ns,
        forall|i: int| #[trigger]
            is_baseline(samples, warmup_ns, i) ==> i <= k && samples[i].t_ns >= warmup_ns,
    decreases k,
{
    if forall|j: int| 0 <= j < k ==> (#[trigger] samples[j]).t_ns < warmup_ns {
        assert(is_baseline(samples, warmup_ns, k));
    } else {
        let j = choose|j: int| 0 <= j < k && (#[trigger] samples[j]).t_ns >= warmup_ns;
        law_the_baseline_is_the_first_sample_past_the_warm_up(samples, warmup_ns, j);
    }
}

/// The second field of a process's memory statistics is the one that is read,
/// whatever white space stands around it and whatever follows.
pub proof fn law_the_second_field_is_read(
    lead: Seq<char>,
    first: Seq<char>,
    gap: Seq<char>,
    pages: u64,
    rest: Seq<char>,
)
    requires
        all_space(lead),
        first.len() > 0,
        forall|i: int| 0 <= i < first.len() ==> !is_space(#[trigger] first[i]),
        gap.len() > 0,
        all_space(gap),
        rest.len() == 0 || is_space(rest[0]),
    ensures
        pages_in(lead + first + gap + decimal(pages as nat) + rest) == Ok::<u64, Seq<char>>(pages),
{
    let field = decimal(pages as nat);
    lemma_decimal_digits(pages as nat);
    assert forall|i: int| 0 <= i < field.len() implies !is_space(#[trigger] field[i]) by {
        assert(is_digit(field[i]));
    }
    let behind = gap + field + rest;
    lemma_first_word(lead, first, behind);
    lemma_first_word(gap, field, rest);
    assert(lead + first + gap + field + rest =~= lead + first + behind);
    let s = lead + first + behind;
    assert(trimmed_start(s).skip(word_end(trimmed_start(s))) =~= behind);
    reveal_with_fuel(word, 2);
    assert(word(behind, 0) == Some(field));
    assert(word(s, 1) == word(behind, 0));
    law_decimal_reads_back(pages as nat, u64::MAX as nat);
}

proof fn lemma_first_word(lead: Seq<char>, first: Seq<char>, rest: Seq<char>)
    requires
        all_space(lead),
        first.len() > 0,
        forall|i: int| 0 <= i < first.len() ==> !is_space(#[trigger] first[i]),
        rest.len() == 0 || is_space(rest[0]),
    ensures
        trimmed_start(lead + first + rest) == first + rest,
        word_end(first + rest) == first.len(),
        (first + rest).take(first.len() as int) == first,
        (first + rest).skip(first.len() as int) == rest,
    decreases lead.len() + first.len(),
{
    let s = lead + first + rest;
    if lead.len() > 0 {
        let tail = lead.drop_first();
        assert forall|i: int| 0 <= i < tail.len() implies is_space(#[trigger] tail[i]) by {
            assert(tail[i] == lead[i + 1]);
        }
        lemma_first_word(tail, first, rest);
        assert(s.drop_first() =~= tail + first + rest);
        assert(s[0] == lead[0]);
    } else {
        assert(s =~= first + rest);
        assert((first + rest)[0] == first[0]);
        lemma_word_end(first, rest);
        assert((first + rest).take(first.len() as int) =~= first);
        assert((first + rest).skip(first.len() as int) =~= rest);
    }
}

proof fn lemma_word_end(first: Seq<char>, rest: Seq<char>)
    requires
        forall|i: int| 0 <= i < first.len() ==> !is_space(#[trigger] first[i]),
        rest.len() == 0 || is_space(rest[0]),
    ensures
        word_end(first + rest) == first.len(),
    decreases first.len(),
{
    let s = first + rest;
    if first.len() > 0 {
        assert(s[0] == first[0]);
        let tail = first.drop_first();
        assert forall|i: int| 0 <= i < tail.len() implies !is_space(#[trigger] tail[i]) by {
            assert(tail[i] == first[i + 1]);
        }
        lemma_word_end(tail, rest);
        assert(s.drop_first() =~= tail + rest);
    } else {
        assert(s =~= rest);
    }
}

/// A run is within its budgets exactly when no descriptor was left and memory grew
/// by no more than ten mebibytes.
pub proof fn law_a_run_without_growth_is_within_budget(
    samples: Seq<Sample>,
    i: int,
    assessment: Assessment,
    within: bool,
)
    requires
        0 <= i < samples.len() <= usize::MAX,
        samples[i].descriptors <= i64::MAX,
        samples[i].rss_bytes <= i64::MAX,
        samples.last().descriptors <= i64::MAX,
        samples.last().rss_bytes <= i64::MAX,
        assessment == assessment_from(samples, i),
        call_ensures(Assessment::within_budget, (&assessment,), within),
    ensures
        within <==> samples.last().descriptors <= samples[i].descriptors
            && samples.last().rss_bytes <= samples[i].rss_bytes + 10 * 1024 * 1024,
{
    law_growth_is_from_the_baseline_to_the_end(samples, i);
}

} // verus!
