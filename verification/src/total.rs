//! Sums over the places of a list, and the lines of a text: the plain terms that
//! laws are stated in.
use vstd::prelude::*;

verus! {

/// The sum of the numbers at the first `n` places.
pub open spec fn sum(number: spec_fn(int) -> int, n: int) -> int
    decreases n,
{
    if n <= 0 {
        0
    } else {
        sum(number, n - 1) + number(n - 1)
    }
}

/// Sums of equal numbers are equal.
pub proof fn lemma_sum_same(a: spec_fn(int) -> int, b: spec_fn(int) -> int, n: int)
    requires
        forall|i: int| 0 <= i < n ==> #[trigger] a(i) == b(i),
    ensures
        sum(a, n) == sum(b, n),
    decreases n,
{
    if n > 0 {
        lemma_sum_same(a, b, n - 1);
        assert(a(n - 1) == b(n - 1));
    }
}

/// Whether the places of a text from `start` to `end` are the line of number `i`,
/// counted from zero: as many lines end before it, none ends inside it, and its
/// own end follows it.
pub open spec fn is_line(text: Seq<char>, i: int, start: int, end: int) -> bool {
    &&& 0 <= start <= end < text.len()
    &&& text[end] == '\n'
    &&& forall|j: int| start <= j < end ==> #[trigger] text[j] != '\n'
    &&& start == 0 || text[start - 1] == '\n'
    &&& sum(|j: int| if text[j] == '\n' { 1int } else { 0int }, start) == i
}

/// How many line feeds a text holds.
pub open spec fn line_feeds(text: Seq<char>) -> int {
    sum(|j: int| if text[j] == '\n' { 1int } else { 0int }, text.len() as int)
}

/// The line feeds of two texts, one behind the other, are those of both.
pub proof fn lemma_line_feeds_add(a: Seq<char>, b: Seq<char>)
    ensures
        line_feeds(a + b) == line_feeds(a) + line_feeds(b),
    decreases b.len(),
{
    let f = |j: int| if (a + b)[j] == '\n' { 1int } else { 0int };
    if b.len() == 0 {
        assert(a + b =~= a);
    } else {
        let c = b.drop_last();
        lemma_line_feeds_add(a, c);
        lemma_sum_same(
            f,
            |j: int| if (a + c)[j] == '\n' { 1int } else { 0int },
            (a + c).len() as int,
        );
        lemma_sum_same(
            |j: int| if b[j] == '\n' { 1int } else { 0int },
            |j: int| if c[j] == '\n' { 1int } else { 0int },
            c.len() as int,
        );
        assert((a + b)[(a + b).len() - 1] == b[b.len() - 1]);
    }
}

/// A text without line feeds and the line feed behind it hold one.
pub proof fn lemma_one_line_feed(body: Seq<char>)
    requires
        !body.contains('\n'),
    ensures
        line_feeds(body.push('\n')) == 1,
        line_feeds(body) == 0,
{
    assert forall|i: int| 0 <= i < body.len() implies body[i] != '\n' by {
        assert(body.contains(body[i]));
    }
    lemma_no_line_feed(|j: int| if body[j] == '\n' { 1int } else { 0int }, body.len() as int);
    let whole = body.push('\n');
    lemma_sum_same(
        |j: int| if whole[j] == '\n' { 1int } else { 0int },
        |j: int| if body[j] == '\n' { 1int } else { 0int },
        body.len() as int,
    );
    assert(whole[body.len() as int] == '\n');
}

proof fn lemma_no_line_feed(f: spec_fn(int) -> int, n: int)
    requires
        forall|i: int| 0 <= i < n ==> #[trigger] f(i) == 0,
    ensures
        sum(f, n) == 0,
    decreases n,
{
    if n > 0 {
        lemma_no_line_feed(f, n - 1);
        assert(f(n - 1) == 0);
    }
}

/// What stands between lines and a line feed is the line of the number of lines
/// before it.
pub proof fn lemma_is_line(before: Seq<char>, body: Seq<char>, after: Seq<char>)
    requires
        before.len() == 0 || before.last() == '\n',
        !body.contains('\n'),
    ensures
        ({
            let text = before + body.push('\n') + after;
            let start = before.len() as int;
            let end = start + body.len();
            is_line(text, line_feeds(before), start, end) && text.subrange(start, end) == body
        }),
{
    let text = before + body.push('\n') + after;
    let start = before.len() as int;
    let end = start + body.len();
    lemma_sum_same(
        |j: int| if text[j] == '\n' { 1int } else { 0int },
        |j: int| if before[j] == '\n' { 1int } else { 0int },
        start,
    );
    assert forall|j: int| start <= j < end implies #[trigger] text[j] != '\n' by {
        assert(text[j] == body[j - start]);
        assert(body.contains(body[j - start]));
    }
    assert(text.subrange(start, end) =~= body);
}

} // verus!
