//! Escape sequences, taken out so that text assertions see what a person would
//! read. A control sequence (`ESC [`) ends at a final byte in `0x40..=0x7E`; an
//! operating-system command (`ESC ]`) ends at BEL or at ESC-backslash; any
//! other ESC pair is dropped whole.
use vstd::prelude::*;

use crate::text::{chars_of, text_of};

verus! {

/// How many characters a control sequence takes after its opening pair.
pub open spec fn control_len(s: Seq<char>) -> nat
    decreases s.len(),
{
    if s.len() == 0 {
        0
    } else if '\x40' <= s[0] <= '\x7e' {
        1
    } else {
        1 + control_len(s.drop_first())
    }
}

/// How many characters an operating-system command takes after its opening pair.
pub open spec fn command_len(s: Seq<char>) -> nat
    decreases s.len(),
{
    if s.len() == 0 {
        0
    } else if s[0] == '\x07' {
        1
    } else if s[0] == '\x1b' && s.len() > 1 && s[1] == '\\' {
        2
    } else {
        1 + command_len(s.drop_first())
    }
}

/// How many characters the escape sequence at the front of `s` takes.
pub open spec fn escape_len(s: Seq<char>) -> nat {
    if s.len() < 2 {
        s.len()
    } else if s[1] == '[' {
        2 + control_len(s.skip(2))
    } else if s[1] == ']' {
        2 + command_len(s.skip(2))
    } else {
        2
    }
}

/// A text without its escape sequences.
pub open spec fn stripped(s: Seq<char>) -> Seq<char>
    decreases s.len(),
{
    if s.len() == 0 {
        Seq::empty()
    } else if s[0] != '\x1b' {
        seq![s[0]] + stripped(s.drop_first())
    } else {
        proof {
            lemma_escape_len(s);
        }
        stripped(s.skip(escape_len(s) as int))
    }
}

proof fn lemma_control_len(s: Seq<char>)
    ensures
        control_len(s) <= s.len(),
    decreases s.len(),
{
    if s.len() > 0 {
        lemma_control_len(s.drop_first());
    }
}

proof fn lemma_command_len(s: Seq<char>)
    ensures
        command_len(s) <= s.len(),
    decreases s.len(),
{
    if s.len() > 0 {
        lemma_command_len(s.drop_first());
    }
}

/// An escape sequence takes at least its first character, and no more than there is.
pub proof fn lemma_escape_len(s: Seq<char>)
    requires
        s.len() > 0,
    ensures
        0 < escape_len(s) <= s.len(),
{
    if s.len() >= 2 {
        lemma_control_len(s.skip(2));
        lemma_command_len(s.skip(2));
    }
}

/// The index just past the control sequence whose body starts at `from`.
fn after_control(chars: &[char], from: usize) -> (end: usize)
    requires
        from <= chars@.len(),
    ensures
        end == from + control_len(chars@.skip(from as int)),
        end <= chars@.len(),
{
    let mut i: usize = from;
    proof {
        lemma_control_len(chars@.skip(from as int));
    }
    while i < chars.len()
        invariant
            from <= i <= chars@.len(),
            from + control_len(chars@.skip(from as int)) == i + control_len(chars@.skip(i as int)),
            from + control_len(chars@.skip(from as int)) <= chars@.len(),
        decreases chars@.len() - i,
    {
        let c: char = chars[i];
        assert(chars@.skip(i as int)[0] == c);
        assert(chars@.skip(i as int).drop_first() =~= chars@.skip(i + 1));
        i += 1;
        if '\x40' <= c && c <= '\x7e' {
            return i;
        }
    }
    i
}

/// The index just past the operating-system command whose body starts at `from`.
fn after_command(chars: &[char], from: usize) -> (end: usize)
    requires
        from <= chars@.len(),
    ensures
        end == from + command_len(chars@.skip(from as int)),
        end <= chars@.len(),
{
    let mut i: usize = from;
    proof {
        lemma_command_len(chars@.skip(from as int));
    }
    while i < chars.len()
        invariant
            from <= i <= chars@.len(),
            from + command_len(chars@.skip(from as int)) == i + command_len(chars@.skip(i as int)),
            from + command_len(chars@.skip(from as int)) <= chars@.len(),
        decreases chars@.len() - i,
    {
        let c: char = chars[i];
        assert(chars@.skip(i as int)[0] == c);
        assert(chars@.skip(i as int).drop_first() =~= chars@.skip(i + 1));
        if c == '\x07' {
            return i + 1;
        }
        if c == '\x1b' && i + 1 < chars.len() && chars[i + 1] == '\\' {
            return i + 2;
        }
        i += 1;
    }
    i
}

/// The text without its escape sequences, over characters.
pub fn strip_chars(chars: &[char]) -> (out: Vec<char>)
    ensures
        out@ == stripped(chars@),
{
    let mut out: Vec<char> = Vec::new();
    let mut i: usize = 0;
    proof {
        assert(chars@.skip(0) =~= chars@);
        assert(out@ + stripped(chars@) =~= stripped(chars@));
    }
    while i < chars.len()
        invariant
            i <= chars@.len(),
            out@ + stripped(chars@.skip(i as int)) == stripped(chars@),
        decreases chars@.len() - i,
    {
        let ghost rest = chars@.skip(i as int);
        let ghost before = out@;
        if chars[i] != '\x1b' {
            out.push(chars[i]);
            i += 1;
            proof {
                assert(rest.drop_first() =~= chars@.skip(i as int));
                assert(before + (seq![rest[0]] + stripped(rest.drop_first())) =~= before.push(
                    rest[0],
                ) + stripped(rest.drop_first()));
            }
        } else {
            let start: usize = i;
            proof {
                lemma_escape_len(rest);
            }
            if i + 1 >= chars.len() {
                i = chars.len();
            } else if chars[i + 1] == '[' {
                assert(rest.skip(2) =~= chars@.skip(i + 2));
                i = after_control(chars, i + 2);
            } else if chars[i + 1] == ']' {
                assert(rest.skip(2) =~= chars@.skip(i + 2));
                i = after_command(chars, i + 2);
            } else {
                i = i + 2;
            }
            proof {
                assert(i == start + escape_len(rest));
                assert(rest.skip(escape_len(rest) as int) =~= chars@.skip(i as int));
            }
        }
    }
    assert(out@ + stripped(chars@.skip(i as int)) =~= out@);
    out
}

/// Strip ANSI escape sequences from a text.
pub fn strip_ansi(text: &str) -> (out: String)
    ensures
        out@ == stripped(text@),
{
    text_of(strip_chars(chars_of(text).as_slice()).as_slice())
}

/// A text without an escape character is left alone.
pub proof fn law_plain_text_is_left_alone(s: Seq<char>)
    requires
        !s.contains('\x1b'),
    ensures
        stripped(s) == s,
    decreases s.len(),
{
    if s.len() > 0 {
        assert(s.contains(s[0]));
        assert forall|i: int| 0 <= i < s.drop_first().len() implies s.drop_first()[i] != '\x1b' by {
            assert(s.contains(s[i + 1]));
        }
        law_plain_text_is_left_alone(s.drop_first());
        assert(seq![s[0]] + s.drop_first() =~= s);
    }
}

/// What is left holds no escape character, so stripping again changes nothing.
pub proof fn law_no_escape_survives(s: Seq<char>)
    ensures
        !stripped(s).contains('\x1b'),
        stripped(stripped(s)) == stripped(s),
    decreases s.len(),
{
    if s.len() > 0 {
        if s[0] != '\x1b' {
            law_no_escape_survives(s.drop_first());
            let rest = stripped(s.drop_first());
            assert forall|i: int| 0 <= i < stripped(s).len() implies stripped(s)[i] != '\x1b' by {
                if i > 0 {
                    assert(stripped(s)[i] == rest[i - 1]);
                    assert(rest.contains(rest[i - 1]));
                }
            }
        } else {
            lemma_escape_len(s);
            law_no_escape_survives(s.skip(escape_len(s) as int));
        }
    }
    law_plain_text_is_left_alone(stripped(s));
}

/// Stripping adds nothing: a character that a text does not hold is not in what
/// is left of it.
pub proof fn law_stripping_adds_nothing(s: Seq<char>, c: char)
    requires
        !s.contains(c),
    ensures
        !stripped(s).contains(c),
    decreases s.len(),
{
    if s.len() > 0 {
        lemma_escape_len(s);
        let n = if s[0] != '\x1b' {
            1
        } else {
            escape_len(s) as int
        };
        assert forall|i: int| 0 <= i < s.skip(n).len() implies s.skip(n)[i] != c by {
            assert(s.contains(s[i + n]));
        }
        law_stripping_adds_nothing(s.skip(n), c);
        if s[0] != '\x1b' {
            assert(s.skip(1) =~= s.drop_first());
            assert(s.contains(s[0]));
            let rest = stripped(s.drop_first());
            assert forall|i: int| 0 <= i < stripped(s).len() implies stripped(s)[i] != c by {
                if i > 0 {
                    assert(rest.contains(rest[i - 1]));
                }
            }
        }
    }
}

/// What stands before an escape sequence is kept.
pub proof fn law_text_before_an_escape_is_kept(plain: Seq<char>, rest: Seq<char>)
    requires
        !plain.contains('\x1b'),
    ensures
        stripped(plain + rest) == plain + stripped(rest),
    decreases plain.len(),
{
    if plain.len() == 0 {
        assert(plain + rest =~= rest);
        assert(plain + stripped(rest) =~= stripped(rest));
    } else {
        let all = plain + rest;
        let tail = plain.drop_first();
        assert(plain.contains(plain[0]));
        assert forall|i: int| 0 <= i < tail.len() implies tail[i] != '\x1b' by {
            assert(plain.contains(plain[i + 1]));
        }
        law_text_before_an_escape_is_kept(tail, rest);
        assert(all.drop_first() =~= tail + rest);
        assert(stripped(all) =~= plain + stripped(rest));
    }
}

/// A control sequence goes up to its final character and no further: parameters
/// outside `@` to `~`, and one character inside.
pub proof fn law_a_control_sequence_vanishes(body: Seq<char>, last: char, rest: Seq<char>)
    requires
        forall|i: int| 0 <= i < body.len() ==> !('@' <= #[trigger] body[i] <= '~'),
        '@' <= last <= '~',
    ensures
        stripped(seq!['\x1b', '['] + body + seq![last] + rest) == stripped(rest),
        stripped(seq!['\x1b', '['] + body) == Seq::<char>::empty(),
{
    lemma_control_ends(body, last, rest);
    lemma_control_open(body);
    let all = seq!['\x1b', '['] + body + seq![last] + rest;
    assert(all.skip(2) =~= body + seq![last] + rest);
    assert(all.skip(escape_len(all) as int) =~= rest);
    let open = seq!['\x1b', '['] + body;
    assert(open.skip(2) =~= body);
    assert(open.skip(escape_len(open) as int) =~= Seq::empty());
    assert(stripped(Seq::empty()) == Seq::<char>::empty());
}

proof fn lemma_control_ends(body: Seq<char>, last: char, rest: Seq<char>)
    requires
        forall|i: int| 0 <= i < body.len() ==> !('@' <= #[trigger] body[i] <= '~'),
        '@' <= last <= '~',
    ensures
        control_len(body + seq![last] + rest) == body.len() + 1,
    decreases body.len(),
{
    let s = body + seq![last] + rest;
    if body.len() > 0 {
        assert(s[0] == body[0]);
        let tail = body.drop_first();
        assert forall|i: int| 0 <= i < tail.len() implies !('@' <= #[trigger] tail[i] <= '~') by {
            assert(tail[i] == body[i + 1]);
        }
        lemma_control_ends(tail, last, rest);
        assert(s.drop_first() =~= tail + seq![last] + rest);
    } else {
        assert(s[0] == last);
    }
}

proof fn lemma_control_open(body: Seq<char>)
    requires
        forall|i: int| 0 <= i < body.len() ==> !('@' <= #[trigger] body[i] <= '~'),
    ensures
        control_len(body) == body.len(),
    decreases body.len(),
{
    if body.len() > 0 {
        assert(body[0] == body[0]);
        let tail = body.drop_first();
        assert forall|i: int| 0 <= i < tail.len() implies !('@' <= #[trigger] tail[i] <= '~') by {
            assert(tail[i] == body[i + 1]);
        }
        lemma_control_open(tail);
    }
}

/// An operating-system command goes up to its bell or its escaped backslash and
/// no further.
pub proof fn law_a_command_vanishes(body: Seq<char>, rest: Seq<char>)
    requires
        !body.contains('\x07'),
        !body.contains('\x1b'),
    ensures
        stripped(seq!['\x1b', ']'] + body + seq!['\x07'] + rest) == stripped(rest),
        stripped(seq!['\x1b', ']'] + body + seq!['\x1b', '\\'] + rest) == stripped(rest),
        stripped(seq!['\x1b', ']'] + body) == Seq::<char>::empty(),
{
    let none = Seq::<char>::empty();
    lemma_command_ends(body, seq!['\x07'] + rest, 1);
    lemma_command_ends(body, seq!['\x1b', '\\'] + rest, 2);
    lemma_command_ends(body, none, 0);
    let bell = seq!['\x1b', ']'] + body + seq!['\x07'] + rest;
    assert(bell.skip(2) =~= body + (seq!['\x07'] + rest));
    assert(bell.skip(escape_len(bell) as int) =~= rest);
    let slash = seq!['\x1b', ']'] + body + seq!['\x1b', '\\'] + rest;
    assert(slash.skip(2) =~= body + (seq!['\x1b', '\\'] + rest));
    assert(slash.skip(escape_len(slash) as int) =~= rest);
    let open = seq!['\x1b', ']'] + body;
    assert(open.skip(2) =~= body + none);
    assert(open.skip(escape_len(open) as int) =~= none);
    assert(stripped(none) == none);
}

proof fn lemma_command_ends(body: Seq<char>, end: Seq<char>, n: nat)
    requires
        !body.contains('\x07'),
        !body.contains('\x1b'),
        command_len(end) == n,
    ensures
        command_len(body + end) == body.len() + n,
    decreases body.len(),
{
    let s = body + end;
    if body.len() > 0 {
        assert(s[0] == body[0] && body.contains(body[0]));
        let tail = body.drop_first();
        assert forall|i: int| 0 <= i < tail.len() implies tail[i] != '\x07' && tail[i]
            != '\x1b' by {
            assert(body.contains(body[i + 1]));
        }
        lemma_command_ends(tail, end, n);
        assert(s.drop_first() =~= tail + end);
    } else {
        assert(s =~= end);
    }
}

/// Any other escape takes the one character behind it, and no more.
pub proof fn law_any_other_escape_takes_one_character(c: char, rest: Seq<char>)
    requires
        c != '[' && c != ']',
    ensures
        stripped(seq!['\x1b', c] + rest) == stripped(rest),
        stripped(seq!['\x1b']) == Seq::<char>::empty(),
{
    let all = seq!['\x1b', c] + rest;
    assert(all.skip(2) =~= rest);
    let bare = seq!['\x1b'];
    assert(bare.skip(1) =~= Seq::empty());
    assert(stripped(Seq::empty()) == Seq::<char>::empty());
}

} // verus!
