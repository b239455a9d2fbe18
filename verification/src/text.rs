//! Text as a sequence of characters: building messages, rendering numbers, and
//! the searches that the probes run over terminal output.
use vstd::prelude::*;
use vstd::string::*;
use vstd::utf8::*;

use crate::report::texts;

verus! {

/// `String::push`: the character is appended to what the string held.
pub assume_specification[ String::push ](s: &mut String, c: char)
    ensures
        final(s)@ == old(s)@.push(c),
;

/// The characters of a text, in order.
pub fn chars_of(text: &str) -> (chars: Vec<char>)
    ensures
        chars@ == text@,
{
    let mut chars: Vec<char> = Vec::new();
    for c in it: text.chars()
        invariant
            chars@ == it.seq().take(it.index() as int),
            it.seq() == text@,
    {
        chars.push(c);
        assert(it.seq().take(it.index() + 1) =~= it.seq().take(it.index() as int).push(c));
    }
    assert(text@.take(text@.len() as int) =~= text@);
    chars
}

/// The text that a run of characters spells.
pub fn text_of(chars: &[char]) -> (text: String)
    ensures
        text@ == chars@,
{
    let mut text = String::new();
    let mut i: usize = 0;
    while i < chars.len()
        invariant
            i <= chars@.len(),
            text@ == chars@.take(i as int),
        decreases chars@.len() - i,
    {
        text.push(chars[i]);
        i += 1;
        assert(chars@.take(i as int) =~= chars@.take(i - 1).push(chars@[i - 1]));
    }
    assert(chars@.take(chars@.len() as int) =~= chars@);
    text
}

/// Whether two texts are the same, character for character.
pub fn same_text(a: &str, b: &str) -> (same: bool)
    ensures
        same == (a@ == b@),
{
    let x = a.as_bytes();
    let y = b.as_bytes();
    proof {
        encode_utf8_decode_utf8(a@);
        encode_utf8_decode_utf8(b@);
    }
    if x.len() != y.len() {
        return false;
    }
    let mut i: usize = 0;
    while i < x.len()
        invariant
            x@ == encode_utf8(a@),
            y@ == encode_utf8(b@),
            x@.len() == y@.len(),
            i <= x@.len(),
            forall|j: int| 0 <= j < i ==> x@[j] == y@[j],
        decreases x@.len() - i,
    {
        if x[i] != y[i] {
            return false;
        }
        i += 1;
    }
    assert(x@ =~= y@);
    true
}

/// The decimal digit for a value below ten.
pub open spec fn digit(d: nat) -> char {
    (48 + d) as char
}

/// A number in decimal, without leading zeros.
pub open spec fn decimal(n: nat) -> Seq<char>
    decreases n,
{
    if n < 10 {
        seq![digit(n)]
    } else {
        decimal(n / 10).push(digit(n % 10))
    }
}

/// A signed number in decimal, with a leading minus sign below zero.
pub open spec fn signed_decimal(n: int) -> Seq<char> {
    if n < 0 {
        seq!['-'] + decimal((-n) as nat)
    } else {
        decimal(n as nat)
    }
}

/// The hexadecimal digit for a value below sixteen.
pub open spec fn hex_digit(d: nat, upper: bool) -> char {
    if d < 10 {
        digit(d)
    } else if upper {
        (55 + d) as char
    } else {
        (87 + d) as char
    }
}

/// The last `width` hexadecimal digits of a number, leading zeros included.
pub open spec fn hex(n: nat, width: nat, upper: bool) -> Seq<char>
    decreases width,
{
    if width == 0 {
        Seq::empty()
    } else {
        hex(n / 16, (width - 1) as nat, upper).push(hex_digit(n % 16, upper))
    }
}

/// A result's contents, where both sides are texts.
pub open spec fn text_result(r: Result<String, String>) -> Result<Seq<char>, Seq<char>> {
    match r {
        Ok(value) => Ok(value@),
        Err(why) => Err(why@),
    }
}

/// A result's contents, where the error is a text.
pub open spec fn number_result(r: Result<u64, String>) -> Result<u64, Seq<char>> {
    match r {
        Ok(value) => Ok(value),
        Err(why) => Err(why@),
    }
}

/// Append a number in decimal.
pub fn push_u128(text: &mut String, n: u128)
    ensures
        final(text)@ == old(text)@ + decimal(n as nat),
    decreases n,
{
    if n >= 10 {
        push_u128(text, n / 10);
    }
    let d: u8 = 48 + (n % 10) as u8;
    text.push(d as char);
    proof {
        if n >= 10 {
            assert(old(text)@ + decimal((n / 10) as nat).push(digit((n % 10) as nat)) =~= (old(text)@
                + decimal((n / 10) as nat)).push(digit((n % 10) as nat)));
        } else {
            assert(old(text)@ + seq![digit(n as nat)] =~= old(text)@.push(digit(n as nat)));
        }
    }
}

/// Append a number in decimal.
pub fn push_u64(text: &mut String, n: u64)
    ensures
        final(text)@ == old(text)@ + decimal(n as nat),
{
    push_u128(text, n as u128);
}

/// Append a length or a count in decimal.
pub fn push_usize(text: &mut String, n: usize)
    ensures
        final(text)@ == old(text)@ + decimal(n as nat),
{
    push_u128(text, n as u128);
}

/// Append a signed number in decimal.
pub fn push_i64(text: &mut String, n: i64)
    ensures
        final(text)@ == old(text)@ + signed_decimal(n as int),
{
    if n < 0 {
        text.push('-');
        push_u128(text, (-(n as i128)) as u128);
        assert(old(text)@.push('-') + decimal((-n) as nat) =~= old(text)@ + (seq!['-'] + decimal(
            (-n) as nat,
        )));
    } else {
        push_u128(text, n as u128);
    }
}

/// Append the last `width` hexadecimal digits of a number.
pub fn push_hex(text: &mut String, n: u64, width: u32, upper: bool)
    ensures
        final(text)@ == old(text)@ + hex(n as nat, width as nat, upper),
    decreases width,
{
    if width == 0 {
        assert(old(text)@ + Seq::<char>::empty() =~= old(text)@);
        return ;
    }
    push_hex(text, n / 16, width - 1, upper);
    let d: u8 = (n % 16) as u8;
    let c: u8 = if d < 10 {
        48 + d
    } else if upper {
        55 + d
    } else {
        87 + d
    };
    text.push(c as char);
    assert(old(text)@ + hex((n / 16) as nat, (width - 1) as nat, upper).push(
        hex_digit((n % 16) as nat, upper),
    ) =~= (old(text)@ + hex((n / 16) as nat, (width - 1) as nat, upper)).push(
        hex_digit((n % 16) as nat, upper),
    ));
}

/// Whether `needle` stands in `hay` at index `at`.
pub open spec fn occurs_at(hay: Seq<char>, needle: Seq<char>, at: int) -> bool {
    &&& 0 <= at
    &&& at + needle.len() <= hay.len()
    &&& hay.subrange(at, at + needle.len()) == needle
}

/// Whether `needle` stands anywhere in `hay`.
pub open spec fn occurs(hay: Seq<char>, needle: Seq<char>) -> bool {
    exists|at: int| occurs_at(hay, needle, at)
}

/// Whether `text` begins with `prefix`.
pub open spec fn begins_with(text: Seq<char>, prefix: Seq<char>) -> bool {
    occurs_at(text, prefix, 0)
}

/// Whether `needle` stands in `hay` at index `at`.
pub fn is_at(hay: &[char], needle: &[char], at: usize) -> (found: bool)
    ensures
        found == occurs_at(hay@, needle@, at as int),
{
    if at > hay.len() || needle.len() > hay.len() - at {
        return false;
    }
    let n: usize = hay.len();
    let mut i: usize = 0;
    while i < needle.len()
        invariant
            at <= n == hay@.len(),
            i <= needle@.len() <= hay@.len() - at,
            forall|j: int| 0 <= j < i ==> hay@[at + j] == needle@[j],
        decreases needle@.len() - i,
    {
        if hay[at + i] != needle[i] {
            assert(hay@.subrange(at as int, at + needle@.len())[i as int] != needle@[i as int]);
            return false;
        }
        i += 1;
    }
    assert(hay@.subrange(at as int, at + needle@.len()) =~= needle@);
    true
}

/// The first place where `needle` stands in `hay`.
pub fn find(hay: &[char], needle: &[char]) -> (at: Option<usize>)
    ensures
        match at {
            Some(i) => occurs_at(hay@, needle@, i as int) && forall|j: int|
                0 <= j < i ==> !occurs_at(hay@, needle@, j),
            None => !occurs(hay@, needle@),
        },
{
    let mut i: usize = 0;
    loop
        invariant
            i <= hay@.len(),
            forall|j: int| 0 <= j < i ==> !occurs_at(hay@, needle@, j),
        decreases hay@.len() - i,
    {
        if is_at(hay, needle, i) {
            return Some(i);
        }
        if i == hay.len() {
            return None;
        }
        i += 1;
    }
}

/// Whether `needle` stands anywhere in `hay`.
pub fn contains(hay: &str, needle: &str) -> (found: bool)
    ensures
        found == occurs(hay@, needle@),
{
    find(chars_of(hay).as_slice(), chars_of(needle).as_slice()).is_some()
}

/// Whether `text` begins with `prefix`.
pub fn starts_with(text: &str, prefix: &str) -> (found: bool)
    ensures
        found == begins_with(text@, prefix@),
{
    is_at(chars_of(text).as_slice(), chars_of(prefix).as_slice(), 0)
}

/// Whether a character is an ASCII decimal digit.
pub open spec fn is_digit(c: char) -> bool {
    '0' <= c <= '9'
}

/// The value of a decimal digit.
pub open spec fn digit_value(c: char) -> nat {
    (c as u32 - 48) as nat
}

/// Why a text is not a whole number that fits.
#[derive(Clone, Copy, Debug, PartialEq, Eq, Structural)]
pub enum NumberFault {
    Empty,
    InvalidDigit,
    TooLarge,
}

/// The number that a run of digits continues from `so_far`, unless a character
/// is no digit or the number passes `max`, whichever comes first.
pub open spec fn digits_value(chars: Seq<char>, so_far: nat, max: nat) -> Result<nat, NumberFault>
    decreases chars.len(),
{
    if chars.len() == 0 {
        Ok(so_far)
    } else if !is_digit(chars[0]) {
        Err(NumberFault::InvalidDigit)
    } else if so_far * 10 + digit_value(chars[0]) > max {
        Err(NumberFault::TooLarge)
    } else {
        digits_value(chars.drop_first(), so_far * 10 + digit_value(chars[0]), max)
    }
}

/// The whole number that a text spells: digits, after an optional plus sign.
pub open spec fn number_value(chars: Seq<char>, max: nat) -> Result<nat, NumberFault> {
    if chars.len() == 0 {
        Err(NumberFault::Empty)
    } else if chars[0] == '+' && chars.len() == 1 {
        Err(NumberFault::InvalidDigit)
    } else if chars[0] == '+' {
        digits_value(chars.drop_first(), 0, max)
    } else {
        digits_value(chars, 0, max)
    }
}

/// Whether a character is an ASCII decimal digit.
pub fn is_decimal(c: char) -> (yes: bool)
    ensures
        yes == is_digit(c),
{
    '0' <= c && c <= '9'
}

/// Read a whole number of at most `max`.
pub fn parse_number(chars: &[char], max: u64) -> (r: Result<u64, NumberFault>)
    ensures
        match r {
            Ok(n) => number_value(chars@, max as nat) == Ok::<nat, NumberFault>(n as nat),
            Err(fault) => number_value(chars@, max as nat) == Err::<nat, NumberFault>(fault),
        },
{
    if chars.len() == 0 {
        return Err(NumberFault::Empty);
    }
    let mut i: usize = 0;
    if chars[0] == '+' {
        if chars.len() == 1 {
            return Err(NumberFault::InvalidDigit);
        }
        i = 1;
    }
    let ghost first = i as int;
    let mut n: u64 = 0;
    proof {
        assert(chars@.skip(0) =~= chars@);
        assert(chars@.skip(1) =~= chars@.drop_first());
    }
    while i < chars.len()
        invariant
            i <= chars@.len(),
            0 <= first <= 1 <= chars@.len(),
            n <= max,
            digits_value(chars@.skip(first), 0, max as nat) == digits_value(
                chars@.skip(i as int),
                n as nat,
                max as nat,
            ),
            number_value(chars@, max as nat) == digits_value(chars@.skip(first), 0, max as nat),
        decreases chars@.len() - i,
    {
        let c: char = chars[i];
        assert(chars@.skip(i as int)[0] == c);
        assert(chars@.skip(i as int).drop_first() =~= chars@.skip(i + 1));
        if !is_decimal(c) {
            return Err(NumberFault::InvalidDigit);
        }
        let next: u128 = n as u128 * 10 + (c as u32 - 48) as u128;
        if next > max as u128 {
            return Err(NumberFault::TooLarge);
        }
        n = next as u64;
        i += 1;
    }
    Ok(n)
}

/// Read a whole number of at most `max` from a text.
pub fn parse_text_number(text: &str, max: u64) -> (r: Result<u64, NumberFault>)
    ensures
        match r {
            Ok(n) => number_value(text@, max as nat) == Ok::<nat, NumberFault>(n as nat),
            Err(fault) => number_value(text@, max as nat) == Err::<nat, NumberFault>(fault),
        },
{
    parse_number(chars_of(text).as_slice(), max)
}

impl NumberFault {
    /// The fault in words.
    pub open spec fn words(self) -> Seq<char> {
        match self {
            NumberFault::Empty => "cannot parse integer from empty string"@,
            NumberFault::InvalidDigit => "invalid digit found in string"@,
            NumberFault::TooLarge => "number too large to fit in target type"@,
        }
    }

    /// The fault in words.
    pub fn to_text(self) -> (text: &'static str)
        ensures
            text@ == self.words(),
    {
        match self {
            NumberFault::Empty => "cannot parse integer from empty string",
            NumberFault::InvalidDigit => "invalid digit found in string",
            NumberFault::TooLarge => "number too large to fit in target type",
        }
    }
}

/// Reading back a number that was rendered in decimal gives the number.
pub proof fn law_decimal_reads_back(n: nat, max: nat)
    requires
        n <= max,
    ensures
        number_value(decimal(n), max) == Ok::<nat, NumberFault>(n),
{
    lemma_decimal_digits(n);
    lemma_decimal_value(n, max);
    assert(is_digit(decimal(n)[0]));
}

/// A number in decimal is digits, at least one.
pub proof fn lemma_decimal_digits(n: nat)
    ensures
        decimal(n).len() > 0,
        forall|i: int| 0 <= i < decimal(n).len() ==> is_digit(#[trigger] decimal(n)[i]),
    decreases n,
{
    if n >= 10 {
        lemma_decimal_digits(n / 10);
    }
}

proof fn lemma_digits_value_push(s: Seq<char>, c: char, so_far: nat, max: nat)
    requires
        is_digit(c),
    ensures
        digits_value(s.push(c), so_far, max) == match digits_value(s, so_far, max) {
            Ok(v) => if v * 10 + digit_value(c) > max {
                Err(NumberFault::TooLarge)
            } else {
                Ok(v * 10 + digit_value(c))
            },
            Err(fault) => Err::<nat, NumberFault>(fault),
        },
    decreases s.len(),
{
    reveal_with_fuel(digits_value, 2);
    if s.len() == 0 {
        assert(s.push(c).drop_first() =~= Seq::empty());
    } else {
        assert(s.push(c).drop_first() =~= s.drop_first().push(c));
        lemma_digits_value_push(s.drop_first(), c, so_far * 10 + digit_value(s[0]), max);
    }
}

proof fn lemma_decimal_value(n: nat, max: nat)
    requires
        n <= max,
    ensures
        digits_value(decimal(n), 0, max) == Ok::<nat, NumberFault>(n),
    decreases n,
{
    reveal_with_fuel(digits_value, 2);
    if n < 10 {
        assert(decimal(n).drop_first() =~= Seq::empty());
    } else {
        lemma_decimal_value(n / 10, max);
        lemma_digits_value_push(decimal(n / 10), digit(n % 10), 0, max);
    }
}

/// What the `Debug` form of a string shows: the text in quotes, escaped.
pub uninterp spec fn debug_text(s: Seq<char>) -> Seq<char>;

/// `format!("{:?}", text)`: the `Debug` form of a string. What is escaped, and
/// how, is left to the name.
#[verifier::external_body]
pub(crate) fn debug(text: &str) -> (shown: String)
    ensures
        shown@ == debug_text(text@),
{
    format!("{:?}", text)
}

/// The scalar value of a character.
pub fn code_of(c: char) -> (code: u32)
    ensures
        code == c as u32,
        code as nat == c as nat,
        code as int == c as int,
{
    c as u32
}

/// How many bytes a character takes in UTF-8.
pub open spec fn width(c: char) -> nat {
    encode_scalar(c as u32).len()
}

/// How many bytes a character takes in UTF-8.
pub fn char_width(c: char) -> (n: usize)
    ensures
        n == width(c),
        1 <= n <= 4,
{
    let v: u32 = c as u32;
    if v <= 0x7f {
        1
    } else if v <= 0x7ff {
        2
    } else if v <= 0xffff {
        3
    } else {
        4
    }
}

/// How many bytes a text takes in UTF-8.
pub open spec fn byte_len(s: Seq<char>) -> nat {
    encode_utf8(s).len()
}

/// Whether a character is white space: the Unicode `White_Space` property.
pub open spec fn is_space(c: char) -> bool {
    ||| '\u{9}' <= c <= '\u{d}'
    ||| c == ' '
    ||| c == '\u{85}'
    ||| c == '\u{a0}'
    ||| c == '\u{1680}'
    ||| '\u{2000}' <= c <= '\u{200a}'
    ||| c == '\u{2028}'
    ||| c == '\u{2029}'
    ||| c == '\u{202f}'
    ||| c == '\u{205f}'
    ||| c == '\u{3000}'
}

/// Whether a character is white space.
pub fn is_white(c: char) -> (white: bool)
    ensures
        white == is_space(c),
{
    ('\u{9}' <= c && c <= '\u{d}') || c == ' ' || c == '\u{85}' || c == '\u{a0}' || c == '\u{1680}'
        || ('\u{2000}' <= c && c <= '\u{200a}') || c == '\u{2028}' || c == '\u{2029}' || c
        == '\u{202f}' || c == '\u{205f}' || c == '\u{3000}'
}

/// Whether a text holds nothing but white space.
pub open spec fn all_space(s: Seq<char>) -> bool {
    forall|i: int| 0 <= i < s.len() ==> is_space(#[trigger] s[i])
}

/// Whether a text holds nothing but white space.
pub fn is_blank(text: &str) -> (blank: bool)
    ensures
        blank == all_space(text@),
{
    let chars = chars_of(text);
    let mut i: usize = 0;
    while i < chars.len()
        invariant
            chars@ == text@,
            i <= chars@.len(),
            forall|j: int| 0 <= j < i ==> is_space(#[trigger] chars@[j]),
        decreases chars@.len() - i,
    {
        if !is_white(chars[i]) {
            assert(!is_space(text@[i as int]));
            return false;
        }
        i += 1;
    }
    true
}

/// A text without the white space at its start.
pub open spec fn trimmed_start(s: Seq<char>) -> Seq<char>
    decreases s.len(),
{
    if s.len() == 0 || !is_space(s[0]) {
        s
    } else {
        trimmed_start(s.drop_first())
    }
}

/// A text without the white space at its end.
pub open spec fn trimmed_end(s: Seq<char>) -> Seq<char>
    decreases s.len(),
{
    if s.len() == 0 || !is_space(s.last()) {
        s
    } else {
        trimmed_end(s.drop_last())
    }
}

/// A text without the white space around it.
pub open spec fn trimmed(s: Seq<char>) -> Seq<char> {
    trimmed_end(trimmed_start(s))
}

/// A text without the white space around it.
pub fn trim(text: &str) -> (inner: String)
    ensures
        inner@ == trimmed(text@),
{
    let chars = chars_of(text);
    let mut start: usize = 0;
    assert(chars@.skip(0) =~= chars@);
    while start < chars.len() && is_white(chars[start])
        invariant
            start <= chars@.len(),
            trimmed_start(chars@) == trimmed_start(chars@.skip(start as int)),
        decreases chars@.len() - start,
    {
        assert(chars@.skip(start as int).drop_first() =~= chars@.skip(start + 1));
        start += 1;
    }
    let ghost rest = chars@.skip(start as int);
    let mut end: usize = chars.len();
    assert(rest.take(rest.len() as int) =~= rest);
    while end > start && is_white(chars[end - 1])
        invariant
            start <= end <= chars@.len(),
            rest == chars@.skip(start as int),
            trimmed_end(rest) == trimmed_end(rest.take(end - start)),
        decreases end - start,
    {
        assert(rest.take(end - start).drop_last() =~= rest.take(end - start - 1));
        end -= 1;
    }
    assert(chars@.subrange(start as int, end as int) =~= rest.take(end - start));
    text_of(vstd::slice::slice_subrange(chars.as_slice(), start, end))
}

/// A text with every occurrence of another replaced, from the left, none
/// overlapping.
pub open spec fn replaced(s: Seq<char>, needle: Seq<char>, with: Seq<char>) -> Seq<char>
    decreases s.len(),
{
    if s.len() == 0 || needle.len() == 0 {
        s
    } else if occurs_at(s, needle, 0) {
        with + replaced(s.skip(needle.len() as int), needle, with)
    } else {
        seq![s[0]] + replaced(s.drop_first(), needle, with)
    }
}

/// A text with every occurrence of another replaced.
pub fn replace(text: &str, needle: &str, with: &str) -> (r: String)
    requires
        needle@.len() > 0,
    ensures
        r@ == replaced(text@, needle@, with@),
{
    let chars = chars_of(text);
    let sought = chars_of(needle);
    let mut out = String::new();
    let mut i: usize = 0;
    assert(chars@.skip(0) =~= chars@);
    assert(out@ + replaced(chars@, needle@, with@) =~= replaced(chars@, needle@, with@));
    while i < chars.len()
        invariant
            chars@ == text@,
            sought@ == needle@,
            needle@.len() > 0,
            i <= chars@.len(),
            out@ + replaced(chars@.skip(i as int), needle@, with@) == replaced(
                text@,
                needle@,
                with@,
            ),
        decreases chars@.len() - i,
    {
        let ghost rest = chars@.skip(i as int);
        let ghost before = out@;
        if is_at(chars.as_slice(), sought.as_slice(), i) {
            proof {
                assert(rest.subrange(0, needle@.len() as int) =~= chars@.subrange(
                    i as int,
                    i + needle@.len(),
                ));
                assert(occurs_at(rest, needle@, 0));
                assert(rest.skip(needle@.len() as int) =~= chars@.skip(i + needle@.len()));
            }
            out.append(with);
            i += sought.len();
            assert(out@ + replaced(chars@.skip(i as int), needle@, with@) =~= before + replaced(
                rest,
                needle@,
                with@,
            ));
        } else {
            proof {
                if occurs_at(rest, needle@, 0) {
                    assert(rest.subrange(0, needle@.len() as int) =~= chars@.subrange(
                        i as int,
                        i + needle@.len(),
                    ));
                }
                assert(rest.drop_first() =~= chars@.skip(i + 1));
            }
            out.push(chars[i]);
            i += 1;
            assert(out@ + replaced(chars@.skip(i as int), needle@, with@) =~= before + replaced(
                rest,
                needle@,
                with@,
            ));
        }
    }
    assert(out@ + replaced(chars@.skip(i as int), needle@, with@) =~= out@);
    out
}

/// Whether a character is a control character.
pub open spec fn is_control(c: char) -> bool {
    (c as int) < 0x20 || 0x7f <= (c as int) <= 0x9f
}

/// Whether a character is a control character.
pub fn controls(c: char) -> (yes: bool)
    ensures
        yes == is_control(c),
{
    let code: u32 = code_of(c);
    code < 0x20 || (0x7f <= code && code <= 0x9f)
}

/// Whether a text holds a control character.
pub open spec fn has_control(s: Seq<char>) -> bool {
    exists|i: int| 0 <= i < s.len() && is_control(#[trigger] s[i])
}

/// Whether a text holds a control character.
pub fn any_control(text: &str) -> (yes: bool)
    ensures
        yes == has_control(text@),
{
    let chars = chars_of(text);
    let mut i: usize = 0;
    while i < chars.len()
        invariant
            chars@ == text@,
            i <= chars@.len(),
            forall|j: int| 0 <= j < i ==> !is_control(#[trigger] chars@[j]),
        decreases chars@.len() - i,
    {
        if controls(chars[i]) {
            assert(is_control(text@[i as int]));
            return true;
        }
        i += 1;
    }
    false
}

/// Texts in order, with a separator between.
pub open spec fn joined(parts: Seq<Seq<char>>, sep: Seq<char>) -> Seq<char>
    decreases parts.len(),
{
    if parts.len() == 0 {
        Seq::empty()
    } else if parts.len() == 1 {
        parts[0]
    } else {
        joined(parts.drop_last(), sep) + sep + parts.last()
    }
}

/// Texts in order, with a separator between.
pub fn join(parts: &Vec<String>, sep: &str) -> (text: String)
    ensures
        text@ == joined(texts(parts@), sep@),
{
    let ghost all = texts(parts@);
    if parts.len() == 0 {
        return String::new();
    }
    let mut text = parts[0].clone();
    let mut i: usize = 1;
    assert(all.take(1)[0] == parts@[0]@);
    while i < parts.len()
        invariant
            all == texts(parts@),
            1 <= i <= parts@.len(),
            text@ == joined(all.take(i as int), sep@),
        decreases parts@.len() - i,
    {
        assert(all.take(i + 1).drop_last() =~= all.take(i as int));
        text.append(sep);
        text.append(parts[i].as_str());
        i += 1;
    }
    assert(all.take(i as int) =~= all);
    text
}

/// A text in lower case.
pub uninterp spec fn lowered(s: Seq<char>) -> Seq<char>;

/// `str::to_lowercase`: the text in lower case, by the Unicode mapping.
#[verifier::external_body]
pub(crate) fn lowercase(text: &str) -> (lower: String)
    ensures
        lower@ == lowered(text@),
{
    text.to_lowercase()
}

/// What is trimmed is the white space at both ends, and nothing else.
pub proof fn law_only_outer_space_is_trimmed(lead: Seq<char>, core: Seq<char>, trail: Seq<char>)
    requires
        all_space(lead),
        all_space(trail),
        core.len() > 0,
        !is_space(core[0]),
        !is_space(core.last()),
    ensures
        trimmed(lead + core + trail) == core,
        trimmed(lead) == Seq::<char>::empty(),
{
    lemma_trim_lead(lead, core + trail);
    assert(lead + core + trail =~= lead + (core + trail));
    assert((core + trail)[0] == core[0]);
    lemma_trim_trail(core, trail);
    let none = Seq::<char>::empty();
    lemma_trim_lead(lead, none);
    assert(lead + none =~= lead);
}

proof fn lemma_trim_lead(lead: Seq<char>, rest: Seq<char>)
    requires
        all_space(lead),
        rest.len() == 0 || !is_space(rest[0]),
    ensures
        trimmed_start(lead + rest) == rest,
    decreases lead.len(),
{
    let all = lead + rest;
    if lead.len() > 0 {
        let tail = lead.drop_first();
        assert forall|i: int| 0 <= i < tail.len() implies is_space(#[trigger] tail[i]) by {
            assert(tail[i] == lead[i + 1]);
        }
        lemma_trim_lead(tail, rest);
        assert(all[0] == lead[0]);
        assert(all.drop_first() =~= tail + rest);
    } else {
        assert(all =~= rest);
    }
}

proof fn lemma_trim_trail(core: Seq<char>, trail: Seq<char>)
    requires
        all_space(trail),
        core.len() > 0,
        !is_space(core.last()),
    ensures
        trimmed_end(core + trail) == core,
    decreases trail.len(),
{
    let all = core + trail;
    if trail.len() > 0 {
        let short = trail.drop_last();
        assert forall|i: int| 0 <= i < short.len() implies is_space(#[trigger] short[i]) by {
            assert(short[i] == trail[i]);
        }
        lemma_trim_trail(core, short);
        assert(all.last() == trail[trail.len() - 1]);
        assert(all.drop_last() =~= core + short);
    } else {
        assert(all =~= core);
    }
}

/// A text in which another does not stand is left alone, and the first place where
/// it does stand is where it is replaced, the rest in the same way.
pub proof fn law_every_occurrence_is_replaced(
    front: Seq<char>,
    needle: Seq<char>,
    with: Seq<char>,
    rest: Seq<char>,
)
    requires
        needle.len() > 0,
        forall|at: int|
            0 <= at < front.len() ==> !#[trigger] occurs_at(front + needle + rest, needle, at),
    ensures
        replaced(front + needle + rest, needle, with) == front + with + replaced(
            rest,
            needle,
            with,
        ),
    decreases front.len(),
{
    let all = front + needle + rest;
    if front.len() == 0 {
        assert(all.subrange(0, needle.len() as int) =~= needle);
        assert(all.skip(needle.len() as int) =~= rest);
        assert(front + with =~= with);
    } else {
        let tail = front.drop_first();
        assert(!occurs_at(all, needle, 0));
        assert(all.drop_first() =~= tail + needle + rest);
        assert forall|at: int| 0 <= at < tail.len() implies !#[trigger] occurs_at(
            tail + needle + rest,
            needle,
            at,
        ) by {
            assert(!occurs_at(all, needle, at + 1));
            if at + needle.len() <= (tail + needle + rest).len() {
                assert((tail + needle + rest).subrange(at, at + needle.len()) =~= all.subrange(
                    at + 1,
                    at + 1 + needle.len(),
                ));
            }
        }
        law_every_occurrence_is_replaced(tail, needle, with, rest);
        assert(replaced(all, needle, with) =~= front + with + replaced(rest, needle, with));
    }
}

/// A text in which another does not stand is left alone.
pub proof fn law_nothing_else_is_replaced(s: Seq<char>, needle: Seq<char>, with: Seq<char>)
    requires
        needle.len() > 0,
        forall|at: int| !#[trigger] occurs_at(s, needle, at),
    ensures
        replaced(s, needle, with) == s,
    decreases s.len(),
{
    if s.len() > 0 {
        assert(!occurs_at(s, needle, 0));
        let tail = s.drop_first();
        assert forall|at: int| !#[trigger] occurs_at(tail, needle, at) by {
            assert(!occurs_at(s, needle, at + 1));
            if 0 <= at && at + needle.len() <= tail.len() {
                assert(tail.subrange(at, at + needle.len()) =~= s.subrange(
                    at + 1,
                    at + 1 + needle.len(),
                ));
            }
        }
        law_nothing_else_is_replaced(tail, needle, with);
        assert(replaced(s, needle, with) =~= s);
    }
}

/// Joined texts stand in order, with the separator between two and nowhere else.
pub proof fn law_texts_are_joined_in_order(parts: Seq<Seq<char>>, last: Seq<char>, sep: Seq<char>)
    ensures
        joined(Seq::empty(), sep) == Seq::<char>::empty(),
        parts.len() == 0 ==> joined(parts.push(last), sep) == last,
        parts.len() > 0 ==> joined(parts.push(last), sep) == joined(parts, sep) + sep + last,
{
    assert(parts.push(last).drop_last() =~= parts);
}

/// Two hexadecimal digits give a byte: sixteen times the one and the other.
pub proof fn law_a_byte_is_two_hexadecimal_digits(byte: u8)
    ensures
        hex(byte as nat, 2, false).len() == 2,
        hex(byte as nat, 2, false)[0] == "0123456789abcdef"@[byte as int / 16],
        hex(byte as nat, 2, false)[1] == "0123456789abcdef"@[byte as int % 16],
        hex(byte as nat, 2, true)[0] == "0123456789ABCDEF"@[byte as int / 16],
        hex(byte as nat, 2, true)[1] == "0123456789ABCDEF"@[byte as int % 16],
{
    reveal_strlit("0123456789abcdef");
    reveal_strlit("0123456789ABCDEF");
    reveal_with_fuel(hex, 3);
    let high = byte as int / 16;
    let low = byte as int % 16;
    assert(0 <= high < 16 && 0 <= low < 16);
    lemma_hex_digit(high as nat);
    lemma_hex_digit(low as nat);
}

proof fn lemma_hex_digit(d: nat)
    requires
        d < 16,
    ensures
        hex_digit(d, false) == "0123456789abcdef"@[d as int],
        hex_digit(d, true) == "0123456789ABCDEF"@[d as int],
{
    reveal_strlit("0123456789abcdef");
    reveal_strlit("0123456789ABCDEF");
}

/// A signed number is its amount in decimal, with a minus sign where it is below
/// zero.
pub proof fn law_a_minus_sign_stands_below_zero(n: int)
    ensures
        n >= 0 ==> signed_decimal(n) == decimal(n as nat),
        n < 0 ==> signed_decimal(n) == seq!['-'] + decimal((-n) as nat),
{
}

} // verus!
