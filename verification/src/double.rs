//! Quotients of whole numbers as a binary64 float computes and prints them, in
//! integer arithmetic.
//!
//! A `Double` stands for `m * 2^e`. Conversion and division round to the
//! nearest value with a 53-bit significand, and halfway cases go to the even
//! significand; printing to a fixed number of decimals rounds the exact value
//! of the double, halfway cases to the even digit.
use vstd::arithmetic::mul::*;
use vstd::arithmetic::power2::*;
use vstd::prelude::*;
use vstd::string::*;

use crate::text::{decimal, digit, push_u128};

verus! {

/// The value `m * 2^e`.
#[derive(Clone, Copy)]
pub struct Double {
    pub m: u64,
    pub e: i32,
}

/// Two to the 52nd power: the smallest 53-bit significand.
pub open spec fn low() -> nat {
    0x10_0000_0000_0000
}

/// Two to the 53rd power: one past the largest 53-bit significand.
pub open spec fn high() -> nat {
    0x20_0000_0000_0000
}

/// `num / den` to the nearest whole number, halfway cases to the even one.
pub open spec fn nearest_whole(num: nat, den: nat) -> nat {
    let q = num / den;
    let r = num % den;
    if 2 * r > den || (2 * r == den && q % 2 == 1) {
        q + 1
    } else {
        q
    }
}

/// How often `num` must double for `num / den` to reach 53 significant bits.
pub open spec fn doublings(num: nat, den: nat) -> nat
    decreases 2 * (low() * den) - num,
{
    if num == 0 || num >= low() * den {
        0
    } else {
        1 + doublings(2 * num, den)
    }
}

/// How often `den` must double for `num / den` to fall to 53 significant bits.
pub open spec fn halvings(num: nat, den: nat) -> nat
    decreases num - den,
{
    if den == 0 || num < high() * den {
        0
    } else {
        1 + halvings(num, 2 * den)
    }
}

/// The significand and exponent nearest to `num / den`.
pub open spec fn nearest(num: nat, den: nat) -> (nat, int) {
    if num == 0 {
        (0, 0)
    } else {
        let up = doublings(num, den);
        let down = halvings(num, den);
        (nearest_whole(num * pow2(up), den * pow2(down)), down - up)
    }
}

/// The whole part of `m * 2^e`.
pub open spec fn whole_part(m: nat, e: int) -> nat {
    if e >= 0 {
        m * pow2(e as nat)
    } else {
        m / pow2((-e) as nat)
    }
}

/// `scale * m * 2^e` to the nearest whole number, halfway cases to the even one.
pub open spec fn scaled_whole(m: nat, e: int, scale: nat) -> nat {
    if e >= 0 {
        m * scale * pow2(e as nat)
    } else {
        nearest_whole(m * scale, pow2((-e) as nat))
    }
}

fn round_quotient(num: u128, den: u128) -> (q: u128)
    requires
        0 < den <= u128::MAX / 4,
    ensures
        q == nearest_whole(num as nat, den as nat),
{
    let q: u128 = num / den;
    let r: u128 = num % den;
    if 2 * r > den || (2 * r == den && q % 2 == 1) {
        assert(q < u128::MAX) by (nonlinear_arith)
            requires
                q == num / den,
                den > 1,
                num <= u128::MAX,
        ;
        q + 1
    } else {
        q
    }
}

proof fn lemma_mul_pow2_step(n: nat, k: nat)
    ensures
        2 * (n * pow2(k)) == n * pow2(k + 1),
{
    lemma_pow2_unfold(k + 1);
    lemma_mul_is_associative(n as int, 2, pow2(k) as int);
    lemma_mul_is_associative(2, n as int, pow2(k) as int);
    lemma_mul_is_commutative(n as int, 2);
}

proof fn lemma_below_pow2_117(n: nat, k: nat)
    requires
        pow2(k) <= n,
        n < 0x10000000000000000 * high(),
    ensures
        k < 117,
{
    lemma2_to64();
    lemma2_to64_rest();
    lemma_pow2_adds(64, 53);
    if k > 117 {
        lemma_pow2_strictly_increases(117, k);
    }
}

impl Double {
    /// The double nearest to the quotient of two whole numbers.
    pub fn quotient(num: u64, den: u64) -> (d: Double)
        requires
            den > 0,
        ensures
            (d.m as nat, d.e as int) == nearest(num as nat, den as nat),
            -117 < d.e <= 64,
            num < high() * den ==> d.e <= 0,
            d.m <= high(),
            num > 0 ==> d.m >= low(),
    {
        if num == 0 {
            return Double { m: 0, e: 0 };
        }
        let mut n: u128 = num as u128;
        let mut up: i32 = 0;
        let least: u128 = 0x10_0000_0000_0000u128 * (den as u128);
        proof {
            lemma2_to64();
            assert(num * pow2(0) == num) by (nonlinear_arith)
                requires
                    pow2(0) == 1,
            ;
        }
        while n < least
            invariant
                0 <= up,
                0 < n,
                up > 0 ==> n < 2 * least,
                up == 0 ==> n == num,
                least == low() * den,
                0 < den <= u64::MAX,
                0 < num <= u64::MAX,
                n == num * pow2(up as nat),
                doublings(num as nat, den as nat) == up + doublings(n as nat, den as nat),
            decreases 2 * least - n,
        {
            proof {
                lemma_mul_pow2_step(num as nat, up as nat);
                lemma_pow2_pos(up as nat);
                lemma_mul_inequality(1, num as int, pow2(up as nat) as int);
                lemma_mul_is_commutative(num as int, pow2(up as nat) as int);
                assert(low() * den <= low() * u64::MAX);
                lemma_below_pow2_117(n as nat, up as nat);
            }
            n = n * 2;
            up = up + 1;
        }
        let mut d: u128 = den as u128;
        let mut down: i32 = 0;
        proof {
            assert(den * pow2(0) == den) by (nonlinear_arith)
                requires
                    pow2(0) == 1,
            ;
            lemma_pow2_pos(up as nat);
            lemma_mul_inequality(1, num as int, pow2(up as nat) as int);
            lemma_mul_is_commutative(num as int, pow2(up as nat) as int);
            assert(low() * den <= low() * u64::MAX);
            if up > 0 {
                lemma_below_pow2_117(n as nat, up as nat);
            }
        }
        while num as u128 >= 0x20_0000_0000_0000u128 * d
            invariant
                0 <= down <= 64,
                0 < d <= 2 * u64::MAX,
                down as int <= d,
                den <= d,
                down == 0 ==> d == den,
                down > 0 ==> low() * d <= num,
                d == den * pow2(down as nat),
                den > 0,
                halvings(num as nat, den as nat) == down + halvings(num as nat, d as nat),
            decreases num - d,
        {
            proof {
                lemma_mul_pow2_step(den as nat, down as nat);
                lemma_pow2_pos(down as nat);
                lemma_mul_inequality(1, den as int, pow2(down as nat) as int);
                lemma_mul_is_commutative(den as int, pow2(down as nat) as int);
                if down >= 64 {
                    lemma2_to64();
                }
            }
            d = d * 2;
            down = down + 1;
        }
        proof {
            if up > 0 {
                assert(num < low() * den);
                assert(low() * den <= low() * d) by (nonlinear_arith)
                    requires
                        den <= d,
                ;
            }
        }
        let q: u128 = round_quotient(n, d);
        assert(low() <= q <= high()) by {
            assert(low() * d <= n < high() * d);
            assert(low() <= n / d < high()) by (nonlinear_arith)
                requires
                    low() * d <= n < high() * d,
                    d > 0,
            ;
        }
        Double { m: q as u64, e: down - up }
    }

    /// The double nearest to `self / other`, for a divisor above zero.
    pub fn over(self, other: Double) -> (d: Double)
        requires
            low() <= other.m <= high(),
            self.m <= high(),
            -1000 <= self.e <= 1000,
            -1000 <= other.e <= 1000,
        ensures
            d.m == nearest(self.m as nat, other.m as nat).0,
            d.e == nearest(self.m as nat, other.m as nat).1 + self.e - other.e,
            -117 + self.e - other.e < d.e <= self.e - other.e,
            d.m <= high(),
            self.m > 0 ==> d.m >= low(),
    {
        let q = Double::quotient(self.m, other.m);
        Double { m: q.m, e: q.e + self.e - other.e }
    }

    /// The whole part, or `u64::MAX` where it is larger than that.
    pub fn truncated(self) -> (n: u64)
        requires
            -4000 <= self.e <= 4000,
        ensures
            n == if whole_part(self.m as nat, self.e as int) > u64::MAX {
                u64::MAX as nat
            } else {
                whole_part(self.m as nat, self.e as int)
            },
    {
        let mut m: u64 = self.m;
        proof {
            lemma2_to64();
            assert(self.m * pow2(0) == self.m) by (nonlinear_arith)
                requires
                    pow2(0) == 1,
            ;
        }
        if self.e >= 0 {
            let mut k: i32 = 0;
            while k < self.e
                invariant
                    0 <= k <= self.e <= 4000,
                    m == self.m * pow2(k as nat),
                decreases self.e - k,
            {
                proof {
                    lemma_mul_pow2_step(self.m as nat, k as nat);
                    if k + 1 < self.e {
                        lemma_pow2_strictly_increases((k + 1) as nat, self.e as nat);
                    }
                    lemma_mul_inequality(
                        pow2((k + 1) as nat) as int,
                        pow2(self.e as nat) as int,
                        self.m as int,
                    );
                    lemma_mul_is_commutative(pow2((k + 1) as nat) as int, self.m as int);
                    lemma_mul_is_commutative(pow2(self.e as nat) as int, self.m as int);
                }
                if m > u64::MAX / 2 {
                    return u64::MAX;
                }
                m = m * 2;
                k = k + 1;
            }
            m
        } else {
            let mut k: i32 = 0;
            let last: i32 = -self.e;
            assert(self.m as nat / pow2(0) == self.m) by {
                assert(pow2(0) == 1);
            }
            while k < last
                invariant
                    0 <= k <= last <= 4000,
                    m == self.m as nat / pow2(k as nat),
                decreases last - k,
            {
                proof {
                    lemma_pow2_unfold((k + 1) as nat);
                    lemma_pow2_pos(k as nat);
                    vstd::arithmetic::div_mod::lemma_div_denominator(
                        self.m as int,
                        pow2(k as nat) as int,
                        2,
                    );
                    lemma_mul_is_commutative(pow2(k as nat) as int, 2);
                }
                m = m / 2;
                k = k + 1;
            }
            m
        }
    }

    /// The value times `scale`, to the nearest whole number.
    pub fn scaled(self, scale: u64) -> (v: u128)
        requires
            self.m <= high(),
            0 < scale <= 1000,
            -4000 <= self.e <= 64,
        ensures
            v == scaled_whole(self.m as nat, self.e as int, scale as nat),
    {
        assert(self.m * scale <= high() * 1000) by (nonlinear_arith)
            requires
                self.m <= high(),
                0 < scale <= 1000,
        ;
        let base: u128 = self.m as u128 * scale as u128;
        proof {
            lemma2_to64();
            lemma2_to64_rest();
        }
        if self.e >= 0 {
            let mut k: i32 = 0;
            let mut v: u128 = base;
            assert(base * pow2(0) == base) by (nonlinear_arith)
                requires
                    pow2(0) == 1,
            ;
            while k < self.e
                invariant
                    0 <= k <= self.e <= 64,
                    base <= high() * 1000,
                    v == base * pow2(k as nat),
                decreases self.e - k,
            {
                proof {
                    lemma2_to64();
                    lemma2_to64_rest();
                    lemma_mul_pow2_step(base as nat, k as nat);
                    lemma_pow2_strictly_increases(k as nat, 64);
                    lemma_mul_upper_bound(
                        base as int,
                        (high() * 1000) as int,
                        pow2(k as nat) as int,
                        0x10000000000000000,
                    );
                    assert(2 * (high() * 1000) * 0x10000000000000000 <= u128::MAX);
                }
                v = v * 2;
                k = k + 1;
            }
            v
        } else {
            let last: i32 = -self.e;
            if last > 64 {
                proof {
                    lemma_pow2_strictly_increases(64, last as nat);
                    assert(base as nat / pow2(last as nat) == 0) by (nonlinear_arith)
                        requires
                            base < pow2(last as nat),
                            base >= 0,
                    ;
                    assert(base as nat % pow2(last as nat) == base) by (nonlinear_arith)
                        requires
                            base < pow2(last as nat),
                            base >= 0,
                    ;
                }
                return 0;
            }
            let mut p: u128 = 1;
            let mut k: i32 = 0;
            while k < last
                invariant
                    0 <= k <= last <= 64,
                    p == pow2(k as nat),
                    p <= 0x10000000000000000,
                decreases last - k,
            {
                proof {
                    lemma2_to64();
                    lemma2_to64_rest();
                    lemma_pow2_unfold((k + 1) as nat);
                    if k + 1 < 64 {
                        lemma_pow2_strictly_increases((k + 1) as nat, 64);
                    }
                }
                p = p * 2;
                k = k + 1;
            }
            round_quotient(base, p)
        }
    }
}

/// The parts of a value as text: `v` is the value in units of the last decimal,
/// and `scale` is ten or a hundred of those to the whole.
pub open spec fn fixed_text(v: nat, scale: nat) -> Seq<char> {
    let whole = decimal(v / scale).push('.');
    if scale == 100 {
        whole.push(digit(v / 10 % 10)).push(digit(v % 10))
    } else {
        whole.push(digit(v % 10))
    }
}

/// `num / den` as a double prints it, to one decimal (`scale` ten) or two (a hundred).
pub open spec fn quotient_text(num: nat, den: nat, scale: nat) -> Seq<char> {
    let a = nearest(num, 1);
    let b = nearest(den, 1);
    let q = nearest(a.0, b.0);
    fixed_text(scaled_whole(q.0, q.1 + a.1 - b.1, scale), scale)
}

/// Append `num / den` as a double prints it, to one decimal or two.
pub fn push_quotient(text: &mut String, num: u64, den: u64, scale: u64)
    requires
        den > 0,
        scale == 10 || scale == 100,
    ensures
        final(text)@ == old(text)@ + quotient_text(num as nat, den as nat, scale as nat),
{
    let a = Double::quotient(num, 1);
    let b = Double::quotient(den, 1);
    proof {
        lemma_whole_exponent(num as nat);
        lemma_whole_exponent(den as nat);
    }
    let v: u128 = a.over(b).scaled(scale);
    push_u128(text, v / (scale as u128));
    text.push('.');
    if scale == 100 {
        let tenths: u8 = 48 + (v / 10 % 10) as u8;
        text.push(tenths as char);
    }
    let last: u8 = 48 + (v % 10) as u8;
    text.push(last as char);
    assert(text@ =~= old(text)@ + fixed_text(v as nat, scale as nat));
}

/// A whole number below 2^64 needs at most 52 doublings and at most 11 halvings.
proof fn lemma_whole_exponent(n: nat)
    requires
        n <= u64::MAX,
    ensures
        -52 <= nearest(n, 1).1 <= 12,
{
    if n > 0 {
        lemma2_to64();
        lemma2_to64_rest();
        assert(n * pow2(52) >= low()) by (nonlinear_arith)
            requires
                n >= 1,
                pow2(52) == low(),
        ;
        lemma_doublings_bound(n, 52);
        lemma_halvings_bound(n, 1, 11);
    }
}

proof fn lemma_doublings_bound(n: nat, k: nat)
    requires
        n > 0,
        n * pow2(k) >= low(),
    ensures
        doublings(n, 1) <= k,
    decreases k,
{
    if n < low() {
        if k == 0 {
            lemma2_to64();
        } else {
            lemma_mul_pow2_step(n, (k - 1) as nat);
            lemma_mul_is_associative(2, n as int, pow2((k - 1) as nat) as int);
            lemma_doublings_bound(2 * n, (k - 1) as nat);
        }
    }
}

proof fn lemma_halvings_bound(n: nat, d: nat, k: nat)
    requires
        d > 0,
        n < high() * (d * pow2(k)),
    ensures
        halvings(n, d) <= k,
    decreases k,
{
    if n >= high() * d {
        if k == 0 {
            lemma2_to64();
            assert(d * pow2(0) == d) by (nonlinear_arith)
                requires
                    pow2(0) == 1,
            ;
        } else {
            lemma_mul_pow2_step(d, (k - 1) as nat);
            lemma_mul_is_associative(2, d as int, pow2((k - 1) as nat) as int);
            lemma_halvings_bound(n, 2 * d, (k - 1) as nat);
        }
    }
}

/// A byte count as a person reads it.
pub open spec fn human_bytes_text(bytes: nat) -> Seq<char> {
    if bytes >= 0x4000_0000 {
        quotient_text(bytes, 0x4000_0000, 10) + " GiB"@
    } else if bytes >= 0x10_0000 {
        quotient_text(bytes, 0x10_0000, 10) + " MiB"@
    } else if bytes >= 0x400 {
        quotient_text(bytes, 0x400, 10) + " KiB"@
    } else {
        decimal(bytes) + " B"@
    }
}

/// A duration in nanoseconds as a person reads it.
pub open spec fn human_ns_text(ns: nat) -> Seq<char> {
    if ns >= 1_000_000_000 {
        quotient_text(ns, 1_000_000_000, 100) + " s"@
    } else if ns >= 1_000_000 {
        quotient_text(ns, 1_000_000, 100) + " ms"@
    } else if ns >= 1_000 {
        quotient_text(ns, 1_000, 100) + " \u{b5}s"@
    } else {
        decimal(ns) + " ns"@
    }
}

/// Bytes as a person reads them: one decimal at the largest binary unit that
/// fits, or the plain count.
pub fn human_bytes(bytes: u64) -> (text: String)
    ensures
        text@ == human_bytes_text(bytes as nat),
{
    let mut text = String::new();
    if bytes >= 0x4000_0000 {
        push_quotient(&mut text, bytes, 0x4000_0000, 10);
        text.append(" GiB");
    } else if bytes >= 0x10_0000 {
        push_quotient(&mut text, bytes, 0x10_0000, 10);
        text.append(" MiB");
    } else if bytes >= 0x400 {
        push_quotient(&mut text, bytes, 0x400, 10);
        text.append(" KiB");
    } else {
        push_u128(&mut text, bytes as u128);
        text.append(" B");
    }
    assert(text@ =~= human_bytes_text(bytes as nat));
    text
}

/// Nanoseconds as a person reads them: two decimals at the largest unit that
/// fits, or the plain count.
pub fn human_ns(ns: u64) -> (text: String)
    ensures
        text@ == human_ns_text(ns as nat),
{
    let mut text = String::new();
    if ns >= 1_000_000_000 {
        push_quotient(&mut text, ns, 1_000_000_000, 100);
        text.append(" s");
    } else if ns >= 1_000_000 {
        push_quotient(&mut text, ns, 1_000_000, 100);
        text.append(" ms");
    } else if ns >= 1_000 {
        push_quotient(&mut text, ns, 1_000, 100);
        text.append(" \u{b5}s");
    } else {
        push_u128(&mut text, ns as u128);
        text.append(" ns");
    }
    assert(text@ =~= human_ns_text(ns as nat));
    text
}

/// `count / (ns / 1e9)` as doubles compute it, truncated to a whole number.
pub open spec fn per_second(count: nat, ns: nat) -> nat {
    let c = nearest(count, 1);
    let n = nearest(ns, 1);
    let g = nearest(1_000_000_000, 1);
    let seconds = nearest(n.0, g.0);
    let rate = nearest(c.0, seconds.0);
    let whole = whole_part(rate.0, rate.1 + c.1 - (seconds.1 + n.1 - g.1));
    if whole > u64::MAX {
        u64::MAX as nat
    } else {
        whole
    }
}

/// How many per second `count` is over `ns` nanoseconds.
pub fn rate(count: u64, ns: u64) -> (r: u64)
    requires
        ns > 0,
    ensures
        r == per_second(count as nat, ns as nat),
{
    let c = Double::quotient(count, 1);
    let n = Double::quotient(ns, 1);
    let g = Double::quotient(1_000_000_000, 1);
    let seconds = n.over(g);
    c.over(seconds).truncated()
}

/// Rounding to a whole number goes to the nearest one, and to the even one of two
/// that are equally near.
pub proof fn law_rounding_goes_to_the_nearest(num: nat, den: nat)
    requires
        den > 0,
    ensures
        ({
            let q = nearest_whole(num, den);
            &&& 2 * num <= 2 * (q * den) + den
            &&& 2 * (q * den) <= 2 * num + den
            &&& 2 * num == 2 * (q * den) + den || 2 * (q * den) == 2 * num + den ==> q % 2 == 0
        }),
{
    let f = num / den;
    let r = num % den;
    assert(num == f * den + r && 0 <= r < den) by (nonlinear_arith)
        requires
            den > 0,
            f == num / den,
            r == num % den,
    ;
    assert((f + 1) * den == f * den + den) by (nonlinear_arith);
}

/// A value in units of its last decimal is written with its whole part, a point and
/// one decimal or two.
pub proof fn law_decimals_stand_behind_the_point(v: nat)
    ensures
        fixed_text(v, 10) == decimal(v / 10) + seq!['.'] + decimal(v % 10),
        fixed_text(v, 100) == decimal(v / 100) + seq!['.'] + decimal(v / 10 % 10) + decimal(v % 10),
{
    assert(v % 10 < 10 && v / 10 % 10 < 10);
    assert(fixed_text(v, 10) =~= decimal(v / 10) + seq!['.'] + decimal(v % 10));
    assert(fixed_text(v, 100) =~= decimal(v / 100) + seq!['.'] + decimal(v / 10 % 10) + decimal(
        v % 10,
    ));
}

/// A count is shown in the largest unit that it fills.
pub proof fn law_a_count_is_shown_in_its_unit(n: nat)
    ensures
        n < 1024 ==> human_bytes_text(n) == decimal(n) + " B"@,
        1024 <= n < 1024 * 1024 ==> human_bytes_text(n) == quotient_text(n, 1024, 10) + " KiB"@,
        1024 * 1024 <= n < 1024 * 1024 * 1024 ==> human_bytes_text(n) == quotient_text(
            n,
            1024 * 1024,
            10,
        ) + " MiB"@,
        n >= 1024 * 1024 * 1024 ==> human_bytes_text(n) == quotient_text(n, 1024 * 1024 * 1024, 10)
            + " GiB"@,
        n < 1_000 ==> human_ns_text(n) == decimal(n) + " ns"@,
        1_000 <= n < 1_000_000 ==> human_ns_text(n) == quotient_text(n, 1_000, 100)
            + " \u{b5}s"@,
        1_000_000 <= n < 1_000_000_000 ==> human_ns_text(n) == quotient_text(n, 1_000_000, 100)
            + " ms"@,
        n >= 1_000_000_000 ==> human_ns_text(n) == quotient_text(n, 1_000_000_000, 100) + " s"@,
{
}

/// What the doublings of a quotient come to: 53 significant bits and no more.
proof fn lemma_doublings_reach(num: nat, den: nat)
    requires
        num > 0,
    ensures
        num * pow2(doublings(num, den)) >= low() * den,
        doublings(num, den) > 0 ==> num * pow2(doublings(num, den)) < high() * den,
        num >= low() * den <==> doublings(num, den) == 0,
    decreases 2 * (low() * den) - num,
{
    lemma2_to64();
    if num < low() * den {
        lemma_doublings_reach(2 * num, den);
        let rest = doublings(2 * num, den);
        lemma_pow2_adds(1, rest);
        assert(num * pow2(1 + rest) == 2 * num * pow2(rest)) by (nonlinear_arith)
            requires
                pow2(1 + rest) == 2 * pow2(rest),
        ;
        if rest == 0 {
            assert(2 * num * pow2(0) == 2 * num) by (nonlinear_arith)
                requires
                    pow2(0) == 1,
            ;
            assert(2 * num < high() * den) by (nonlinear_arith)
                requires
                    num < low() * den,
                    high() == 2 * low(),
            ;
        }
    } else {
        assert(num * pow2(0) == num) by (nonlinear_arith)
            requires
                pow2(0) == 1,
        ;
    }
}

/// What the halvings of a quotient come to: 53 significant bits and no fewer.
proof fn lemma_halvings_reach(num: nat, den: nat)
    requires
        den > 0,
    ensures
        num < high() * (den * pow2(halvings(num, den))),
        halvings(num, den) > 0 ==> num >= low() * (den * pow2(halvings(num, den))),
        num < high() * den <==> halvings(num, den) == 0,
    decreases num - den,
{
    lemma2_to64();
    if num >= high() * den {
        assert(num > den) by (nonlinear_arith)
            requires
                num >= high() * den,
                high() > 1,
                den > 0,
        ;
        lemma_halvings_reach(num, 2 * den);
        let rest = halvings(num, 2 * den);
        lemma_pow2_adds(1, rest);
        assert(den * pow2(1 + rest) == 2 * den * pow2(rest)) by (nonlinear_arith)
            requires
                pow2(1 + rest) == 2 * pow2(rest),
        ;
        if rest == 0 {
            assert(2 * den * pow2(0) == 2 * den) by (nonlinear_arith)
                requires
                    pow2(0) == 1,
            ;
            assert(num >= low() * (2 * den)) by (nonlinear_arith)
                requires
                    num >= high() * den,
                    high() == 2 * low(),
            ;
        }
    } else {
        assert(den * pow2(0) == den) by (nonlinear_arith)
            requires
                pow2(0) == 1,
        ;
    }
}

/// A quotient that is a whole number of up to 53 bits, but for a power of two, has
/// that number as its significand, but for a power of two.
proof fn lemma_exact_quotient(num: nat, den: nat, k: nat, p: nat, q: nat) -> (y: nat)
    requires
        num > 0,
        den > 0,
        0 < k < high(),
        num * pow2(p) == k * den * pow2(q),
    ensures
        nearest(num, den).0 == k * pow2(y),
        nearest(num, den).1 == q - p - y,
{
    let up = doublings(num, den);
    let down = halvings(num, den);
    lemma_doublings_reach(num, den);
    lemma_halvings_reach(num, den);
    lemma2_to64();
    let top = num * pow2(up);
    let bottom = den * pow2(down);
    assert(low() * bottom <= top < high() * bottom) by {
        if up == 0 {
            assert(top == num) by (nonlinear_arith)
                requires
                    top == num * pow2(up),
                    pow2(up) == 1,
            ;
        } else {
            assert(num < high() * den) by (nonlinear_arith)
                requires
                    num < low() * den,
                    low() <= high(),
            ;
        }
        if down == 0 {
            assert(bottom == den) by (nonlinear_arith)
                requires
                    bottom == den * pow2(down),
                    pow2(down) == 1,
            ;
        }
    }
    let a = q + up;
    let b = down + p;
    lemma_pow2_adds(q, up);
    lemma_pow2_adds(down, p);
    lemma_pow2_pos(p);
    lemma_pow2_pos(a);
    lemma_pow2_pos(b);
    let (pa, pb, pp, pu, pq, pd) = (pow2(a), pow2(b), pow2(p), pow2(up), pow2(q), pow2(down));
    assert(top * pp == k * den * pa) by (nonlinear_arith)
        requires
            top == num * pu,
            num * pp == k * den * pq,
            pa == pq * pu,
    ;
    assert(bottom * pp == den * pb) by (nonlinear_arith)
        requires
            bottom == den * pd,
            pb == pd * pp,
    ;
    assert(low() * pb <= k * pa) by (nonlinear_arith)
        requires
            low() * bottom <= top,
            top * pp == k * den * pa,
            bottom * pp == den * pb,
            den > 0,
            pp > 0,
    {
        assert(low() * bottom * pp <= top * pp);
        assert(low() * (den * pb) <= k * den * pa);
        assert(den * (low() * pb) <= den * (k * pa));
    }
    if a < b {
        lemma_pow2_adds(a + 1, (b - a - 1) as nat);
        lemma_pow2_pos((b - a - 1) as nat);
        lemma_pow2_adds(a, 1);
        let gap = pow2((b - a - 1) as nat);
        assert(false) by (nonlinear_arith)
            requires
                low() * pb <= k * pa,
                pb == pow2(a + 1) * gap,
                pow2(a + 1) == pa * 2,
                gap >= 1,
                pa > 0,
                k < high(),
                high() == 2 * low(),
        {
            assert(pb >= pa * 2);
            assert(low() * pb >= low() * (pa * 2));
            assert(k * pa < high() * pa);
        }
    }
    let y = (a - b) as nat;
    lemma_pow2_adds(b, y);
    let py = pow2(y);
    assert(top == k * py * bottom) by (nonlinear_arith)
        requires
            top * pp == k * den * pa,
            bottom * pp == den * pb,
            pa == pb * py,
            pp > 0,
    {
        assert(k * den * (pb * py) == k * py * (den * pb));
        assert(top * pp == (k * py * bottom) * pp);
    }
    assert(bottom > 0) by (nonlinear_arith)
        requires
            low() * bottom <= top < high() * bottom,
    ;
    let m = k * py;
    assert(top / bottom == m && top % bottom == 0) by (nonlinear_arith)
        requires
            top == m * bottom,
            bottom > 0,
    ;
    y
}

/// A whole number of up to 53 bits is kept as it is.
proof fn lemma_exact_whole(n: nat) -> (y: nat)
    requires
        0 < n < high(),
    ensures
        nearest(n, 1).0 == n * pow2(y),
        nearest(n, 1).1 == -y,
{
    lemma2_to64();
    assert(n * pow2(0) == n * 1 * pow2(0)) by (nonlinear_arith);
    lemma_exact_quotient(n, 1, n, 0, 0)
}

/// A count that is `r` in every one of `s` whole seconds is a rate of `r`.
pub proof fn law_a_steady_count_is_its_rate(r: nat, s: nat)
    requires
        r > 0,
        s > 0,
        r * s < high(),
        s * 1_000_000_000 < high(),
    ensures
        per_second(r * s, s * 1_000_000_000) == r,
{
    let count = r * s;
    let giga: nat = 1_000_000_000;
    let ns = s * giga;
    assert(0 < count && r <= count && s <= count) by (nonlinear_arith)
        requires
            r > 0,
            s > 0,
            count == r * s,
    ;
    let y1 = lemma_exact_whole(count);
    let y2 = lemma_exact_whole(ns);
    let y3 = lemma_exact_whole(giga);
    let (p1, p2, p3) = (pow2(y1), pow2(y2), pow2(y3));
    lemma_pow2_pos(y1);
    lemma_pow2_pos(y2);
    lemma_pow2_pos(y3);
    assert(ns * p2 * p3 == s * (giga * p3) * p2) by (nonlinear_arith)
        requires
            ns == s * giga,
    ;
    assert(ns * p2 > 0 && giga * p3 > 0) by (nonlinear_arith)
        requires
            ns > 0,
            p2 > 0,
            p3 > 0,
            giga > 0,
    ;
    let y4 = lemma_exact_quotient(ns * p2, giga * p3, s, y3, y2);
    let p4 = pow2(y4);
    lemma_pow2_pos(y4);
    assert(count * p1 * p4 == r * (s * p4) * p1) by (nonlinear_arith)
        requires
            count == r * s,
    ;
    assert(count * p1 > 0 && s * p4 > 0) by (nonlinear_arith)
        requires
            count > 0,
            p1 > 0,
            p4 > 0,
            s > 0,
    ;
    let y5 = lemma_exact_quotient(count * p1, s * p4, r, y4, y1);
    lemma_whole_part_exact(r, y5);
}

proof fn lemma_whole_part_exact(k: nat, y: nat)
    ensures
        whole_part(k * pow2(y), -y) == k,
{
    lemma2_to64();
    lemma_pow2_pos(y);
    let p = pow2(y);
    assert(k * p / p == k) by (nonlinear_arith)
        requires
            p > 0,
    ;
    if y == 0 {
        assert(k * pow2(0) * pow2(0) == k) by (nonlinear_arith)
            requires
                pow2(0) == 1,
        ;
    }
}

/// A whole multiple of a unit is shown as that whole number, with nothing behind
/// the point.
pub proof fn law_a_whole_multiple_is_shown_whole(k: nat, den: nat)
    requires
        k > 0,
        den > 0,
        k * den < high(),
    ensures
        quotient_text(k * den, den, 10) == decimal(k) + ".0"@,
        quotient_text(k * den, den, 100) == decimal(k) + ".00"@,
{
    let num = k * den;
    assert(0 < num && k <= num && den <= num) by (nonlinear_arith)
        requires
            k > 0,
            den > 0,
            num == k * den,
    ;
    let y1 = lemma_exact_whole(num);
    let y2 = lemma_exact_whole(den);
    let (p1, p2) = (pow2(y1), pow2(y2));
    lemma_pow2_pos(y1);
    lemma_pow2_pos(y2);
    assert(num * p1 * p2 == k * (den * p2) * p1) by (nonlinear_arith)
        requires
            num == k * den,
    ;
    assert(num * p1 > 0 && den * p2 > 0) by (nonlinear_arith)
        requires
            num > 0,
            den > 0,
            p1 > 0,
            p2 > 0,
    ;
    let y3 = lemma_exact_quotient(num * p1, den * p2, k, y2, y1);
    lemma_scaled_exact(k, y3, 10);
    lemma_scaled_exact(k, y3, 100);
    reveal_strlit(".0");
    reveal_strlit(".00");
    assert(k * 10 / 10 == k && k * 10 % 10 == 0);
    assert(k * 100 / 100 == k && k * 100 % 10 == 0 && k * 100 / 10 % 10 == 0);
    assert(digit(0) == '0');
    assert(quotient_text(num, den, 10) =~= decimal(k) + ".0"@);
    assert(quotient_text(num, den, 100) =~= decimal(k) + ".00"@);
}

proof fn lemma_scaled_exact(k: nat, y: nat, scale: nat)
    ensures
        scaled_whole(k * pow2(y), -y, scale) == k * scale,
{
    lemma2_to64();
    lemma_pow2_pos(y);
    let p = pow2(y);
    assert(k * p * scale == (k * scale) * p) by (nonlinear_arith);
    let whole = k * scale;
    assert(whole * p / p == whole && whole * p % p == 0) by (nonlinear_arith)
        requires
            p > 0,
    ;
    if y == 0 {
        assert(k * pow2(0) * scale * pow2(0) == k * scale) by (nonlinear_arith)
            requires
                pow2(0) == 1,
        ;
    }
}

} // verus!
