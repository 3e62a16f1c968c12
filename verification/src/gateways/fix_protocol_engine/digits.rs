//! Numbers written as decimal digits.

use vstd::prelude::*;
use crate::gateways::scan::{find, find_byte, lemma_find};

verus! {

/// Number of values of an unsigned machine word.
pub const WORD: u128 = 0x1_0000_0000_0000_0000;

/// One, scaled.
pub const ONE: u64 = 100_000_000;

/// A byte is a decimal digit.
pub open spec fn is_digit(b: u8) -> bool {
    48 <= b <= 57
}

/// Number that the digits of a text stand for; other bytes are skipped.
pub open spec fn dec(s: Seq<u8>) -> int
    decreases s.len(),
{
    if s.len() == 0 {
        0
    } else if is_digit(s.last()) {
        dec(s.drop_last()) * 10 + (s.last() - 48)
    } else {
        dec(s.drop_last())
    }
}

/// A number is never negative.
pub proof fn lemma_dec(s: Seq<u8>)
    ensures
        0 <= dec(s),
    decreases s.len(),
{
    if s.len() > 0 {
        lemma_dec(s.drop_last());
    }
}

/// Ten to a power.
pub open spec fn pow10(n: nat) -> int
    decreases n,
{
    if n == 0 {
        1
    } else {
        10 * pow10((n - 1) as nat)
    }
}

/// Powers of ten up to the scale.
proof fn lemma_pow10(n: nat)
    requires
        n <= 8,
    ensures
        pow10(n) * pow10((8 - n) as nat) == ONE,
        1 <= pow10(n) <= ONE,
        n < 8 ==> pow10(n) <= 10_000_000,
        n < 8 ==> pow10((8 - n) as nat) == 10 * pow10((7 - n) as nat),
        n == 8 ==> pow10((8 - n) as nat) == 1,
{
    reveal_with_fuel(pow10, 9);
    assert(n == 0 || n == 1 || n == 2 || n == 3 || n == 4 || n == 5 || n == 6 || n == 7 || n == 8);
    let (a, b) = (pow10(n), pow10((8 - n) as nat));
    assert(a * b == ONE) by (nonlinear_arith)
        requires
            a == 1 && b == 100_000_000 || a == 10 && b == 10_000_000 || a == 100 && b == 1_000_000
                || a == 1000 && b == 100_000 || a == 10_000 && b == 10_000 || a == 100_000 && b
                == 1000 || a == 1_000_000 && b == 100 || a == 10_000_000 && b == 10 || a
                == 100_000_000 && b == 1,
    ;
}

/// The first eight digits of a text as a number, and how many of them there are.
pub open spec fn leading(s: Seq<u8>) -> (int, nat)
    decreases s.len(),
{
    if s.len() == 0 {
        (0, 0)
    } else {
        let rest = leading(s.drop_last());
        if is_digit(s.last()) && rest.1 < 8 {
            (rest.0 * 10 + (s.last() - 48), rest.1 + 1)
        } else {
            rest
        }
    }
}

/// Wrapped to the range of a signed machine word.
pub open spec fn wrap_signed(x: int) -> int {
    let m = x % 0x1_0000_0000_0000_0000;
    if m >= 0x8000_0000_0000_0000 {
        m - 0x1_0000_0000_0000_0000
    } else {
        m
    }
}

/// Decimal number, scaled by 10^8: the digits before the first point, and eight
/// digits behind it.
pub open spec fn decimal(s: Seq<u8>) -> int {
    let dot = find(s, 46, 0);
    let fraction = leading(s.skip(dot));
    dec(s.take(dot)) * ONE + fraction.0 * pow10((8 - fraction.1) as nat)
}

/// Number that the digits between two places stand for, wrapped to a machine word.
pub fn number(data: &[u8], from: usize, to: usize) -> (r: u64)
    requires
        from <= to <= data@.len(),
    ensures
        r == dec(data@.subrange(from as int, to as int)) % 0x1_0000_0000_0000_0000,
{
    let len: usize = data.len();
    let mut val: u64 = 0;
    let mut i: usize = from;
    assert(data@.subrange(from as int, from as int) =~= Seq::empty());
    while i < to
        invariant
            from <= i <= to <= len == data@.len(),
            val == dec(data@.subrange(from as int, i as int)) % 0x1_0000_0000_0000_0000,
        decreases to - i,
    {
        let b: u8 = data[i];
        let ghost sofar = data@.subrange(from as int, i as int);
        assert(data@.subrange(from as int, i + 1) =~= sofar.push(b));
        assert(sofar.push(b).drop_last() =~= sofar);
        if b >= 48 && b <= 57 {
            proof {
                let q = dec(sofar) / 0x1_0000_0000_0000_0000;
                assert(dec(sofar) == q * 0x1_0000_0000_0000_0000 + val);
                vstd::arithmetic::div_mod::lemma_mod_multiples_vanish(
                    q * 10,
                    val * 10 + (b - 48),
                    0x1_0000_0000_0000_0000,
                );
            }
            val = ((val as u128 * 10 + (b - 48) as u128) % WORD) as u64;
        }
        i = i + 1;
    }
    val
}

/// Fraction: the first eight digits from a place on, filled up to eight.
pub fn fraction(data: &[u8], from: usize) -> (r: u64)
    requires
        from <= data@.len(),
    ensures
        ({
            let f = leading(data@.skip(from as int));
            r == f.0 * pow10((8 - f.1) as nat)
        }),
        r < ONE,
{
    let len: usize = data.len();
    let mut val: u64 = 0;
    let mut scale: u64 = ONE;
    let mut i: usize = from;
    assert(data@.subrange(from as int, from as int) =~= Seq::empty());
    proof {
        lemma_pow10(0);
    }
    while i < len
        invariant
            from <= i <= len == data@.len(),
            ({
                let f = leading(data@.subrange(from as int, i as int));
                &&& val == f.0
                &&& f.1 <= 8
                &&& scale == pow10((8 - f.1) as nat)
                &&& val < pow10(f.1)
            }),
        decreases len - i,
    {
        let b: u8 = data[i];
        let ghost sofar = data@.subrange(from as int, i as int);
        let ghost n = leading(sofar).1;
        assert(data@.subrange(from as int, i + 1) =~= sofar.push(b));
        assert(sofar.push(b).drop_last() =~= sofar);
        proof {
            lemma_pow10(n);
            if n < 8 {
                lemma_pow10(n + 1);
            }
        }
        if b >= 48 && b <= 57 && scale > 1 {
            val = val * 10 + (b - 48) as u64;
            scale = scale / 10;
        }
        i = i + 1;
    }
    assert(data@.subrange(from as int, len as int) =~= data@.skip(from as int));
    proof {
        let n = leading(data@.skip(from as int)).1;
        lemma_pow10(n);
        lemma_pow10((8 - n) as nat);
        assert(0 <= val * scale < ONE) by (nonlinear_arith)
            requires
                0 <= val < pow10(n),
                pow10(n) * scale == ONE,
                scale > 0,
        ;
    }
    val * scale
}

/// Decimal number, scaled by 10^8 and wrapped to the range of the result.
pub fn scaled(data: &[u8]) -> (r: i64)
    ensures
        r == wrap_signed(decimal(data@)),
{
    let len: usize = data.len();
    let dot: usize = find_byte(data, 46, 0);
    let whole: u64 = number(data, 0, dot);
    let part: u64 = fraction(data, dot);
    let ghost d = dec(data@.take(dot as int));
    proof {
        assert(data@.subrange(0, dot as int) =~= data@.take(dot as int));
        let q = d / 0x1_0000_0000_0000_0000;
        assert(d == q * 0x1_0000_0000_0000_0000 + whole);
        vstd::arithmetic::div_mod::lemma_mod_multiples_vanish(
            q * 100_000_000,
            whole * 100_000_000 + part,
            0x1_0000_0000_0000_0000,
        );
    }
    let total: u64 = ((whole as u128 * ONE as u128 + part as u128) % WORD) as u64;
    if total >= 0x8000_0000_0000_0000 {
        (total as i128 - WORD as i128) as i64
    } else {
        total as i64
    }
}

/// Every byte is a digit.
pub open spec fn digits_only(s: Seq<u8>) -> bool {
    forall|i: int| 0 <= i < s.len() ==> 48 <= #[trigger] s[i] <= 57
}

/// The powers of ten that eight places need.
pub proof fn lemma_pow10_values()
    ensures
        pow10(0) == 1,
        pow10(1) == 10,
        pow10(2) == 100,
        pow10(3) == 1_000,
        pow10(4) == 10_000,
        pow10(5) == 100_000,
        pow10(6) == 1_000_000,
        pow10(7) == 10_000_000,
        pow10(8) == 100_000_000,
        forall|n: nat| pow10(n + 1) == 10 * #[trigger] pow10(n),
{
    reveal_with_fuel(pow10, 9);
    assert forall|n: nat| pow10(n + 1) == 10 * #[trigger] pow10(n) by {
        assert((n + 1 - 1) as nat == n);
    }
}

/// The last digit of a number is its remainder by ten, and the digits before it are its
/// quotient; no digits stand for zero, and a zero in front changes nothing.
pub proof fn lemma_dec_by_ten(s: Seq<u8>)
    requires
        digits_only(s),
    ensures
        s.len() == 0 ==> dec(s) == 0,
        s.len() > 0 ==> dec(s) % 10 == s.last() - 48 && dec(s) / 10 == dec(s.drop_last()),
        dec(seq![48u8] + s) == dec(s),
    decreases s.len(),
{
    let z = seq![48u8] + s;
    if s.len() > 0 {
        assert(48 <= s[s.len() - 1] <= 57);
        assert(z.drop_last() =~= seq![48u8] + s.drop_last());
        lemma_dec_by_ten(s.drop_last());
    } else {
        assert(z.drop_last() =~= Seq::<u8>::empty());
        assert(z.last() == 48);
        assert(dec(z.drop_last()) == 0);
    }
}

/// A number is less than ten to the count of its digits.
proof fn lemma_dec_below(s: Seq<u8>)
    requires
        digits_only(s),
    ensures
        0 <= dec(s) < pow10(s.len()),
    decreases s.len(),
{
    if s.len() > 0 {
        assert(48 <= s[s.len() - 1] <= 57);
        lemma_dec_below(s.drop_last());
    }
}

/// Place value: raising one digit raises the number by ten to the count of the digits
/// behind it, for each step.
pub proof fn lemma_digit_place(s: Seq<u8>, k: int, d: u8)
    requires
        digits_only(s),
        0 <= k < s.len(),
        48 <= d <= 57,
    ensures
        dec(s.update(k, d)) - dec(s) == (d - s[k]) * pow10((s.len() - 1 - k) as nat),
    decreases s.len(),
{
    let t = s.update(k, d);
    assert(48 <= s[s.len() - 1] <= 57);
    if k == s.len() - 1 {
        assert(t.drop_last() =~= s.drop_last());
        assert(pow10(0) == 1);
    } else {
        lemma_digit_place(s.drop_last(), k, d);
        assert(t.drop_last() =~= s.drop_last().update(k, d));
        let p = pow10((s.len() - 2 - k) as nat);
        let x = d - s[k];
        assert(10 * (x * p) == x * (10 * p)) by (nonlinear_arith);
    }
}

/// Up to eight digits from a place behind the point: their number, and how many they are.
proof fn lemma_leading_digits(s: Seq<u8>)
    requires
        digits_only(s),
    ensures
        s.len() <= 8 ==> leading(s).0 == dec(s) && leading(s).1 == s.len(),
        s.len() > 8 ==> leading(s) == (dec(s.take(8)), 8nat),
    decreases s.len(),
{
    if s.len() > 0 {
        assert(48 <= s[s.len() - 1] <= 57);
        lemma_leading_digits(s.drop_last());
        if s.len() > 8 {
            if s.len() == 9 {
                assert(s.take(8) =~= s.drop_last());
            } else {
                assert(s.take(8) =~= s.drop_last().take(8));
            }
        }
    }
}

/// A byte that is no digit in front of digits is skipped.
proof fn lemma_leading_point(s: Seq<u8>)
    ensures
        leading(seq![46u8] + s) == leading(s),
    decreases s.len(),
{
    let t = seq![46u8] + s;
    if s.len() > 0 {
        lemma_leading_point(s.drop_last());
        assert(t.drop_last() =~= seq![46u8] + s.drop_last());
    } else {
        assert(t.drop_last() =~= Seq::<u8>::empty());
        assert(t.last() == 46);
        assert(s =~= Seq::<u8>::empty());
        assert(leading(t.drop_last()) == leading(s));
    }
}

/// The value of a decimal text: a whole number `w`, a point and up to eight digits `f`
/// stand for `w + f / 10^n` with `n` the count of the digits behind the point, zeros
/// included, scaled by 10^8.
pub proof fn lemma_decimal_value(w: Seq<u8>, f: Seq<u8>)
    requires
        digits_only(w),
        digits_only(f),
        f.len() <= 8,
    ensures
        decimal(w + seq![46u8] + f) * pow10(f.len()) == (dec(w) * pow10(f.len()) + dec(f))
            * 100_000_000,
        decimal(w + seq![46u8] + f) == dec(w) * 100_000_000 + dec(f) * pow10((8 - f.len()) as nat),
{
    let s = w + seq![46u8] + f;
    lemma_find(s, 46, 0);
    let dot = find(s, 46, 0);
    assert(s[w.len() as int] == 46);
    if dot < w.len() {
        assert(s[dot] == w[dot]);
    }
    assert(dot == w.len());
    assert(s.take(dot) =~= w);
    assert(s.skip(dot) =~= seq![46u8] + f);
    lemma_leading_point(f);
    lemma_leading_digits(f);
    let n = f.len();
    lemma_pow10(n);
    let (a, b, x, y) = (pow10(n), pow10((8 - n) as nat), dec(w), dec(f));
    assert((x * 100_000_000 + y * b) * a == (x * a + y) * 100_000_000) by (nonlinear_arith)
        requires
            a * b == 100_000_000,
    ;
}

/// A text without a point is a whole number, scaled by 10^8.
pub proof fn lemma_whole_value(w: Seq<u8>)
    requires
        digits_only(w),
    ensures
        decimal(w) == dec(w) * 100_000_000,
{
    lemma_find(w, 46, 0);
    let dot = find(w, 46, 0);
    if dot < w.len() {
        assert(48 <= w[dot] <= 57);
    }
    assert(w.take(dot) =~= w);
    assert(w.skip(dot) =~= Seq::<u8>::empty());
    assert(leading(w.skip(dot)).0 == 0);
}

/// Digits behind the eighth place are dropped.
pub proof fn lemma_long_fraction_cut(w: Seq<u8>, f: Seq<u8>)
    requires
        digits_only(w),
        digits_only(f),
        f.len() >= 8,
    ensures
        decimal(w + seq![46u8] + f) == decimal(w + seq![46u8] + f.take(8)),
{
    let g = f.take(8);
    lemma_decimal_value(w, g);
    let s = w + seq![46u8] + f;
    lemma_find(s, 46, 0);
    let dot = find(s, 46, 0);
    assert(s[w.len() as int] == 46);
    if dot < w.len() {
        assert(s[dot] == w[dot]);
    }
    assert(s.take(dot) =~= w);
    assert(s.skip(dot) =~= seq![46u8] + f);
    lemma_leading_point(f);
    lemma_leading_digits(f);
    assert(f.len() == 8 ==> g =~= f);
    assert(pow10(0) == 1);
}

/// A digit behind the point counts by its place: raising digit `k` of a price by one
/// raises the price by 10^(7 - k), in units of 10^-8.
pub proof fn lemma_fraction_place(w: Seq<u8>, f: Seq<u8>, k: int, d: u8)
    requires
        digits_only(w),
        digits_only(f),
        0 <= k < f.len() <= 8,
        48 <= d <= 57,
    ensures
        decimal(w + seq![46u8] + f.update(k, d)) - decimal(w + seq![46u8] + f) == (d - f[k])
            * pow10((7 - k) as nat),
{
    let g = f.update(k, d);
    assert(digits_only(g));
    lemma_decimal_value(w, f);
    lemma_decimal_value(w, g);
    lemma_digit_place(f, k, d);
    let n = f.len() as int;
    let (x, a, b, c) = (
        d - f[k],
        pow10((n - 1 - k) as nat),
        pow10((8 - n) as nat),
        pow10((7 - k) as nat),
    );
    lemma_pow10_product((n - 1 - k) as nat, (8 - n) as nat);
    assert(((n - 1 - k) as nat + (8 - n) as nat) as nat == (7 - k) as nat);
    let (y, z) = (dec(g), dec(f));
    assert(y * b - z * b == x * c) by (nonlinear_arith)
        requires
            y - z == x * a,
            a * b == c,
    ;
}

proof fn lemma_pow10_product(m: nat, n: nat)
    ensures
        pow10(m) * pow10(n) == pow10(m + n),
    decreases m,
{
    if m > 0 {
        lemma_pow10_product((m - 1) as nat, n);
        let (a, b) = (pow10((m - 1) as nat), pow10(n));
        assert((10 * a) * b == 10 * (a * b)) by (nonlinear_arith);
        assert((m + n - 1) as nat == (m - 1) as nat + n);
    } else {
        assert(1 * pow10(n) == pow10(n));
    }
}

/// What is wrapped differs by a multiple of 2^64, and lies in the signed range; what
/// lies there already is left as it is.
pub proof fn lemma_wrap_signed(x: int)
    ensures
        -0x8000_0000_0000_0000 <= wrap_signed(x) < 0x8000_0000_0000_0000,
        (x - wrap_signed(x)) % 0x1_0000_0000_0000_0000 == 0,
        -0x8000_0000_0000_0000 <= x < 0x8000_0000_0000_0000 ==> wrap_signed(x) == x,
{
}

} // verus!
