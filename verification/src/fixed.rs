//! Integer arithmetic shared by the fixed-point modules: mathematical
//! definitions of truncating division, absolute value and clamping, and the
//! executable operations that compute them.

use vstd::prelude::*;

verus! {

broadcast use vstd::array::group_array_axioms;

/// Absolute value of a mathematical integer.
pub open spec fn abs(a: int) -> int {
    if a >= 0 {
        a
    } else {
        -a
    }
}

/// Quotient of `a` by `b`, rounded toward zero: Euclidean division of a
/// nonnegative dividend rounds that way whatever the sign of the divisor.
pub open spec fn tdiv(a: int, b: int) -> int {
    if a >= 0 {
        a / b
    } else {
        -((-a) / b)
    }
}

/// Larger of two integers.
pub open spec fn max(a: int, b: int) -> int {
    if a >= b {
        a
    } else {
        b
    }
}

/// Smaller of two integers.
pub open spec fn min(a: int, b: int) -> int {
    if a <= b {
        a
    } else {
        b
    }
}

/// `a` moved into the closed range from `lo` to `hi`.
pub open spec fn clamp(a: int, lo: int, hi: int) -> int {
    min(max(a, lo), hi)
}

/// `a` is representable as an `i64`.
pub open spec fn fits_i64(a: int) -> bool {
    i64::MIN <= a <= i64::MAX
}

/// `a` is representable as a `u64`.
pub open spec fn fits_u64(a: int) -> bool {
    0 <= a <= u64::MAX
}

/// `a` is representable as an `i128`.
pub open spec fn fits_i128(a: int) -> bool {
    i128::MIN <= a <= i128::MAX
}

/// Sum of a sequence of signed integers.
pub open spec fn seq_sum(s: Seq<i64>) -> int
    decreases s.len(),
{
    if s.len() == 0 {
        0
    } else {
        seq_sum(s.drop_last()) + s.last()
    }
}

/// Replacing one element changes the sum by the difference.
pub proof fn lemma_sum_update(s: Seq<i64>, i: int, v: i64)
    requires
        0 <= i < s.len(),
    ensures
        seq_sum(s.update(i, v)) == seq_sum(s) - s[i] + v,
    decreases s.len(),
{
    if i == s.len() - 1 {
        assert(s.update(i, v).drop_last() =~= s.drop_last());
    } else {
        lemma_sum_update(s.drop_last(), i, v);
        assert(s.update(i, v).drop_last() =~= s.drop_last().update(i, v));
    }
}

/// A sequence of zeros sums to zero.
pub proof fn lemma_sum_zeros(s: Seq<i64>)
    requires
        forall|i: int| 0 <= i < s.len() ==> s[i] == 0,
    ensures
        seq_sum(s) == 0,
    decreases s.len(),
{
    if s.len() > 0 {
        lemma_sum_zeros(s.drop_last());
    }
}

/// Absolute value of a signed 64-bit integer other than the smallest one.
pub fn abs_i64(a: i64) -> (r: i64)
    requires
        a > i64::MIN,
    ensures
        r == abs(a as int),
{
    if a >= 0 {
        a
    } else {
        -a
    }
}

/// Absolute value of any signed 64-bit integer.
pub fn unsigned_abs_i64(a: i64) -> (r: u64)
    ensures
        r == abs(a as int),
{
    if a >= 0 {
        a as u64
    } else {
        (-(a as i128)) as u64
    }
}

/// Product, or `u64::MAX` where the product does not fit.
pub fn saturating_mul_u64(a: u64, b: u64) -> (r: u64)
    ensures
        r == min(a * b, u64::MAX as int),
{
    match a.checked_mul(b) {
        Some(p) => p,
        None => u64::MAX,
    }
}

/// A quotient rounded toward zero is no further from zero than its dividend,
/// and strictly nearer to it where the divisor is neither one nor minus one.
pub proof fn lemma_tdiv_bound(a: int, b: int)
    requires
        b != 0,
    ensures
        -abs(a) <= tdiv(a, b) <= abs(a),
        a >= 0 && b > 0 ==> tdiv(a, b) >= 0,
        b == -1 ==> tdiv(a, b) == -a,
        (b > 1 || b < -1) && a != 0 ==> -abs(a) < tdiv(a, b) < abs(a),
{
    let m = abs(a);
    assert(-m <= m / b <= m) by (nonlinear_arith)
        requires
            m >= 0,
            b != 0,
    ;
    assert(b > 0 ==> m / b >= 0) by (nonlinear_arith)
        requires
            m >= 0,
    ;
    assert(b == -1 ==> m / b == -m) by (nonlinear_arith);
    assert((b > 1 || b < -1) && m > 0 ==> -m < m / b < m) by (nonlinear_arith);
}

/// Quotient rounded toward zero.
pub fn div_i64(a: i64, b: i64) -> (r: i64)
    requires
        b != 0,
        !(a == i64::MIN && b == -1),
    ensures
        r == tdiv(a as int, b as int),
{
    proof {
        lemma_tdiv_bound(a as int, b as int);
    }
    a / b
}

/// Quotient rounded toward zero.
pub fn div_i128(a: i128, b: i128) -> (r: i128)
    requires
        b != 0,
        !(a == i128::MIN && b == -1),
    ensures
        r == tdiv(a as int, b as int),
{
    proof {
        lemma_tdiv_bound(a as int, b as int);
    }
    a / b
}

/// Product of two 64-bit integers at full width.
pub fn mul_wide(a: i64, b: i64) -> (r: i128)
    ensures
        r == a * b,
        -0x4000_0000_0000_0000_0000_0000_0000_0000 <= r
            <= 0x4000_0000_0000_0000_0000_0000_0000_0000,
{
    assert(-0x4000_0000_0000_0000_0000_0000_0000_0000 <= a * b
        <= 0x4000_0000_0000_0000_0000_0000_0000_0000) by (nonlinear_arith)
        requires
            -0x8000_0000_0000_0000 <= a <= 0x8000_0000_0000_0000,
            -0x8000_0000_0000_0000 <= b <= 0x8000_0000_0000_0000,
    ;
    a as i128 * b as i128
}

/// `a * b / c` with the product at full width, rounded toward zero.
pub fn mul_div(a: i64, b: i64, c: i64) -> (r: i64)
    requires
        c != 0,
        fits_i64(tdiv(a * b, c as int)),
    ensures
        r == tdiv(a * b, c as int),
{
    div_i128(mul_wide(a, b), c as i128) as i64
}

/// `x` reinterpreted as a signed integer.
pub fn cast_i64(x: u64) -> (r: i64)
    ensures
        r == x as i64,
        x <= i64::MAX ==> r == x,
        x != 0 ==> r != 0,
{
    assert(x != 0 ==> (x as i64) != 0) by (bit_vector);
    x as i64
}

/// `n` bounded by `hi`.
pub fn min_u64(n: u64, hi: u64) -> (r: u64)
    ensures
        r == min(n as int, hi as int),
{
    if n < hi {
        n
    } else {
        hi
    }
}

/// `a` moved into the closed range from `lo` to `hi`.
pub fn clamp_i64(a: i64, lo: i64, hi: i64) -> (r: i64)
    ensures
        r == clamp(a as int, lo as int, hi as int),
{
    let raised: i64 = if a >= lo {
        a
    } else {
        lo
    };
    if raised <= hi {
        raised
    } else {
        hi
    }
}

/// Two to the power of `n`.
pub open spec fn weight(n: nat) -> int
    decreases n,
{
    if n == 0 {
        1
    } else {
        2 * weight((n - 1) as nat)
    }
}

/// Bit mask with bit `i` set where flag `i` holds.
pub open spec fn bit_mask(flags: Seq<bool>) -> int
    decreases flags.len(),
{
    if flags.len() == 0 {
        0
    } else {
        bit_mask(flags.drop_last()) + if flags.last() {
            weight((flags.len() - 1) as nat)
        } else {
            0
        }
    }
}

/// Pack up to eight flags into a bit mask, the first one lowest.
pub fn pack_flags<const N: usize>(flags: &[bool; N]) -> (r: u32)
    requires
        N <= 8,
    ensures
        r == bit_mask(flags@),
{
    let mut mask: u32 = 0;
    let mut bit: u32 = 1;
    let mut i: usize = 0;
    proof {
        reveal_with_fuel(weight, 9);
    }
    while i < N
        invariant
            i <= N <= 8,
            bit == weight(i as nat),
            bit <= 256,
            i < 8 ==> bit <= 128,
            mask < bit,
            mask == bit_mask(flags@.take(i as int)),
        decreases N - i,
    {
        assert(flags@.take(i + 1).drop_last() =~= flags@.take(i as int));
        proof {
            reveal_with_fuel(weight, 9);
        }
        if flags[i] {
            mask = mask + bit;
        }
        bit = bit * 2;
        i = i + 1;
    }
    assert(flags@.take(N as int) =~= flags@);
    mask
}

/// Sum of an array, in a type that holds it.
pub fn sum_wide<const N: usize>(a: &[i64; N]) -> (r: i128)
    requires
        N <= 0x1_0000,
    ensures
        r == seq_sum(a@),
{
    let mut total: i128 = 0;
    let mut i: usize = 0;
    while i < N
        invariant
            i <= N <= 0x1_0000,
            total == seq_sum(a@.take(i as int)),
            i * (i64::MIN) <= total <= i * (i64::MAX),
        decreases N - i,
    {
        assert(a@.take(i + 1).drop_last() =~= a@.take(i as int));
        total = total + a[i] as i128;
        i = i + 1;
    }
    assert(a@.take(N as int) =~= a@);
    total
}

/// `best` is the first place of the largest score, if that is above `floor`.
pub open spec fn is_best(scores: Seq<i64>, floor: int, best: Option<usize>) -> bool {
    match best {
        Some(i) => {
            &&& i < scores.len()
            &&& scores[i as int] > floor
            &&& forall|j: int| 0 <= j < scores.len() ==> scores[j] <= scores[i as int]
            &&& forall|j: int| 0 <= j < i ==> scores[j] < scores[i as int]
        },
        None => forall|j: int| 0 <= j < scores.len() ==> scores[j] <= floor,
    }
}

/// First place of the largest score, if that is above `floor`.
pub fn best_above<const N: usize>(scores: &[i64; N], floor: i64) -> (r: Option<usize>)
    ensures
        is_best(scores@, floor as int, r),
{
    let mut best: Option<usize> = None;
    let mut top: i64 = floor;
    let mut i: usize = 0;
    while i < N
        invariant
            i <= N,
            is_best(scores@.take(i as int), floor as int, best),
            best is Some ==> top == scores@[best->0 as int],
            best is None ==> top == floor,
        decreases N - i,
    {
        let ghost before = scores@.take(i as int);
        let ghost after = scores@.take(i + 1);
        assert(forall|j: int| 0 <= j < i ==> after[j] == before[j]);
        assert(after[i as int] == scores@[i as int]);
        if scores[i] > top {
            top = scores[i];
            best = Some(i);
        }
        i = i + 1;
    }
    assert(scores@.take(N as int) =~= scores@);
    best
}

/// Sum, held within the range of the type.
pub open spec fn sat_add(a: int, b: int) -> int {
    clamp(a + b, i64::MIN as int, i64::MAX as int)
}

/// Sum, held within the range of the type.
pub fn saturating_add_i64(a: i64, b: i64) -> (r: i64)
    ensures
        r == sat_add(a as int, b as int),
{
    let sum: i128 = a as i128 + b as i128;
    if sum > i64::MAX as i128 {
        i64::MAX
    } else if sum < i64::MIN as i128 {
        i64::MIN
    } else {
        sum as i64
    }
}

/// There is only one first place of the largest score.
pub proof fn lemma_best_unique(scores: Seq<i64>, floor: int, a: Option<usize>, b: Option<usize>)
    requires
        is_best(scores, floor, a),
        is_best(scores, floor, b),
    ensures
        a == b,
{
    if a is Some && b is Some {
        let i = a->0;
        let j = b->0;
        assert(scores[i as int] <= scores[j as int] && scores[j as int] <= scores[i as int]);
    } else if a is Some {
        assert(scores[a->0 as int] <= floor);
    } else if b is Some {
        assert(scores[b->0 as int] <= floor);
    }
}

/// Difference, held within the range of the type.
pub open spec fn sat_sub(a: int, b: int) -> int {
    clamp(a - b, i64::MIN as int, i64::MAX as int)
}

/// Difference, held within the range of the type.
pub fn saturating_sub_i64(a: i64, b: i64) -> (r: i64)
    ensures
        r == sat_sub(a as int, b as int),
{
    let difference: i128 = a as i128 - b as i128;
    if difference > i64::MAX as i128 {
        i64::MAX
    } else if difference < i64::MIN as i128 {
        i64::MIN
    } else {
        difference as i64
    }
}

/// A quotient by a positive number falls short of the exact one by less than one, on the
/// side of zero: what is left over has the sign of the dividend and is smaller than the
/// divisor.
pub proof fn lemma_tdiv_rounds(a: int, b: int)
    requires
        b > 0,
    ensures
        a >= 0 ==> 0 <= a - tdiv(a, b) * b < b,
        a <= 0 ==> -b < a - tdiv(a, b) * b <= 0,
        tdiv(-a, b) == -tdiv(a, b),
{
    let m = if a >= 0 {
        a
    } else {
        -a
    };
    vstd::arithmetic::div_mod::lemma_fundamental_div_mod(m, b);
    vstd::arithmetic::div_mod::lemma_mod_bound(m, b);
    let q = m / b;
    assert(b * q == q * b && (-q) * b == -(q * b)) by (nonlinear_arith);
    if a == 0 {
        assert(q == 0) by (nonlinear_arith)
            requires
                q == 0int / b,
                b > 0,
        ;
    }
}

/// There is only one such quotient.
pub proof fn lemma_tdiv_unique(a: int, b: int, q: int)
    requires
        b > 0,
        a >= 0 ==> 0 <= a - q * b < b,
        a < 0 ==> -b < a - q * b <= 0,
    ensures
        tdiv(a, b) == q,
{
    lemma_tdiv_rounds(a, b);
    let t = tdiv(a, b);
    assert(t == q) by (nonlinear_arith)
        requires
            b > 0,
            -b < t * b - q * b < b,
    ;
}

/// A larger dividend gives no smaller a quotient by the same positive number.
pub proof fn lemma_tdiv_monotone(a: int, c: int, b: int)
    requires
        b > 0,
        a <= c,
    ensures
        tdiv(a, b) <= tdiv(c, b),
{
    lemma_tdiv_rounds(a, b);
    lemma_tdiv_rounds(c, b);
    let (q, t) = (tdiv(a, b), tdiv(c, b));
    if q > t {
        assert(q * b >= t * b + b) by (nonlinear_arith)
            requires
                q >= t + 1,
                b > 0,
        ;
        if a >= 0 {
        } else if c < 0 {
        } else {
            assert(t * b >= -b + 1) by (nonlinear_arith)
                requires
                    c - t * b < b,
                    c >= 0,
            ;
            assert(t >= 0) by (nonlinear_arith)
                requires
                    t * b > -b,
                    b > 0,
            ;
            assert(q <= 0) by (nonlinear_arith)
                requires
                    q * b < b,
                    b > 0,
            ;
        }
    }
}

/// Holding a number in a range leaves it as it is inside, and moves it to the nearer end
/// outside.
pub proof fn lemma_clamp(a: int, lo: int, hi: int)
    requires
        lo <= hi,
    ensures
        lo <= a <= hi ==> clamp(a, lo, hi) == a,
        a < lo ==> clamp(a, lo, hi) == lo,
        a > hi ==> clamp(a, lo, hi) == hi,
        sat_add(a, lo) == clamp(a + lo, -0x8000_0000_0000_0000, 0x7fff_ffff_ffff_ffff),
        sat_sub(a, lo) == clamp(a - lo, -0x8000_0000_0000_0000, 0x7fff_ffff_ffff_ffff),
{
}

/// A sum is that of its parts, in any order of adding: it grows by each value that is
/// pushed.
pub proof fn lemma_sum_push(s: Seq<i64>, v: i64)
    ensures
        seq_sum(Seq::<i64>::empty()) == 0,
        seq_sum(s.push(v)) == seq_sum(s) + v,
{
    assert(s.push(v).drop_last() =~= s);
}

/// A bit mask of up to eight flags: flag zero counts one, flag one two, flag two four,
/// and so on.
pub proof fn lemma_mask_bits(flags: Seq<bool>)
    requires
        flags.len() <= 8,
    ensures
        ({
            let bit = |k: int|
                if k < flags.len() && flags[k] {
                    1int
                } else {
                    0
                };
            bit_mask(flags) == bit(0) + 2 * bit(1) + 4 * bit(2) + 8 * bit(3) + 16 * bit(4) + 32
                * bit(5) + 64 * bit(6) + 128 * bit(7)
        }),
    decreases flags.len(),
{
    reveal_with_fuel(weight, 9);
    if flags.len() > 0 {
        lemma_mask_bits(flags.drop_last());
        let n = flags.len();
        assert(n == 1 || n == 2 || n == 3 || n == 4 || n == 5 || n == 6 || n == 7 || n == 8);
    }
}

/// The larger and the smaller of two integers are those two, in order, and the distance
/// of an integer from zero has no sign.
pub proof fn lemma_min_max(a: int, b: int)
    ensures
        a <= b ==> min(a, b) == a && max(a, b) == b,
        a >= b ==> min(a, b) == b && max(a, b) == a,
        a >= 0 ==> abs(a) == a && abs(-a) == a,
{
}

} // verus!
