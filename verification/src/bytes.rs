//! Little-endian encodings of unsigned integers.

use vstd::prelude::*;

verus! {

/// 256 to the power of `n`.
pub open spec fn pow256(n: nat) -> int
    decreases n,
{
    if n == 0 {
        1
    } else {
        256 * pow256((n - 1) as nat)
    }
}

/// The `n` lowest bytes of `x`, lowest first.
pub open spec fn le_bytes(x: int, n: nat) -> Seq<u8>
    decreases n,
{
    if n == 0 {
        Seq::empty()
    } else {
        seq![(x % 256) as u8] + le_bytes(x / 256, (n - 1) as nat)
    }
}

/// Number that bytes stand for, lowest byte first.
pub open spec fn le_value(s: Seq<u8>) -> int
    decreases s.len(),
{
    if s.len() == 0 {
        0
    } else {
        s[0] + 256 * le_value(s.skip(1))
    }
}

/// An encoding of `n` bytes has `n` bytes.
pub proof fn lemma_le_len(x: int, n: nat)
    ensures
        le_bytes(x, n).len() == n,
    decreases n,
{
    if n > 0 {
        lemma_le_len(x / 256, (n - 1) as nat);
    }
}

/// Decoding an encoding gives the number back.
pub proof fn lemma_le_round_trip(x: int, n: nat)
    requires
        0 <= x < pow256(n),
    ensures
        le_value(le_bytes(x, n)) == x,
    decreases n,
{
    lemma_le_len(x, n);
    if n > 0 {
        assert(x / 256 < pow256((n - 1) as nat));
        lemma_le_round_trip(x / 256, (n - 1) as nat);
        assert(le_bytes(x, n).skip(1) =~= le_bytes(x / 256, (n - 1) as nat));
    }
}

/// Bytes stand for a number below the power of 256 that their count gives.
pub proof fn lemma_le_value_bound(s: Seq<u8>)
    ensures
        0 <= le_value(s) < pow256(s.len()),
    decreases s.len(),
{
    if s.len() > 0 {
        lemma_le_value_bound(s.skip(1));
    }
}

/// Encoding the number that bytes stand for gives the bytes back.
pub proof fn lemma_le_value_round_trip(s: Seq<u8>)
    ensures
        le_bytes(le_value(s), s.len()) == s,
    decreases s.len(),
{
    if s.len() > 0 {
        let t = s.skip(1);
        lemma_le_value_round_trip(t);
        lemma_le_value_bound(t);
        let x = le_value(s);
        assert(x % 256 == s[0] && x / 256 == le_value(t));
        assert(le_bytes(x, s.len()) =~= s);
    } else {
        assert(le_bytes(0, 0) =~= s);
    }
}

/// Powers of 256 up to the eighth.
pub proof fn lemma_pow256()
    ensures
        pow256(1) == 0x100,
        pow256(2) == 0x1_0000,
        pow256(4) == 0x1_0000_0000,
        pow256(8) == 0x1_0000_0000_0000_0000,
{
    reveal_with_fuel(pow256, 9);
}

/// Append the `n` lowest bytes of `x`, lowest first.
pub fn put_le(out: &mut Vec<u8>, x: u64, n: usize)
    ensures
        final(out)@ == old(out)@ + le_bytes(x as int, n as nat),
{
    let mut rest: u64 = x;
    let mut i: usize = 0;
    proof {
        assert(out@ + le_bytes(rest as int, n as nat) =~= old(out)@ + le_bytes(x as int, n as nat));
    }
    while i < n
        invariant
            i <= n,
            out@ + le_bytes(rest as int, (n - i) as nat) == old(out)@ + le_bytes(x as int, n as nat),
        decreases n - i,
    {
        let ghost before = out@;
        let ghost tail = le_bytes((rest / 256) as int, (n - i - 1) as nat);
        out.push((rest % 256) as u8);
        proof {
            assert(le_bytes(rest as int, (n - i) as nat) == seq![(rest % 256) as u8] + tail);
            assert(out@ + tail =~= before + (seq![(rest % 256) as u8] + tail));
        }
        rest = rest / 256;
        i = i + 1;
    }
    assert(out@ + le_bytes(rest as int, 0) =~= out@);
}

/// Number that the `n` bytes from position `pos` on stand for, lowest first.
pub fn get_le(src: &[u8], pos: usize, n: usize) -> (r: u64)
    requires
        n <= 8,
        pos + n <= src@.len(),
    ensures
        r == le_value(src@.subrange(pos as int, pos + n)),
{
    let len: usize = src.len();
    let mut acc: u64 = 0;
    let mut i: usize = n;
    assert(src@.subrange(pos + i, pos + n) =~= Seq::empty());
    proof {
        reveal_with_fuel(pow256, 9);
    }
    while i > 0
        invariant
            i <= n <= 8,
            pos + n <= len == src@.len(),
            acc == le_value(src@.subrange(pos + i, pos + n)),
            acc < pow256((n - i) as nat),
        decreases i,
    {
        i = i - 1;
        proof {
            reveal_with_fuel(pow256, 9);
            let s = src@.subrange(pos + i, pos + n);
            assert(s.skip(1) =~= src@.subrange(pos + i + 1, pos + n));
        }
        acc = acc * 256 + src[pos + i] as u64;
    }
    acc
}

/// Append a copy of `data`.
pub fn put_slice(out: &mut Vec<u8>, data: &[u8])
    ensures
        final(out)@ == old(out)@ + data@,
{
    let mut i: usize = 0;
    while i < data.len()
        invariant
            i <= data@.len(),
            out@ == old(out)@ + data@.take(i as int),
        decreases data@.len() - i,
    {
        out.push(data[i]);
        assert(data@.take(i + 1) =~= data@.take(i as int).push(data@[i as int]));
        i = i + 1;
    }
    assert(data@.take(data@.len() as int) =~= data@);
}

/// Copy of the `n` bytes from position `pos` on.
pub fn copy_range(src: &[u8], pos: usize, n: usize) -> (r: Vec<u8>)
    requires
        pos + n <= src@.len(),
    ensures
        r@ == src@.subrange(pos as int, pos + n),
{
    let len: usize = src.len();
    let mut out: Vec<u8> = Vec::new();
    let mut i: usize = 0;
    while i < n
        invariant
            i <= n,
            pos + n <= len == src@.len(),
            out@ == src@.subrange(pos as int, pos + i),
        decreases n - i,
    {
        out.push(src[pos + i]);
        assert(src@.subrange(pos as int, pos + i + 1) =~= src@.subrange(
            pos as int,
            pos + i,
        ).push(src@[pos + i]));
        i = i + 1;
    }
    out
}

/// Number that bytes stand for, highest byte first.
pub open spec fn be_value(s: Seq<u8>) -> int
    decreases s.len(),
{
    if s.len() == 0 {
        0
    } else {
        be_value(s.drop_last()) * 256 + s.last()
    }
}

/// Number that the sixteen bytes from position `pos` on stand for, highest first.
pub fn get_be16(src: &[u8], pos: usize) -> (r: u128)
    requires
        pos + 16 <= src@.len(),
    ensures
        r == be_value(src@.subrange(pos as int, pos + 16)),
{
    let len: usize = src.len();
    let mut acc: u128 = 0;
    let mut i: usize = 0;
    assert(src@.subrange(pos as int, pos + 0) =~= Seq::empty());
    proof {
        reveal_with_fuel(pow256, 17);
    }
    while i < 16
        invariant
            i <= 16,
            pos + 16 <= len == src@.len(),
            acc == be_value(src@.subrange(pos as int, pos + i)),
            acc < pow256(i as nat),
        decreases 16 - i,
    {
        proof {
            reveal_with_fuel(pow256, 17);
            let s = src@.subrange(pos as int, pos + i + 1);
            assert(s.drop_last() =~= src@.subrange(pos as int, pos + i));
        }
        acc = acc * 256 + src[pos + i] as u128;
        i = i + 1;
    }
    acc
}

/// The lowest byte comes first: byte `i` is what is left of the number after it was
/// divided by 256 `i` times.
pub proof fn lemma_lowest_first(x: int, n: nat, i: nat)
    requires
        i < n,
        x >= 0,
    ensures
        le_bytes(x, n)[0] == x % 256,
        le_bytes(x, n)[i as int] == (x / pow256(i)) % 256,
    decreases i,
{
    lemma_le_len(x, n);
    if i > 0 {
        lemma_lowest_first(x / 256, (n - 1) as nat, (i - 1) as nat);
        lemma_le_len(x / 256, (n - 1) as nat);
        let p = pow256((i - 1) as nat);
        lemma_pow256_positive((i - 1) as nat);
        vstd::arithmetic::div_mod::lemma_div_denominator(x, 256, p);
    } else {
        assert(pow256(0) == 1);
    }
}

proof fn lemma_pow256_positive(n: nat)
    ensures
        pow256(n) > 0,
    decreases n,
{
    if n > 0 {
        lemma_pow256_positive((n - 1) as nat);
    }
}

/// The highest byte comes first: a byte in front counts by the power of 256 that the count
/// of the bytes behind it gives, and a byte at the end counts as it is.
pub proof fn lemma_highest_first(s: Seq<u8>, b: u8)
    ensures
        be_value(Seq::<u8>::empty()) == 0,
        be_value(s.push(b)) == be_value(s) * 256 + b,
        be_value(seq![b] + s) == b * pow256(s.len()) + be_value(s),
    decreases s.len(),
{
    assert(s.push(b).drop_last() =~= s);
    let t = seq![b] + s;
    if s.len() > 0 {
        lemma_highest_first(s.drop_last(), b);
        assert(t.drop_last() =~= seq![b] + s.drop_last());
        let p = pow256((s.len() - 1) as nat);
        assert((b * p) * 256 == b * (256 * p)) by (nonlinear_arith);
    } else {
        assert(t.drop_last() =~= s);
        assert(be_value(t.drop_last()) == 0);
        assert(pow256(0) == 1);
    }
}

} // verus!
