//! Circular buffers: the most recent items of a sequence that is written round
//! and round.

use vstd::prelude::*;
use crate::fixed::min;

verus! {

/// The `n` items that were written last into the ring `s`, oldest first, `head`
/// being the number of items written in all.
pub open spec fn ring<T>(s: Seq<T>, head: int, n: int) -> Seq<T> {
    Seq::new(n as nat, |i: int| s[(head - n + i) % (s.len() as int)])
}

/// What a ring of size `size` holds after one more item: the oldest item leaves
/// when there is no room.
pub open spec fn pushed<T>(items: Seq<T>, size: int, v: T) -> Seq<T> {
    if items.len() >= size {
        items.drop_first().push(v)
    } else {
        items.push(v)
    }
}

/// Two positions less than a round apart are different places.
pub proof fn lemma_places_differ(a: int, b: int, size: int)
    requires
        0 <= a < b < a + size,
    ensures
        a % size != b % size,
        0 <= a % size < size,
        0 <= b % size < size,
{
    if a % size == b % size {
        vstd::arithmetic::div_mod::lemma_fundamental_div_mod(a, size);
        vstd::arithmetic::div_mod::lemma_fundamental_div_mod(b, size);
        let q = b / size - a / size;
        assert(b - a == size * q) by (nonlinear_arith)
            requires
                a == size * (a / size) + a % size,
                b == size * (b / size) + b % size,
                a % size == b % size,
                q == b / size - a / size,
        ;
        assert(false) by (nonlinear_arith)
            requires
                b - a == size * q,
                0 < b - a < size,
        ;
    }
    vstd::arithmetic::div_mod::lemma_mod_bound(a, size);
    vstd::arithmetic::div_mod::lemma_mod_bound(b, size);
}

/// Writing an item at the head pushes it.
pub proof fn lemma_ring_push<T>(s: Seq<T>, head: int, n: int, v: T)
    requires
        s.len() > 0,
        0 <= n <= s.len(),
        n <= head,
    ensures
        ring(s.update(head % (s.len() as int), v), head + 1, min(n + 1, s.len() as int)) == pushed(
            ring(s, head, n),
            s.len() as int,
            v,
        ),
{
    let size = s.len() as int;
    let t = s.update(head % size, v);
    let k = min(n + 1, size);
    let left = ring(t, head + 1, k);
    let right = pushed(ring(s, head, n), size, v);
    vstd::arithmetic::div_mod::lemma_mod_bound(head, size);
    assert(left.len() == right.len());
    assert forall|i: int| 0 <= i < k implies left[i] == right[i] by {
        let at = head + 1 - k + i;
        if at < head {
            lemma_places_differ(at, head, size);
        }
    }
    assert(left =~= right);
}

/// Dropping the oldest item.
pub proof fn lemma_ring_drop<T>(s: Seq<T>, head: int, n: int)
    requires
        s.len() > 0,
        0 < n <= s.len(),
    ensures
        ring(s, head, n - 1) == ring(s, head, n).drop_first(),
{
    assert(ring(s, head, n - 1) =~= ring(s, head, n).drop_first());
}

/// After any run of items the ring holds the most recent ones, as many as fit,
/// in the order in which they came.
pub open spec fn pushed_all<T>(items: Seq<T>, size: int, vs: Seq<T>) -> Seq<T>
    decreases vs.len(),
{
    if vs.len() == 0 {
        items
    } else {
        pushed(pushed_all(items, size, vs.drop_last()), size, vs.last())
    }
}

/// After any run of items an empty ring holds the most recent ones, as many as
/// fit, in the order in which they came.
pub proof fn lemma_ring_keeps_latest<T>(size: int, vs: Seq<T>)
    requires
        size > 0,
    ensures
        pushed_all(Seq::empty(), size, vs) == vs.skip(vs.len() - min(vs.len() as int, size)),
    decreases vs.len(),
{
    if vs.len() > 0 {
        let w = vs.drop_last();
        lemma_ring_keeps_latest(size, w);
        let held = w.skip(w.len() - min(w.len() as int, size));
        assert(pushed(held, size, vs.last()) =~= vs.skip(vs.len() - min(vs.len() as int, size)));
    } else {
        assert(vs.skip(0) =~= Seq::<T>::empty());
    }
}

} // verus!
