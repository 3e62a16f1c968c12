//! Scanning of bytes.

use vstd::prelude::*;

verus! {

/// Place of the first byte `b` from `from` on; the length if there is none.
pub open spec fn find(data: Seq<u8>, b: u8, from: int) -> int
    decreases data.len() - from,
{
    if from >= data.len() {
        data.len() as int
    } else if data[from] == b {
        from
    } else {
        find(data, b, from + 1)
    }
}

/// The place found holds the byte, and no earlier one does.
pub proof fn lemma_find(data: Seq<u8>, b: u8, from: int)
    requires
        0 <= from <= data.len(),
    ensures
        from <= find(data, b, from) <= data.len(),
        find(data, b, from) < data.len() ==> data[find(data, b, from)] == b,
        forall|i: int| from <= i < find(data, b, from) ==> data[i] != b,
    decreases data.len() - from,
{
    if from < data.len() && data[from] != b {
        lemma_find(data, b, from + 1);
    }
}

/// Place of the first byte `b` from `from` on; the length if there is none.
pub fn find_byte(data: &[u8], b: u8, from: usize) -> (r: usize)
    requires
        from <= data@.len(),
    ensures
        r == find(data@, b, from as int),
        from <= r <= data@.len(),
{
    let len: usize = data.len();
    let mut i: usize = from;
    while i < len && data[i] != b
        invariant
            from <= i <= len == data@.len(),
            find(data@, b, i as int) == find(data@, b, from as int),
        decreases len - i,
    {
        i = i + 1;
    }
    i
}

/// The bytes of `pattern` stand at `from`.
pub open spec fn stands_at(data: Seq<u8>, from: int, pattern: Seq<u8>) -> bool {
    from + pattern.len() <= data.len() && data.subrange(from, from + pattern.len()) == pattern
}

/// Check if the bytes of a pattern stand at a place.
pub fn matches_at(data: &[u8], from: usize, pattern: &[u8]) -> (r: bool)
    requires
        from <= data@.len(),
    ensures
        r == stands_at(data@, from as int, pattern@),
{
    let len: usize = data.len();
    let n: usize = pattern.len();
    if n > len - from {
        return false;
    }
    let mut i: usize = 0;
    while i < n
        invariant
            i <= n == pattern@.len(),
            from + n <= len == data@.len(),
            forall|j: int| 0 <= j < i ==> data@[from + j] == #[trigger] pattern@[j],
        decreases n - i,
    {
        if data[from + i] != pattern[i] {
            assert(data@.subrange(from as int, from + n)[i as int] != pattern@[i as int]);
            return false;
        }
        i = i + 1;
    }
    assert(data@.subrange(from as int, from + n) =~= pattern@);
    true
}

} // verus!
