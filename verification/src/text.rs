//! White space around text that is encoded in UTF-8.

use vstd::prelude::*;

verus! {

/// White space that is encoded in one byte.
pub open spec fn is_space(b: u8) -> bool {
    b == 32 || 9 <= b <= 13
}

/// White space that is encoded in two bytes: next line and no-break space.
pub open spec fn is_space2(a: u8, b: u8) -> bool {
    a == 0xC2 && (b == 0x85 || b == 0xA0)
}

/// White space that is encoded in three bytes: ogham space mark, the spaces of the
/// general punctuation, its line and paragraph separators, and ideographic space.
pub open spec fn is_space3(a: u8, b: u8, c: u8) -> bool {
    ||| a == 0xE1 && b == 0x9A && c == 0x80
    ||| a == 0xE2 && b == 0x80 && (0x80 <= c <= 0x8A || c == 0xA8 || c == 0xA9 || c == 0xAF)
    ||| a == 0xE2 && b == 0x81 && c == 0x9F
    ||| a == 0xE3 && b == 0x80 && c == 0x80
}

/// Bytes of the white space character at the front; zero if there is none.
pub open spec fn space_front(s: Seq<u8>) -> int {
    if s.len() >= 1 && is_space(s[0]) {
        1
    } else if s.len() >= 2 && is_space2(s[0], s[1]) {
        2
    } else if s.len() >= 3 && is_space3(s[0], s[1], s[2]) {
        3
    } else {
        0
    }
}

/// Bytes of the white space character at the back; zero if there is none.
pub open spec fn space_back(s: Seq<u8>) -> int {
    let n = s.len() as int;
    if n >= 1 && is_space(s[n - 1]) {
        1
    } else if n >= 2 && is_space2(s[n - 2], s[n - 1]) {
        2
    } else if n >= 3 && is_space3(s[n - 3], s[n - 2], s[n - 1]) {
        3
    } else {
        0
    }
}

/// Text, encoded in bytes, without white space at both ends.
pub open spec fn trimmed(s: Seq<u8>) -> Seq<u8>
    decreases s.len(),
{
    if space_front(s) > 0 {
        trimmed(s.skip(space_front(s)))
    } else if space_back(s) > 0 {
        trimmed(s.take(s.len() - space_back(s)))
    } else {
        s
    }
}

/// Whether a byte is white space.
fn space(b: u8) -> (r: bool)
    ensures
        r == is_space(b),
{
    b == 32 || (9 <= b && b <= 13)
}

/// Whether two bytes are white space.
fn space2(a: u8, b: u8) -> (r: bool)
    ensures
        r == is_space2(a, b),
{
    a == 0xC2 && (b == 0x85 || b == 0xA0)
}

/// Whether three bytes are white space.
fn space3(a: u8, b: u8, c: u8) -> (r: bool)
    ensures
        r == is_space3(a, b, c),
{
    (a == 0xE1 && b == 0x9A && c == 0x80) || (a == 0xE2 && b == 0x80 && ((0x80 <= c && c <= 0x8A)
        || c == 0xA8 || c == 0xA9 || c == 0xAF)) || (a == 0xE2 && b == 0x81 && c == 0x9F) || (a
        == 0xE3 && b == 0x80 && c == 0x80)
}

/// Bytes of the white space character at the front of a part of a text.
fn front_of(text: &[u8], from: usize, to: usize) -> (r: usize)
    requires
        from <= to <= text@.len(),
    ensures
        r == space_front(text@.subrange(from as int, to as int)),
        r <= to - from,
{
    let n: usize = to - from;
    if n >= 1 && space(text[from]) {
        1
    } else if n >= 2 && space2(text[from], text[from + 1]) {
        2
    } else if n >= 3 && space3(text[from], text[from + 1], text[from + 2]) {
        3
    } else {
        0
    }
}

/// Bytes of the white space character at the back of a part of a text.
fn back_of(text: &[u8], from: usize, to: usize) -> (r: usize)
    requires
        from <= to <= text@.len(),
    ensures
        r == space_back(text@.subrange(from as int, to as int)),
        r <= to - from,
{
    let n: usize = to - from;
    if n >= 1 && space(text[to - 1]) {
        1
    } else if n >= 2 && space2(text[to - 2], text[to - 1]) {
        2
    } else if n >= 3 && space3(text[to - 3], text[to - 2], text[to - 1]) {
        3
    } else {
        0
    }
}

/// First and last place of a text without white space at both ends.
pub fn trim(text: &[u8]) -> (r: (usize, usize))
    ensures
        r.0 <= r.1 <= text@.len(),
        text@.subrange(r.0 as int, r.1 as int) == trimmed(text@),
{
    let len: usize = text.len();
    let mut from: usize = 0;
    let mut to: usize = len;
    assert(text@.subrange(0, len as int) =~= text@);
    let mut n: usize = front_of(text, from, to);
    while n > 0
        invariant
            from <= to == text@.len(),
            n <= to - from,
            n == space_front(text@.subrange(from as int, to as int)),
            trimmed(text@.subrange(from as int, to as int)) == trimmed(text@),
        decreases to - from,
    {
        assert(text@.subrange(from as int, to as int).skip(n as int) =~= text@.subrange(
            from + n,
            to as int,
        ));
        from = from + n;
        n = front_of(text, from, to);
    }
    n = back_of(text, from, to);
    while n > 0
        invariant
            from <= to <= text@.len(),
            n <= to - from,
            n == space_back(text@.subrange(from as int, to as int)),
            space_front(text@.subrange(from as int, to as int)) == 0,
            trimmed(text@.subrange(from as int, to as int)) == trimmed(text@),
        decreases to - from,
    {
        let ghost s = text@.subrange(from as int, to as int);
        assert(s.take(s.len() - n) =~= text@.subrange(from as int, to - n));
        assert(space_front(s.take(s.len() - n)) == 0);
        to = to - n;
        n = back_of(text, from, to);
    }
    (from, to)
}

/// Text that neither begins nor ends with white space is left as it is, seen here of text
/// that begins and ends with a printed character of ASCII.
pub proof fn lemma_plain_text_is_kept(s: Seq<u8>)
    requires
        s.len() > 0,
        33 <= s[0] <= 126,
        33 <= s.last() <= 126,
    ensures
        trimmed(s) == s,
{
}

/// White space in front is dropped: a space, a tab, an end of line, or one of the spaces
/// that take two or three bytes.
pub proof fn lemma_front_is_dropped(s: Seq<u8>, b: u8)
    ensures
        b == 32 || b == 9 || b == 10 || b == 11 || b == 12 || b == 13 ==> trimmed(seq![b] + s)
            == trimmed(s),
        trimmed(seq![0xC2u8, 0xA0u8] + s) == trimmed(s),
        trimmed(seq![0xC2u8, 0x85u8] + s) == trimmed(s),
        0x80 <= b <= 0x8A || b == 0xA8 || b == 0xA9 || b == 0xAF ==> trimmed(
            seq![0xE2u8, 0x80u8, b] + s,
        ) == trimmed(s),
        trimmed(seq![0xE1u8, 0x9Au8, 0x80u8] + s) == trimmed(s),
        trimmed(seq![0xE2u8, 0x81u8, 0x9Fu8] + s) == trimmed(s),
        trimmed(seq![0xE3u8, 0x80u8, 0x80u8] + s) == trimmed(s),
{
    assert((seq![b] + s).skip(1) =~= s);
    assert((seq![0xC2u8, 0xA0u8] + s).skip(2) =~= s);
    assert((seq![0xC2u8, 0x85u8] + s).skip(2) =~= s);
    assert((seq![0xE2u8, 0x80u8, b] + s).skip(3) =~= s);
    assert((seq![0xE1u8, 0x9Au8, 0x80u8] + s).skip(3) =~= s);
    assert((seq![0xE2u8, 0x81u8, 0x9Fu8] + s).skip(3) =~= s);
    assert((seq![0xE3u8, 0x80u8, 0x80u8] + s).skip(3) =~= s);
}

/// A space, a tab or an end of line behind is dropped.
pub proof fn lemma_back_is_dropped(s: Seq<u8>, b: u8)
    requires
        b == 32 || b == 9 || b == 10 || b == 11 || b == 12 || b == 13,
    ensures
        trimmed(s.push(b)) == trimmed(s),
    decreases s.len(),
{
    let t = s.push(b);
    if s.len() == 0 {
        assert(t.skip(1) =~= s);
    } else if space_front(s) > 0 {
        let n = space_front(s);
        assert(space_front(t) == n);
        assert(t.skip(n) =~= s.skip(n).push(b));
        lemma_back_is_dropped(s.skip(n), b);
    } else {
        assert(space_front(t) == 0);
        assert(t.take(t.len() - 1) =~= s);
    }
}

/// What is left neither begins nor ends with a space, a tab or an end of line, and it is
/// a stretch of the text.
pub proof fn lemma_trimmed_has_clean_ends(s: Seq<u8>)
    ensures
        trimmed(s).len() > 0 ==> trimmed(s)[0] != 32 && !(9 <= trimmed(s)[0] <= 13),
        trimmed(s).len() > 0 ==> trimmed(s).last() != 32 && !(9 <= trimmed(s).last() <= 13),
        exists|i: int, j: int|
            0 <= i <= j <= s.len() && #[trigger] s.subrange(i, j) == trimmed(s),
    decreases s.len(),
{
    if space_front(s) > 0 {
        let n = space_front(s);
        lemma_trimmed_has_clean_ends(s.skip(n));
        let (i, j) = choose|i: int, j: int|
            0 <= i <= j <= s.skip(n).len() && #[trigger] s.skip(n).subrange(i, j) == trimmed(
                s.skip(n),
            );
        assert(s.subrange(i + n, j + n) =~= s.skip(n).subrange(i, j));
    } else if space_back(s) > 0 {
        let m = s.len() - space_back(s);
        lemma_trimmed_has_clean_ends(s.take(m));
        let (i, j) = choose|i: int, j: int|
            0 <= i <= j <= s.take(m).len() && #[trigger] s.take(m).subrange(i, j) == trimmed(
                s.take(m),
            );
        assert(s.subrange(i, j) =~= s.take(m).subrange(i, j));
    } else {
        assert(s.subrange(0, s.len() as int) =~= s);
    }
}

} // verus!
