//! LZ4 variant for financial time-series data.
//!
//! A stream is a run of sequences. A sequence is a token, literals, and a
//! match: a distance back into the output and a length. The high half of the
//! token counts the literals (15 announces more count bytes, the last of which
//! is below 255); the low half is the match length less four. The last
//! sequence has literals only.

use vstd::prelude::*;
use crate::bytes::{
    get_le,
    le_bytes,
    le_value,
    lemma_le_len,
    lemma_le_round_trip,
    lemma_le_value_bound,
    lemma_pow256,
    put_le,
};
use crate::fixed::min;

verus! {

/// Largest input, and largest output of the decoder.
pub const MAX_INPUT_SIZE: usize = 65536;

/// Room that the compressed form of any input fits in.
pub const MAX_OUTPUT_SIZE: usize = 69632;

/// Entries of the hash table.
pub const HASH_SIZE: usize = 65536;

/// Factor of the hash.
pub const HASH_FACTOR: u32 = 0x9E37_79B9;

/// Shortest match.
pub const MIN_MATCH: usize = 4;

/// Longest match.
pub const MAX_MATCH: usize = 19;

/// Count bytes for `n` more literals: as many 255s as fit, then the rest.
pub open spec fn ext_bytes(n: nat) -> Seq<u8>
    decreases n,
{
    if n >= 255 {
        seq![255u8] + ext_bytes((n - 255) as nat)
    } else {
        seq![n as u8]
    }
}

/// What the count bytes at the front of `s` add up to.
pub open spec fn ext_sum(s: Seq<u8>) -> int
    decreases s.len(),
{
    if s.len() == 0 {
        0
    } else if s[0] == 255 {
        255 + ext_sum(s.skip(1))
    } else {
        s[0] as int
    }
}

/// How many count bytes stand at the front of `s`.
pub open spec fn ext_len(s: Seq<u8>) -> int
    decreases s.len(),
{
    if s.len() == 0 {
        0
    } else if s[0] == 255 {
        1 + ext_len(s.skip(1))
    } else {
        1
    }
}

/// Count bytes read back.
pub proof fn lemma_ext_round_trip(n: nat, t: Seq<u8>)
    ensures
        ext_sum(ext_bytes(n) + t) == n,
        ext_len(ext_bytes(n) + t) == ext_bytes(n).len(),
        ext_bytes(n).len() == n / 255 + 1,
    decreases n,
{
    let s = ext_bytes(n) + t;
    if n >= 255 {
        lemma_ext_round_trip((n - 255) as nat, t);
        assert(s.skip(1) =~= ext_bytes((n - 255) as nat) + t);
        assert(n / 255 == (n - 255) / 255 + 1);
    }
}

/// Count bytes are no more than there are bytes.
pub proof fn lemma_ext_len(s: Seq<u8>)
    ensures
        0 <= ext_len(s) <= s.len(),
        0 <= ext_sum(s),
    decreases s.len(),
{
    if s.len() > 0 && s[0] == 255 {
        lemma_ext_len(s.skip(1));
    }
}

/// Output after `n` bytes were copied one by one from `offset` back.
pub open spec fn extend(out: Seq<u8>, offset: int, n: nat) -> Seq<u8>
    decreases n,
{
    if n == 0 {
        out
    } else {
        extend(out.push(out[out.len() - offset]), offset, (n - 1) as nat)
    }
}

/// Literals that a token announces, `rest` being what stands behind it.
pub open spec fn literal_count(token: u8, rest: Seq<u8>) -> int {
    if token / 16 == 15 {
        15 + ext_sum(rest)
    } else {
        (token / 16) as int
    }
}

/// Count bytes that a token announces.
pub open spec fn literal_ext(token: u8, rest: Seq<u8>) -> int {
    if token / 16 == 15 {
        ext_len(rest)
    } else {
        0
    }
}

/// Output of the decoder on `input`, `out` being what it has written before.
/// It stops at the end of the input, when its buffer is full, and at a distance
/// that is zero or reaches before the output.
pub open spec fn decode(input: Seq<u8>, out: Seq<u8>) -> Seq<u8>
    decreases input.len(),
{
    if input.len() == 0 || out.len() >= MAX_INPUT_SIZE {
        out
    } else {
        let token = input[0];
        let rest = input.skip(1);
        let body = rest.skip(literal_ext(token, rest));
        let n = min(
            min(literal_count(token, rest), body.len() as int),
            MAX_INPUT_SIZE - out.len(),
        );
        let out1 = out + body.take(n);
        let tail = body.skip(n);
        if tail.len() < 2 || out1.len() >= MAX_INPUT_SIZE {
            out1
        } else {
            let offset = le_value(tail.take(2));
            if offset == 0 || offset > out1.len() {
                out1
            } else {
                let m = min(token % 16 + MIN_MATCH, MAX_INPUT_SIZE - out1.len());
                proof {
                    lemma_ext_len(rest);
                }
                decode(tail.skip(2), extend(out1, offset, m as nat))
            }
        }
    }
}

/// Head of a sequence: token, count bytes and literals.
pub open spec fn head_bytes(lits: Seq<u8>, low: int) -> Seq<u8> {
    if lits.len() < 15 {
        seq![(lits.len() * 16 + low) as u8] + lits
    } else {
        seq![(240 + low) as u8] + ext_bytes((lits.len() - 15) as nat) + lits
    }
}

/// A sequence with a match of length `m` at distance `offset`.
pub open spec fn sequence_bytes(lits: Seq<u8>, offset: int, m: int) -> Seq<u8> {
    head_bytes(lits, m - MIN_MATCH) + le_bytes(offset, 2)
}

/// Hash of the four bytes at the front of `s`.
pub open spec fn hash4(s: Seq<u8>) -> int {
    ((le_value(s.take(4)) * HASH_FACTOR) % 0x1_0000_0000) / 0x1_0000
}

/// The bytes at distance `j` behind two positions are the same.
pub open spec fn same(data: Seq<u8>, a: int, b: int, j: int) -> bool {
    data[a + j] == data[b + j]
}

/// Length, from `k` on, of the match of `data` at `ip` with `data` at `cand`:
/// it ends at the first difference, at the longest length, and where the last
/// four bytes begin.
pub open spec fn match_length(data: Seq<u8>, cand: int, ip: int, k: nat) -> nat
    decreases MAX_MATCH - k,
{
    if k < MAX_MATCH && ip + k < data.len() - MIN_MATCH && data[ip + k] == data[cand + k] {
        match_length(data, cand, ip, k + 1)
    } else {
        k
    }
}

/// Match that the encoder takes at `ip`: against the last position whose four
/// bytes had the same hash, if that is behind `ip`.
pub open spec fn candidate_length(data: Seq<u8>, ip: int, table: Seq<u32>) -> nat {
    let cand = table[hash4(data.skip(ip))] as int;
    if cand < ip {
        match_length(data, cand, ip, 0)
    } else {
        0
    }
}

/// Compressed form of `data` from `anchor` on, with no match before `ip`;
/// `table` holds for each hash the last position that had it.
pub open spec fn encode(data: Seq<u8>, ip: int, anchor: int, table: Seq<u32>) -> Seq<u8>
    decreases data.len() - ip,
{
    if ip >= data.len() - MIN_MATCH {
        head_bytes(data.skip(anchor), 0)
    } else {
        let h = hash4(data.skip(ip));
        let m = candidate_length(data, ip, table);
        let next = table.update(h, ip as u32);
        if m >= MIN_MATCH {
            proof {
                lemma_match(data, table[h] as int, ip, 0);
            }
            sequence_bytes(data.subrange(anchor, ip), ip - table[h], m as int) + encode(
                data,
                ip + m,
                ip + m,
                next,
            )
        } else {
            encode(data, ip + 1, anchor, next)
        }
    }
}

/// Hash table without positions.
pub open spec fn empty_table() -> Seq<u32> {
    Seq::new(HASH_SIZE as nat, |i: int| 0u32)
}

/// Compressed form of `data`.
pub open spec fn compressed(data: Seq<u8>) -> Seq<u8> {
    encode(data, 0, 0, empty_table())
}

/// A hash is a place in the table.
pub proof fn lemma_hash_range(s: Seq<u8>)
    ensures
        0 <= hash4(s) < HASH_SIZE,
{
    let x = le_value(s.take(4)) * HASH_FACTOR;
    assert(0 <= x % 0x1_0000_0000 < 0x1_0000_0000);
}

/// What a match length says.
pub proof fn lemma_match(data: Seq<u8>, cand: int, ip: int, k: nat)
    requires
        k <= MAX_MATCH,
        k == 0 || ip + k <= data.len() - MIN_MATCH,
        ip <= data.len() - MIN_MATCH,
        forall|j: int| 0 <= j < k ==> same(data, ip, cand, j),
    ensures
        k <= match_length(data, cand, ip, k) <= MAX_MATCH,
        ip + match_length(data, cand, ip, k) <= data.len() - MIN_MATCH,
        forall|j: int|
            0 <= j < match_length(data, cand, ip, k) ==> same(data, ip, cand, j),
    decreases MAX_MATCH - k,
{
    if k < MAX_MATCH && ip + k < data.len() - MIN_MATCH && data[ip + k] == data[cand + k] {
        lemma_match(data, cand, ip, k + 1);
    }
}

/// Copying a match from behind continues the data.
pub proof fn lemma_extend_match(data: Seq<u8>, cand: int, ip: int, m: nat)
    requires
        0 <= cand < ip,
        ip + m <= data.len(),
        forall|j: int| 0 <= j < m ==> same(data, ip, cand, j),
    ensures
        extend(data.take(ip), ip - cand, m) == data.take(ip + m),
    decreases m,
{
    if m > 0 {
        let out = data.take(ip);
        assert(same(data, ip, cand, 0));
        assert(out.push(out[out.len() - (ip - cand)]) =~= data.take(ip + 1));
        let a = ip + 1;
        let b = cand + 1;
        assert forall|j: int| 0 <= j < m - 1 implies same(data, a, b, j) by {
            assert(same(data, ip, cand, j + 1));
        }
        lemma_extend_match(data, b, a, (m - 1) as nat);
    }
}

/// The decoder takes the head of a sequence apart.
pub proof fn lemma_head(lits: Seq<u8>, low: int, t: Seq<u8>)
    requires
        0 <= low < 16,
    ensures
        ({
            let s = head_bytes(lits, low) + t;
            let token = s[0];
            let rest = s.skip(1);
            &&& s.len() > 0
            &&& token % 16 == low
            &&& literal_count(token, rest) == lits.len()
            &&& 0 <= literal_ext(token, rest) <= rest.len()
            &&& rest.skip(literal_ext(token, rest)) == lits + t
        }),
{
    let s = head_bytes(lits, low) + t;
    let rest = s.skip(1);
    if lits.len() < 15 {
        assert(rest.skip(0) =~= lits + t);
    } else {
        let n = (lits.len() - 15) as nat;
        lemma_ext_round_trip(n, lits + t);
        assert(rest =~= ext_bytes(n) + (lits + t));
        assert(rest.skip(ext_bytes(n).len() as int) =~= lits + t);
    }
}

/// The decoder undoes a sequence.
pub proof fn lemma_decode_sequence(
    out: Seq<u8>,
    lits: Seq<u8>,
    offset: int,
    m: int,
    t: Seq<u8>,
)
    requires
        MIN_MATCH <= m <= MAX_MATCH,
        0 < offset <= out.len() + lits.len(),
        out.len() + lits.len() + m <= MAX_INPUT_SIZE,
    ensures
        decode(sequence_bytes(lits, offset, m) + t, out) == decode(
            t,
            extend(out + lits, offset, m as nat),
        ),
{
    let s = sequence_bytes(lits, offset, m) + t;
    let low = m - MIN_MATCH;
    let o = le_bytes(offset, 2);
    lemma_le_len(offset, 2);
    lemma_pow256();
    lemma_le_round_trip(offset, 2);
    lemma_head(lits, low, o + t);
    assert(s =~= head_bytes(lits, low) + (o + t));
    let body = lits + (o + t);
    assert(body.take(lits.len() as int) =~= lits);
    let tail = body.skip(lits.len() as int);
    assert(tail =~= o + t);
    assert(tail.take(2) =~= o);
    assert(tail.skip(2) =~= t);
}

/// The decoder undoes the last literals.
pub proof fn lemma_decode_last(out: Seq<u8>, lits: Seq<u8>)
    requires
        out.len() + lits.len() <= MAX_INPUT_SIZE,
        lits.len() > 0,
    ensures
        decode(head_bytes(lits, 0), out) == out + lits,
{
    let s = head_bytes(lits, 0);
    let e = Seq::<u8>::empty();
    lemma_head(lits, 0, e);
    assert(s =~= s + e);
    assert(lits + e =~= lits);
    assert(lits.take(lits.len() as int) =~= lits);
}

/// Decoding what the encoder still has to write, on top of what was decoded so
/// far, gives the data.
pub proof fn lemma_decode_rest(data: Seq<u8>, ip: int, anchor: int, table: Seq<u32>)
    requires
        MIN_MATCH <= data.len() <= MAX_INPUT_SIZE,
        0 <= anchor <= ip <= data.len() - MIN_MATCH,
        table.len() == HASH_SIZE,
    ensures
        decode(encode(data, ip, anchor, table), data.take(anchor)) == data,
    decreases data.len() - ip,
{
    if ip >= data.len() - MIN_MATCH {
        lemma_decode_last(data.take(anchor), data.skip(anchor));
        assert(data.take(anchor) + data.skip(anchor) =~= data);
    } else {
        let h = hash4(data.skip(ip));
        lemma_hash_range(data.skip(ip));
        let cand = table[h] as int;
        let m = candidate_length(data, ip, table);
        let next = table.update(h, ip as u32);
        if m >= MIN_MATCH {
            lemma_match(data, cand, ip, 0);
            let lits = data.subrange(anchor, ip);
            assert(data.take(anchor) + lits =~= data.take(ip));
            lemma_extend_match(data, cand, ip, m);
            lemma_decode_sequence(
                data.take(anchor),
                lits,
                ip - cand,
                m as int,
                encode(data, ip + m, ip + m, next),
            );
            lemma_decode_rest(data, ip + m, ip + m, next);
        } else {
            lemma_decode_rest(data, ip + 1, anchor, next);
        }
    }
}

/// Round trip: what the encoder writes, the decoder reads back unchanged.
pub proof fn lemma_round_trip(data: Seq<u8>)
    requires
        MIN_MATCH <= data.len() <= MAX_INPUT_SIZE,
    ensures
        decode(compressed(data), Seq::empty()) == data,
{
    lemma_decode_rest(data, 0, 0, empty_table());
    assert(data.take(0) =~= Seq::<u8>::empty());
}

/// Length of the head of a sequence.
pub proof fn lemma_head_len(lits: Seq<u8>, low: int)
    ensures
        head_bytes(lits, low).len() <= lits.len() + lits.len() / 255 + 2,
        lits.len() >= 15 ==> head_bytes(lits, low).len() <= lits.len() + (lits.len() + 4) / 255 + 2,
        lits.len() < 15 ==> head_bytes(lits, low).len() == lits.len() + 1,
{
    if lits.len() >= 15 {
        lemma_ext_round_trip((lits.len() - 15) as nat, Seq::empty());
    }
}

/// The compressed form is hardly longer than the data.
pub proof fn lemma_encoded_len(data: Seq<u8>, ip: int, anchor: int, table: Seq<u32>)
    requires
        MIN_MATCH <= data.len(),
        0 <= anchor <= ip <= data.len() - MIN_MATCH,
    ensures
        encode(data, ip, anchor, table).len() <= (data.len() - anchor) + (data.len() - anchor) / 255
            + 2,
    decreases data.len() - ip,
{
    if ip >= data.len() - MIN_MATCH {
        lemma_head_len(data.skip(anchor), 0);
    } else {
        let h = hash4(data.skip(ip));
        let cand = table[h] as int;
        let m = candidate_length(data, ip, table);
        let next = table.update(h, ip as u32);
        if m >= MIN_MATCH {
            lemma_match(data, cand, ip, 0);
            let lits = data.subrange(anchor, ip);
            lemma_head_len(lits, m - MIN_MATCH);
            lemma_le_len(ip - cand, 2);
            lemma_encoded_len(data, ip + m, ip + m, next);
        } else {
            lemma_encoded_len(data, ip + 1, anchor, next);
        }
    }
}

/// The compressed form of any input fits in the room set aside for it.
pub proof fn lemma_output_fits(data: Seq<u8>)
    requires
        MIN_MATCH <= data.len() <= MAX_INPUT_SIZE,
    ensures
        compressed(data).len() <= MAX_OUTPUT_SIZE,
{
    lemma_encoded_len(data, 0, 0, empty_table());
}

/// Append the head of a sequence: the literals are `data` from `from` to `to`.
fn put_head(out: &mut Vec<u8>, data: &Vec<u8>, from: usize, to: usize, low: u8)
    requires
        from <= to <= data@.len(),
        low < 16,
    ensures
        final(out)@ == old(out)@ + head_bytes(data@.subrange(from as int, to as int), low as int),
{
    let ghost lits = data@.subrange(from as int, to as int);
    let n: usize = to - from;
    if n < 15 {
        out.push((n * 16 + low as usize) as u8);
        assert(out@ =~= old(out)@ + seq![(lits.len() * 16 + low) as u8]);
    } else {
        out.push(240 + low);
        let mut more: usize = n - 15;
        let ghost start = out@;
        let ghost all = ext_bytes((n - 15) as nat);
        while more >= 255
            invariant
                out@ + ext_bytes(more as nat) =~= start + all,
            decreases more,
        {
            let ghost before = out@;
            out.push(255);
            proof {
                let later = ext_bytes((more - 255) as nat);
                assert(ext_bytes(more as nat) == seq![255u8] + later);
                assert(out@ + later =~= before + (seq![255u8] + later));
            }
            more = more - 255;
        }
        assert(ext_bytes(more as nat) == seq![more as u8]);
        out.push(more as u8);
        assert(out@ =~= start + all);
    }
    let ghost head = out@;
    let mut i: usize = from;
    while i < to
        invariant
            from <= i <= to <= data@.len(),
            out@ == head + data@.subrange(from as int, i as int),
        decreases to - i,
    {
        out.push(data[i]);
        assert(data@.subrange(from as int, i + 1) =~= data@.subrange(from as int, i as int).push(
            data@[i as int],
        ));
        i = i + 1;
    }
    assert(out@ =~= old(out)@ + head_bytes(lits, low as int));
}

/// Encoder.
#[derive(Debug)]
pub struct Lz4Encoder {
    /// Loaded input.
    pub input_buffer: Vec<u8>,
    /// Compressed form of the input that was compressed last.
    pub output_buffer: Vec<u8>,
    /// Runs of the compressor.
    pub compress_count: u64,
}

impl Lz4Encoder {
    /// The loaded input is no longer than the largest input.
    pub open spec fn wf(&self) -> bool {
        self.input_buffer@.len() <= MAX_INPUT_SIZE
    }

    /// Encoder with nothing loaded.
    pub fn new() -> (r: Self)
        ensures
            r.wf(),
            r.input_buffer@ == Seq::<u8>::empty(),
            r.output_buffer@ == Seq::<u8>::empty(),
            r.compress_count == 0,
    {
        Lz4Encoder { input_buffer: Vec::new(), output_buffer: Vec::new(), compress_count: 0 }
    }

    /// Hash of the four bytes at position `pos`.
    fn hash_sequence(data: &Vec<u8>, pos: usize) -> (r: usize)
        requires
            pos + 4 <= data@.len(),
        ensures
            r == hash4(data@.skip(pos as int)),
            r < HASH_SIZE,
    {
        proof {
            lemma_le_value_bound(data@.subrange(pos as int, pos + 4));
            lemma_pow256();
            assert(data@.skip(pos as int).take(4) =~= data@.subrange(pos as int, pos + 4));
            lemma_hash_range(data@.skip(pos as int));
        }
        let seq: u32 = get_le(data.as_slice(), pos, 4) as u32;
        (seq.wrapping_mul(HASH_FACTOR) / 0x1_0000) as usize
    }

    /// Load the input. Input that is too long is refused.
    pub fn load_input(&mut self, data: &[u8]) -> (r: bool)
        requires
            old(self).wf(),
        ensures
            final(self).wf(),
            r == (data@.len() <= MAX_INPUT_SIZE),
            r ==> final(self).input_buffer@ == data@,
            !r ==> final(self).input_buffer@ == old(self).input_buffer@,
            final(self).output_buffer@ == old(self).output_buffer@,
            final(self).compress_count == old(self).compress_count,
    {
        if data.len() > MAX_INPUT_SIZE {
            return false;
        }
        self.input_buffer = crate::bytes::copy_range(data, 0, data.len());
        assert(self.input_buffer@ =~= data@);
        true
    }

    /// Compress the loaded input. Gives the length of the compressed form, or
    /// zero if nothing is loaded.
    pub fn compress(&mut self) -> (r: usize)
        requires
            old(self).wf(),
            old(self).input_buffer@.len() == 0 || old(self).input_buffer@.len() >= MIN_MATCH,
        ensures
            final(self).wf(),
            final(self).input_buffer@ == old(self).input_buffer@,
            old(self).input_buffer@.len() == 0 ==> r == 0 && *final(self) == *old(self),
            old(self).input_buffer@.len() > 0 ==> {
                &&& final(self).output_buffer@ == compressed(old(self).input_buffer@)
                &&& r == final(self).output_buffer@.len()
                &&& 0 < r <= MAX_OUTPUT_SIZE
                &&& decode(final(self).output_buffer@, Seq::empty()) == old(self).input_buffer@
                &&& final(self).compress_count == old(self).compress_count.wrapping_add(1)
            },
    {
        let ghost data = self.input_buffer@;
        let len: usize = self.input_buffer.len();
        if len == 0 {
            return 0;
        }
        let mut table: Vec<u32> = Vec::new();
        while table.len() < HASH_SIZE
            invariant
                table@.len() <= HASH_SIZE,
                forall|i: int| 0 <= i < table@.len() ==> table@[i] == 0,
            decreases HASH_SIZE - table@.len(),
        {
            table.push(0);
        }
        assert(table@ =~= empty_table());
        let mut out: Vec<u8> = Vec::new();
        let mut ip: usize = 0;
        let mut anchor: usize = 0;
        let end: usize = len - MIN_MATCH;
        assert(out@ + encode(data, 0, 0, table@) =~= compressed(data));
        while ip < end
            invariant
                data == self.input_buffer@,
                data.len() == len <= MAX_INPUT_SIZE,
                end == len - MIN_MATCH,
                anchor <= ip <= end,
                table@.len() == HASH_SIZE,
                out@ + encode(data, ip as int, anchor as int, table@) == compressed(data),
            decreases end - ip,
        {
            let h: usize = Self::hash_sequence(&self.input_buffer, ip);
            let cand: usize = table[h] as usize;
            let ghost before = table@;
            table.set(h, ip as u32);
            let mut m: usize = 0;
            if cand < ip {
                while m < MAX_MATCH && ip + m < end && self.input_buffer[ip + m]
                    == self.input_buffer[cand + m]
                    invariant
                        data == self.input_buffer@,
                        data.len() == len <= MAX_INPUT_SIZE,
                        end == len - MIN_MATCH,
                        cand < ip,
                        m <= MAX_MATCH,
                        ip + m <= end,
                        match_length(data, cand as int, ip as int, m as nat) == match_length(
                            data,
                            cand as int,
                            ip as int,
                            0,
                        ),
                    decreases MAX_MATCH - m,
                {
                    m = m + 1;
                }
            }
            assert(m == candidate_length(data, ip as int, before));
            if m >= MIN_MATCH {
                proof {
                    lemma_match(data, cand as int, ip as int, 0);
                }
                let ghost prior = out@;
                put_head(&mut out, &self.input_buffer, anchor, ip, (m - MIN_MATCH) as u8);
                put_le(&mut out, (ip - cand) as u64, 2);
                proof {
                    let seq = sequence_bytes(
                        data.subrange(anchor as int, ip as int),
                        ip - cand,
                        m as int,
                    );
                    let tail = encode(data, ip + m, ip + m, table@);
                    assert(out@ =~= prior + seq);
                    assert(encode(data, ip as int, anchor as int, before) == seq + tail);
                    assert(out@ + tail =~= prior + (seq + tail));
                }
                ip = ip + m;
                anchor = ip;
            } else {
                ip = ip + 1;
            }
        }
        put_head(&mut out, &self.input_buffer, anchor, len, 0);
        proof {
            assert(data.skip(anchor as int) =~= data.subrange(anchor as int, len as int));
            lemma_round_trip(data);
            lemma_output_fits(data);
        }
        self.output_buffer = out;
        self.compress_count = self.compress_count.wrapping_add(1);
        self.output_buffer.len()
    }

    /// Input length as a percentage of output length; zero without output.
    pub fn get_compression_ratio(&self) -> (r: u64)
        requires
            self.wf(),
        ensures
            r == if self.output_buffer@.len() == 0 {
                0
            } else {
                (self.input_buffer@.len() * 100) / self.output_buffer@.len()
            },
    {
        let input: u64 = self.input_buffer.len() as u64;
        let output: u64 = self.output_buffer.len() as u64;
        if output == 0 {
            return 0;
        }
        (input * 100) / output
    }

    /// The compressed form.
    pub fn get_output_slice(&self) -> (r: &[u8])
        ensures
            r@ == self.output_buffer@,
    {
        self.output_buffer.as_slice()
    }
}

/// Decoder.
#[derive(Debug)]
pub struct Lz4Decoder {
    /// What was decoded last.
    pub output_buffer: Vec<u8>,
    /// Runs of the decompressor.
    pub decompress_count: u64,
}

/// Literals that a token announces, up to the size of the buffer, and the
/// position behind the count bytes; `pos` is the position behind the token.
fn read_literal_count(input: &[u8], token: u8, pos: usize) -> (r: (usize, usize))
    requires
        pos <= input@.len(),
    ensures
        r.0 == min(literal_count(token, input@.skip(pos as int)), MAX_INPUT_SIZE as int),
        r.1 == pos + literal_ext(token, input@.skip(pos as int)),
        r.1 <= input@.len(),
{
    let len: usize = input.len();
    let ghost rest = input@.skip(pos as int);
    proof {
        lemma_ext_len(rest);
    }
    let mut count: usize = (token / 16) as usize;
    if count < 15 {
        return (count, pos);
    }
    let mut i: usize = pos;
    let mut more = true;
    while more && i < len
        invariant
            pos <= i <= len == input@.len(),
            rest == input@.skip(pos as int),
            15 <= count <= MAX_INPUT_SIZE,
            more ==> count == min(
                15 + ext_sum(rest) - ext_sum(input@.skip(i as int)),
                MAX_INPUT_SIZE as int,
            ),
            more ==> ext_len(rest) == i - pos + ext_len(input@.skip(i as int)),
            ext_sum(rest) >= ext_sum(input@.skip(i as int)) || !more,
            !more ==> count == min(15 + ext_sum(rest), MAX_INPUT_SIZE as int),
            !more ==> ext_len(rest) == i - pos,
        decreases len - i,
    {
        let e: u8 = input[i];
        let ghost here = input@.skip(i as int);
        proof {
            assert(here[0] == e);
            assert(here.skip(1) =~= input@.skip(i + 1));
            lemma_ext_len(here.skip(1));
        }
        count = count + e as usize;
        if count > MAX_INPUT_SIZE {
            count = MAX_INPUT_SIZE;
        }
        if e < 255 {
            more = false;
        }
        i = i + 1;
    }
    (count, i)
}

impl Lz4Decoder {
    /// Decoder without output.
    pub fn new() -> (r: Self)
        ensures
            r.output_buffer@ == Seq::<u8>::empty(),
            r.decompress_count == 0,
    {
        Lz4Decoder { output_buffer: Vec::new(), decompress_count: 0 }
    }

    /// Decompress a stream. Gives the length of the output.
    pub fn decompress(&mut self, input: &[u8]) -> (r: usize)
        ensures
            final(self).output_buffer@ == decode(input@, Seq::empty()),
            r == final(self).output_buffer@.len(),
            r <= MAX_INPUT_SIZE,
            final(self).decompress_count == old(self).decompress_count.wrapping_add(1),
    {
        let len: usize = input.len();
        let mut out: Vec<u8> = Vec::new();
        let mut ip: usize = 0;
        let ghost goal = decode(input@, Seq::empty());
        let mut done = false;
        assert(input@.skip(0) =~= input@);
        assert(out@ =~= Seq::<u8>::empty());
        while !done && ip < len && out.len() < MAX_INPUT_SIZE
            invariant
                len == input@.len(),
                ip <= len,
                out@.len() <= MAX_INPUT_SIZE,
                done ==> out@ == goal,
                !done ==> decode(input@.skip(ip as int), out@) == goal,
            decreases len - ip + (if done {
                0int
            } else {
                1int
            }),
        {
            let token: u8 = input[ip];
            let ghost from = input@.skip(ip as int);
            let ghost rest = input@.skip(ip + 1);
            let ghost out0 = out@;
            assert(from.skip(1) =~= rest);
            let (count, body_pos) = read_literal_count(input, token, ip + 1);
            let ghost body = input@.skip(body_pos as int);
            proof {
                lemma_ext_len(rest);
            }
            assert(rest.skip(literal_ext(token, rest)) =~= body);
            let mut k: usize = 0;
            while k < count && body_pos + k < len && out.len() < MAX_INPUT_SIZE
                invariant
                    len == input@.len(),
                    body_pos + k <= len,
                    k <= count,
                    body == input@.skip(body_pos as int),
                    out@ == out0 + body.take(k as int),
                    out@.len() <= MAX_INPUT_SIZE,
                decreases count - k,
            {
                out.push(input[body_pos + k]);
                assert(body.take(k + 1) =~= body.take(k as int).push(body[k as int]));
                k = k + 1;
            }
            let ghost n = min(
                min(literal_count(token, rest), body.len() as int),
                MAX_INPUT_SIZE - out0.len(),
            );
            assert(k == n);
            ip = body_pos + k;
            let ghost tail = body.skip(n);
            assert(tail =~= input@.skip(ip as int));
            if len - ip < 2 || out.len() >= MAX_INPUT_SIZE {
                done = true;
            } else {
                assert(tail.take(2) =~= input@.subrange(ip as int, ip + 2));
                let offset: u64 = get_le(input, ip, 2);
                ip = ip + 2;
                if offset == 0 || offset > out.len() as u64 {
                    done = true;
                } else {
                    let back: usize = offset as usize;
                    let m: usize = (token % 16) as usize + MIN_MATCH;
                    let ghost out1 = out@;
                    let ghost room = min(m as int, MAX_INPUT_SIZE - out1.len());
                    let ghost whole = extend(out1, offset as int, room as nat);
                    let mut i: usize = 0;
                    while i < m && out.len() < MAX_INPUT_SIZE
                        invariant
                            i <= m,
                            out@.len() == out1.len() + i,
                            out@.len() <= MAX_INPUT_SIZE,
                            room == min(m as int, MAX_INPUT_SIZE - out1.len()),
                            0 < back <= out1.len(),
                            extend(out@, back as int, (room - i) as nat) == whole,
                        decreases m - i,
                    {
                        let b: u8 = out[out.len() - back];
                        out.push(b);
                        i = i + 1;
                    }
                    assert(i == room);
                    assert(tail.skip(2) =~= input@.skip(ip as int));
                }
            }
        }
        let n: usize = out.len();
        self.output_buffer = out;
        self.decompress_count = self.decompress_count.wrapping_add(1);
        n
    }

    /// What was decoded last.
    pub fn get_output_slice(&self) -> (r: &[u8])
        ensures
            r@ == self.output_buffer@,
    {
        self.output_buffer.as_slice()
    }
}

/// A copy goes on from what is there: it keeps it, and each byte that it adds is the one
/// that stands the offset before it, also where that one was added just before.
pub proof fn lemma_extend_copies(out: Seq<u8>, offset: int, n: nat)
    requires
        0 < offset <= out.len(),
    ensures
        ({
            let r = extend(out, offset, n);
            &&& r.len() == out.len() + n
            &&& forall|i: int| 0 <= i < out.len() ==> #[trigger] r[i] == out[i]
            &&& forall|i: int|
                out.len() <= i < r.len() ==> #[trigger] r[i] == r[i - offset]
        }),
    decreases n,
{
    if n > 0 {
        let t = out.push(out[out.len() - offset]);
        lemma_extend_copies(t, offset, (n - 1) as nat);
        let r = extend(out, offset, n);
        let at = out.len() as int;
        assert(r[at] == t[at]);
        assert(r[at - offset] == t[at - offset]);
        assert forall|i: int| 0 <= i < out.len() implies #[trigger] r[i] == out[i] by {
            assert(r[i] == t[i]);
        }
    }
}

/// The format of a short sequence: a token with the number of literals above and the
/// length of the match less four below, the literals, and the offset in two bytes, the
/// low one first.
pub proof fn lemma_sequence_format(out: Seq<u8>, lits: Seq<u8>, offset: int, m: int, t: Seq<u8>)
    requires
        4 <= m <= 19,
        lits.len() < 15,
        0 < offset <= out.len() + lits.len(),
        out.len() + lits.len() + m <= 65536,
        offset < 65536,
    ensures
        decode(
            seq![(lits.len() * 16 + (m - 4)) as u8] + lits + seq![
                (offset % 256) as u8,
                (offset / 256) as u8,
            ] + t,
            out,
        ) == decode(t, extend(out + lits, offset, m as nat)),
{
    lemma_decode_sequence(out, lits, offset, m, t);
    let two = seq![(offset % 256) as u8, (offset / 256) as u8];
    lemma_le_len(offset, 2);
    lemma_le_len(offset / 256, 1);
    assert(le_bytes(offset / 256, 1)[0] == (offset / 256) % 256);
    assert(le_bytes(offset, 2) =~= two);
    assert(seq![(lits.len() * 16 + (m - 4)) as u8] + lits + two + t =~= sequence_bytes(
        lits,
        offset,
        m,
    ) + t);
}

/// A match is as long as it can be: it ends only where the bytes differ, at nineteen
/// bytes, or four bytes before the end.
pub proof fn lemma_match_is_longest(data: Seq<u8>, cand: int, ip: int, k: nat)
    requires
        0 <= cand < ip,
        k <= 19,
    ensures
        ({
            let m = match_length(data, cand, ip, k);
            m >= 19 || ip + m >= data.len() - 4 || data[ip + m] != data[cand + m]
        }),
    decreases 19 - k,
{
    if k < 19 && ip + k < data.len() - 4 && data[ip + k] == data[cand + k] {
        lemma_match_is_longest(data, cand, ip, k + 1);
    }
}

/// What stands in the table is used: where the entry for the next four bytes is an earlier
/// place with the same four bytes, the encoder writes the literals so far and a reference
/// to that place, and goes on behind the match.
pub proof fn lemma_repeat_is_referenced(data: Seq<u8>, ip: int, anchor: int, table: Seq<u32>, cand: int)
    requires
        0 <= anchor <= ip,
        ip + 4 <= data.len() - 4,
        table.len() == 65536,
        0 <= cand < ip,
        table[hash4(data.skip(ip))] == cand,
        data[ip] == data[cand],
        data[ip + 1] == data[cand + 1],
        data[ip + 2] == data[cand + 2],
        data[ip + 3] == data[cand + 3],
    ensures
        ({
            let m = match_length(data, cand, ip, 0) as int;
            &&& 4 <= m <= 19
            &&& encode(data, ip, anchor, table) == sequence_bytes(
                data.subrange(anchor, ip),
                ip - cand,
                m,
            ) + encode(data, ip + m, ip + m, table.update(hash4(data.skip(ip)), ip as u32))
        }),
{
    lemma_match(data, cand, ip, 0);
    lemma_match_is_longest(data, cand, ip, 0);
    let m = match_length(data, cand, ip, 0);
    assert(m == 0 || m == 1 || m == 2 || m == 3 || m >= 4);
}

/// The hash of four bytes is the upper half of their number, lowest byte first, times a
/// factor, within 32 bits.
pub proof fn lemma_hash_value(s: Seq<u8>)
    requires
        s.len() >= 4,
    ensures
        hash4(s) == (((s[0] + s[1] * 0x100 + s[2] * 0x1_0000 + s[3] * 0x100_0000) * 0x9E37_79B9)
            % 0x1_0000_0000) / 0x1_0000,
{
    let t = s.take(4);
    reveal_with_fuel(le_value, 5);
    assert(t.skip(1).skip(1) =~= s.subrange(2, 4));
    assert(t.skip(1)[0] == s[1]);
    assert(t.skip(1).skip(1)[0] == s[2]);
    assert(t.skip(1).skip(1).skip(1)[0] == s[3]);
    assert(t.skip(1).skip(1).skip(1).skip(1).len() == 0);
    assert(le_value(t) == s[0] + s[1] * 0x100 + s[2] * 0x1_0000 + s[3] * 0x100_0000);
}

} // verus!
