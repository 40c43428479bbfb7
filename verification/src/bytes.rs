//! Reading 16-bit words out of an image.
use vstd::prelude::*;

verus! {

/// The big-endian unsigned word at byte `i` of `s`.
pub open spec fn be16(s: Seq<u8>, i: int) -> u16 {
    (s[i] as int * 256 + s[i + 1] as int) as u16
}

/// The little-endian unsigned word at byte `i` of `s`.
pub open spec fn le16(s: Seq<u8>, i: int) -> u16 {
    (s[i + 1] as int * 256 + s[i] as int) as u16
}

/// The two's-complement reading of a 16-bit word.
pub open spec fn as_signed(w: u16) -> i16 {
    if w >= 32768 {
        (w - 65536) as i16
    } else {
        w as i16
    }
}

/// The big-endian signed word at byte `i` of `s`.
pub open spec fn be16s(s: Seq<u8>, i: int) -> i16 {
    as_signed(be16(s, i))
}

/// The `n` big-endian unsigned words that start at byte `off`.
pub open spec fn be16_seq(s: Seq<u8>, off: int, n: int) -> Seq<u16> {
    Seq::new(n as nat, |k: int| be16(s, off + 2 * k))
}

/// The `n` big-endian signed words that start at byte `off`.
pub open spec fn be16s_seq(s: Seq<u8>, off: int, n: int) -> Seq<i16> {
    Seq::new(n as nat, |k: int| be16s(s, off + 2 * k))
}

/// The `n` little-endian unsigned words that start at byte `off`.
pub open spec fn le16_seq(s: Seq<u8>, off: int, n: int) -> Seq<u16> {
    Seq::new(n as nat, |k: int| le16(s, off + 2 * k))
}

/// Bytes `off .. off + pat.len()` of `s` are `pat`.
pub open spec fn bytes_at(s: Seq<u8>, off: int, pat: Seq<u8>) -> bool {
    &&& 0 <= off
    &&& off + pat.len() <= s.len()
    &&& forall|k: int| 0 <= k < pat.len() ==> s[off + k] == pat[k]
}

/// Reads the big-endian unsigned word at `offset`.
pub fn read_u16(data: &[u8], offset: usize) -> (r: u16)
    requires
        offset + 2 <= data@.len(),
    ensures
        r == be16(data@, offset as int),
{
    (data[offset] as u16) * 256 + (data[offset + 1] as u16)
}

/// Reads the little-endian unsigned word at `offset`.
pub fn read_u16_le(data: &[u8], offset: usize) -> (r: u16)
    requires
        offset + 2 <= data@.len(),
    ensures
        r == le16(data@, offset as int),
{
    let lo = data[offset] as u16;
    (data[offset + 1] as u16) * 256 + lo
}

/// Reads the big-endian signed word at `offset`.
pub fn read_i16(data: &[u8], offset: usize) -> (r: i16)
    requires
        offset + 2 <= data@.len(),
    ensures
        r == be16s(data@, offset as int),
{
    let w = read_u16(data, offset);
    if w >= 32768 {
        (w as i32 - 65536) as i16
    } else {
        w as i16
    }
}

/// Reads `count` big-endian unsigned words starting at `offset`.
pub fn read_words(data: &[u8], offset: usize, count: usize) -> (r: Vec<u16>)
    requires
        offset + 2 * count <= data@.len(),
    ensures
        r@ == be16_seq(data@, offset as int, count as int),
{
    let n = data.len();
    let mut v: Vec<u16> = Vec::with_capacity(count);
    let mut i: usize = 0;
    while i < count
        invariant
            i <= count,
            n == data@.len(),
            offset + 2 * count <= data@.len(),
            v@ == be16_seq(data@, offset as int, i as int),
        decreases count - i,
    {
        let w = read_u16(data, offset + 2 * i);
        v.push(w);
        i += 1;
        assert(v@ =~= be16_seq(data@, offset as int, i as int));
    }
    v
}

/// Reads `count` little-endian unsigned words starting at `offset`.
pub fn read_words_le(data: &[u8], offset: usize, count: usize) -> (r: Vec<u16>)
    requires
        offset + 2 * count <= data@.len(),
    ensures
        r@ == le16_seq(data@, offset as int, count as int),
{
    let n = data.len();
    let mut v: Vec<u16> = Vec::with_capacity(count);
    let mut i: usize = 0;
    while i < count
        invariant
            i <= count,
            n == data@.len(),
            offset + 2 * count <= data@.len(),
            v@ == le16_seq(data@, offset as int, i as int),
        decreases count - i,
    {
        let w = read_u16_le(data, offset + 2 * i);
        v.push(w);
        i += 1;
        assert(v@ =~= le16_seq(data@, offset as int, i as int));
    }
    v
}

/// Reads `count` big-endian signed words starting at `offset`.
pub fn read_signed_words(data: &[u8], offset: usize, count: usize) -> (r: Vec<i16>)
    requires
        offset + 2 * count <= data@.len(),
    ensures
        r@ == be16s_seq(data@, offset as int, count as int),
{
    let n = data.len();
    let mut v: Vec<i16> = Vec::with_capacity(count);
    let mut i: usize = 0;
    while i < count
        invariant
            i <= count,
            n == data@.len(),
            offset + 2 * count <= data@.len(),
            v@ == be16s_seq(data@, offset as int, i as int),
        decreases count - i,
    {
        let w = read_i16(data, offset + 2 * i);
        v.push(w);
        i += 1;
        assert(v@ =~= be16s_seq(data@, offset as int, i as int));
    }
    v
}

/// Whether bytes `offset ..` of `data` are `pat`.
pub fn matches_bytes(data: &[u8], offset: usize, pat: &[u8]) -> (r: bool)
    ensures
        r == bytes_at(data@, offset as int, pat@),
{
    if pat.len() > data.len() || offset > data.len() - pat.len() {
        return false;
    }
    let n = data.len();
    let mut k: usize = 0;
    while k < pat.len()
        invariant
            n == data@.len(),
            k <= pat@.len(),
            offset + pat@.len() <= data@.len(),
            forall|j: int| 0 <= j < k ==> data@[offset + j] == pat@[j],
        decreases pat.len() - k,
    {
        if data[offset + k] != pat[k] {
            return false;
        }
        k += 1;
    }
    true
}

} // verus!
