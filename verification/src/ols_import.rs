//! Reading WinOLS `.ols` project containers.
//!
//! A `.ols` file is not a raw ECU image: it is a small metadata header
//! (vehicle and ECU identification, notes) followed by one or more saved ROM
//! versions ("Original", "Stage 1", ...). This module recognises the
//! container, lists its versions and extracts the raw bytes of one of them.
use vstd::prelude::*;
use vstd::utf8::{decode_utf8, valid_utf8};
use crate::text::{chars_of, decimal, numbered, string_from_chars};

verus! {

/// The little-endian 32-bit word at byte `i` of `s`.
pub open spec fn le32(s: Seq<u8>, i: int) -> u32 {
    (s[i] as int + s[i + 1] as int * 0x100 + s[i + 2] as int * 0x10000 + s[i + 3] as int
        * 0x1000000) as u32
}

/// The two's-complement reading of a 32-bit word.
pub open spec fn as_i32(w: u32) -> int {
    if w >= 0x8000_0000 {
        w - 0x1_0000_0000
    } else {
        w as int
    }
}

/// The signature that follows the magic word: `WinOLS File`.
pub open spec fn ols_signature() -> Seq<u8> {
    seq![0x57u8, 0x69, 0x6E, 0x4F, 0x4C, 0x53, 0x20, 0x46, 0x69, 0x6C, 0x65]
}

/// The format version of a `.ols` container, if `s` starts with one.
pub open spec fn ols_format_version(s: Seq<u8>) -> Option<u32> {
    if s.len() >= 24 && le32(s, 0) == 11 && s.subrange(4, 15) == ols_signature() && s[15] == 0 {
        Some(le32(s, 16))
    } else {
        None
    }
}

/// The characters of a byte string read one byte per character.
pub open spec fn latin1(raw: Seq<u8>) -> Seq<char> {
    raw.map_values(|b: u8| b as char)
}

/// How a stored string is decoded: ASCII as is, then UTF-8, else one
/// character per byte.
pub open spec fn decode_ols(raw: Seq<u8>) -> Seq<char> {
    if forall|i: int| 0 <= i < raw.len() ==> raw[i] < 0x80 {
        latin1(raw)
    } else if valid_utf8(raw) {
        decode_utf8(raw)
    } else {
        latin1(raw)
    }
}

/// The longest string body accepted.
pub open spec fn max_cstring_len() -> int {
    8192
}

/// The length-prefixed string field at `pos` and the position after it.
pub open spec fn cstring_at(s: Seq<u8>, pos: int, fv: u32) -> Option<(Seq<char>, int)> {
    if pos + 4 > s.len() {
        None
    } else {
        let n = as_i32(le32(s, pos));
        let p = pos + 4;
        if fv >= 439 {
            if n == -1 {
                Some(("-"@, p))
            } else if n == -2 {
                Some(("?"@, p))
            } else if n == -3 {
                Some(("%"@, p))
            } else if n <= 0 {
                Some((Seq::empty(), p))
            } else if n > max_cstring_len() || p + n > s.len() {
                None
            } else {
                Some((decode_ols(s.subrange(p, p + n)), p + n))
            }
        } else {
            if n <= 0 {
                Some((Seq::empty(), p))
            } else if n > max_cstring_len() || p + n + 1 > s.len() || s[p + n] != 0 {
                None
            } else {
                Some((decode_ols(s.subrange(p, p + n)), p + n + 1))
            }
        }
    }
}

/// From format version 439 on, a string field whose length word holds a
/// positive `n` of at most 8192, with its `n` bytes inside the data, is read
/// as exactly the `n` bytes after the length word (no terminator), and the
/// next field starts `4 + n` bytes after the field's start.
pub proof fn lemma_cstring_counted(s: Seq<u8>, q: int, fv: u32, n: int)
    requires
        fv >= 439,
        0 <= q,
        0 < n <= 8192,
        q + 4 + n <= s.len(),
        s[q] + 256 * s[q + 1] == n,
        s[q + 2] == 0,
        s[q + 3] == 0,
    ensures
        cstring_at(s, q, fv) == Some((decode_ols(s.subrange(q + 4, q + 4 + n)), q + 4 + n)),
{
    assert(le32(s, q) == n);
}

/// Before format version 439, a string field with a positive length `n` of
/// at most 8192 is its `n` bytes and one NUL byte: it is read as those `n`
/// bytes, the next field starting `4 + n + 1` bytes after the field's start,
/// and a field whose NUL is missing is refused.
pub proof fn lemma_cstring_terminated(s: Seq<u8>, q: int, fv: u32, n: int)
    requires
        fv < 439,
        0 <= q,
        0 < n <= 8192,
        q + 4 + n + 1 <= s.len(),
        s[q] + 256 * s[q + 1] == n,
        s[q + 2] == 0,
        s[q + 3] == 0,
    ensures
        s[q + 4 + n] == 0 ==> cstring_at(s, q, fv) == Some(
            (decode_ols(s.subrange(q + 4, q + 4 + n)), q + 4 + n + 1),
        ),
        s[q + 4 + n] != 0 ==> cstring_at(s, q, fv) is None,
{
    assert(le32(s, q) == n);
}

/// From format version 439 on, the length words -1, -2 and -3 stand for the
/// strings "-", "?" and "%", and a length of 0 (any version) for the empty
/// string; none of them has a body, so the next field starts 4 bytes on.
pub proof fn lemma_cstring_codes(s: Seq<u8>, q: int, fv: u32)
    requires
        0 <= q,
        q + 4 <= s.len(),
    ensures
        fv >= 439 && s[q] == 0xFF && s[q + 1] == 0xFF && s[q + 2] == 0xFF && s[q + 3] == 0xFF
            ==> cstring_at(s, q, fv) == Some(("-"@, q + 4)),
        fv >= 439 && s[q] == 0xFE && s[q + 1] == 0xFF && s[q + 2] == 0xFF && s[q + 3] == 0xFF
            ==> cstring_at(s, q, fv) == Some(("?"@, q + 4)),
        fv >= 439 && s[q] == 0xFD && s[q + 1] == 0xFF && s[q + 2] == 0xFF && s[q + 3] == 0xFF
            ==> cstring_at(s, q, fv) == Some(("%"@, q + 4)),
        s[q] == 0 && s[q + 1] == 0 && s[q + 2] == 0 && s[q + 3] == 0 ==> cstring_at(s, q, fv) == Some(
            (Seq::<char>::empty(), q + 4),
        ),
{
}

/// Reads the little-endian 32-bit word at `pos`.
pub fn read_u32_le(data: &[u8], pos: usize) -> (r: u32)
    requires
        pos + 4 <= data@.len(),
    ensures
        r == le32(data@, pos as int),
{
    (data[pos] as u32) + (data[pos + 1] as u32) * 0x100 + (data[pos + 2] as u32) * 0x10000 + (
    data[pos + 3] as u32) * 0x1000000
}

/// The format version of the container, or `None` when `data` is not one.
pub fn parse_header(data: &[u8]) -> (r: Option<u32>)
    ensures
        r == ols_format_version(data@),
{
    if data.len() < 24 {
        return None;
    }
    let magic = read_u32_le(data, 0);
    let sig: [u8; 11] = [0x57, 0x69, 0x6E, 0x4F, 0x4C, 0x53, 0x20, 0x46, 0x69, 0x6C, 0x65];
    assert(sig@ =~= ols_signature());
    let mut same = true;
    let mut k: usize = 0;
    while k < 11
        invariant
            k <= 11,
            data@.len() >= 24,
            sig@ == ols_signature(),
            same == (forall|j: int| 0 <= j < k ==> data@[4 + j] == sig@[j]),
        decreases 11 - k,
    {
        if data[4 + k] != sig[k] {
            same = false;
        }
        k += 1;
    }
    assert(same == (data@.subrange(4, 15) =~= ols_signature()));
    if magic != 11 || !same || data[15] != 0 {
        return None;
    }
    Some(read_u32_le(data, 16))
}

/// Where the metadata block starts for a format version (four bytes earlier
/// in the files of format versions below 200).
pub fn metadata_offset(format_version: u32) -> (r: usize)
    ensures
        r == (if format_version >= 200 { 0x18usize } else { 0x14usize }),
{
    if format_version >= 200 {
        0x18
    } else {
        0x14
    }
}

/// The string held by a byte slice, if it is valid UTF-8.
#[verifier::external_body]
fn utf8_str(raw: &[u8]) -> (r: Option<&str>)
    ensures
        r is Some <==> valid_utf8(raw@),
        r matches Some(s) ==> s@ == decode_utf8(raw@),
{
    std::str::from_utf8(raw).ok()
}

/// Decodes a stored string: ASCII as is, then UTF-8, else one character per byte.
pub fn decode_ols_string(raw: &[u8]) -> (r: String)
    ensures
        r@ == decode_ols(raw@),
{
    let mut ascii = true;
    let mut k: usize = 0;
    while k < raw.len()
        invariant
            k <= raw@.len(),
            ascii == (forall|i: int| 0 <= i < k ==> raw@[i] < 0x80),
        decreases raw.len() - k,
    {
        if raw[k] >= 0x80 {
            ascii = false;
        }
        k += 1;
    }
    if !ascii {
        if let Some(s) = utf8_str(raw) {
            return String::from_str(s);
        }
    }
    let mut chars: Vec<char> = Vec::with_capacity(raw.len());
    let mut k: usize = 0;
    while k < raw.len()
        invariant
            k <= raw@.len(),
            chars@ == latin1(raw@.subrange(0, k as int)),
        decreases raw.len() - k,
    {
        chars.push(raw[k] as char);
        k += 1;
        assert(chars@ =~= latin1(raw@.subrange(0, k as int)));
    }
    assert(raw@.subrange(0, raw@.len() as int) =~= raw@);
    string_from_chars(chars.as_slice())
}

/// Reads the length-prefixed string field at `pos`; gives the text and the
/// position after the field.
pub fn read_cstring(data: &[u8], pos: usize, format_version: u32) -> (r: Option<(String, usize)>)
    ensures
        match cstring_at(data@, pos as int, format_version) {
            Some((t, e)) => r matches Some((v, q)) && v@ == t && q == e,
            None => r is None,
        },
{
    if pos > data.len() || data.len() - pos < 4 {
        return None;
    }
    let w = read_u32_le(data, pos);
    let p = pos + 4;
    if format_version >= 439 {
        if w == 0xFFFF_FFFF {
            return Some((String::from_str("-"), p));
        } else if w == 0xFFFF_FFFE {
            return Some((String::from_str("?"), p));
        } else if w == 0xFFFF_FFFD {
            return Some((String::from_str("%"), p));
        } else if w == 0 || w >= 0x8000_0000 {
            return Some((String::new(), p));
        }
        let n = w as usize;
        if n > 8192 || n > data.len() - p {
            return None;
        }
        let body = decode_ols_string(slice_of(data, p, p + n));
        Some((body, p + n))
    } else {
        if w == 0 || w >= 0x8000_0000 {
            return Some((String::new(), p));
        }
        let n = w as usize;
        if n > 8192 || n >= data.len() - p || data[p + n] != 0 {
            return None;
        }
        let body = decode_ols_string(slice_of(data, p, p + n));
        Some((body, p + n + 1))
    }
}

/// Bytes `start .. end` of `data`.
pub fn slice_of(data: &[u8], start: usize, end: usize) -> (r: &[u8])
    requires
        start <= end <= data@.len(),
    ensures
        r@ == data@.subrange(start as int, end as int),
{
    let (head, _) = data.split_at(end);
    let (_, tail) = head.split_at(start);
    tail
}

/// The metadata fields shown in the version picker.
pub struct OlsMetadata {
    pub make: String,
    pub model: String,
    pub manufacturer: String,
    pub ecu_name: String,
    pub hw_number: String,
    pub sw_number: String,
    pub revision_tag: String,
}

impl Default for OlsMetadata {
    fn default() -> (r: Self)
        ensures
            r.make@ == Seq::<char>::empty(),
            r.model@ == Seq::<char>::empty(),
            r.manufacturer@ == Seq::<char>::empty(),
            r.ecu_name@ == Seq::<char>::empty(),
            r.hw_number@ == Seq::<char>::empty(),
            r.sw_number@ == Seq::<char>::empty(),
            r.revision_tag@ == Seq::<char>::empty(),
    {
        OlsMetadata {
            make: String::new(),
            model: String::new(),
            manufacturer: String::new(),
            ecu_name: String::new(),
            hw_number: String::new(),
            sw_number: String::new(),
            revision_tag: String::new(),
        }
    }
}

/// The position after metadata item `k` when it starts at `pos`.
pub open spec fn item_end(s: Seq<u8>, pos: int, fv: u32, k: int) -> Option<int> {
    if k == 16 {
        if pos + 8 <= s.len() {
            Some(pos + 8)
        } else {
            None
        }
    } else {
        match cstring_at(s, pos, fv) {
            Some((_, e)) => Some(e),
            None => None,
        }
    }
}

/// The position after the first `k` metadata items, if they can all be read.
pub open spec fn pos_after(s: Seq<u8>, start: int, fv: u32, k: nat) -> Option<int>
    decreases k,
{
    if k == 0 {
        Some(start)
    } else {
        match pos_after(s, start, fv, (k - 1) as nat) {
            Some(p) => item_end(s, p, fv, k - 1),
            None => None,
        }
    }
}

/// The text of metadata item `k`, or the empty string when it (or an
/// item before it) cannot be read.
pub open spec fn item_text(s: Seq<u8>, start: int, fv: u32, k: nat) -> Seq<char> {
    match pos_after(s, start, fv, k) {
        Some(p) => match cstring_at(s, p, fv) {
            Some((t, _)) => t,
            None => Seq::empty(),
        },
        None => Seq::empty(),
    }
}

proof fn lemma_unreadable_stays(s: Seq<u8>, start: int, fv: u32, k: nat, j: nat)
    requires
        pos_after(s, start, fv, k) is None,
        k <= j,
    ensures
        pos_after(s, start, fv, j) is None,
    decreases j - k,
{
    if k < j {
        lemma_unreadable_stays(s, start, fv, k, (j - 1) as nat);
    }
}

/// The metadata fields of the block at `offset`: make, model, manufacturer,
/// ECU name, hardware and software numbers and the revision tag, in their
/// order on disk; reading stops at the first field that cannot be read, and
/// that field and those after it stay empty.
pub fn parse_light_metadata(data: &[u8], offset: usize, format_version: u32) -> (m: OlsMetadata)
    ensures
        m.make@ == item_text(data@, offset as int, format_version, 0),
        m.model@ == item_text(data@, offset as int, format_version, 1),
        m.manufacturer@ == item_text(data@, offset as int, format_version, 9),
        m.ecu_name@ == item_text(data@, offset as int, format_version, 10),
        m.hw_number@ == item_text(data@, offset as int, format_version, 11),
        m.sw_number@ == item_text(data@, offset as int, format_version, 12),
        m.revision_tag@ == item_text(data@, offset as int, format_version, 20),
{
    let ghost s = data@;
    let ghost st = offset as int;
    let ghost fv = format_version;
    let mut m = OlsMetadata::default();
    let mut pos = offset;
    let mut k: usize = 0;
    while k < 21
        invariant
            s == data@,
            st == offset,
            fv == format_version,
            k <= 21,
            pos_after(s, st, fv, k as nat) == Some(pos as int),
            m.make@ == (if k > 0 { item_text(s, st, fv, 0) } else { Seq::empty() }),
            m.model@ == (if k > 1 { item_text(s, st, fv, 1) } else { Seq::empty() }),
            m.manufacturer@ == (if k > 9 { item_text(s, st, fv, 9) } else { Seq::empty() }),
            m.ecu_name@ == (if k > 10 { item_text(s, st, fv, 10) } else { Seq::empty() }),
            m.hw_number@ == (if k > 11 { item_text(s, st, fv, 11) } else { Seq::empty() }),
            m.sw_number@ == (if k > 12 { item_text(s, st, fv, 12) } else { Seq::empty() }),
            m.revision_tag@ == (if k > 20 { item_text(s, st, fv, 20) } else { Seq::empty() }),
        decreases 21 - k,
    {
        let ghost p = pos as int;
        if k == 16 {
            if pos > data.len() || data.len() - pos < 8 {
                proof {
                    assert(pos_after(s, st, fv, 17) is None);
                    lemma_unreadable_stays(s, st, fv, 17, 20);
                    lemma_unreadable_stays(s, st, fv, 17, 21);
                    assert(item_text(s, st, fv, 20) == Seq::<char>::empty());
                }
                return m;
            }
            pos = pos + 8;
        } else {
            match read_cstring(data, pos, format_version) {
                None => {
                    proof {
                        let kk = (k + 1) as nat;
                        assert(pos_after(s, st, fv, kk) is None);
                        assert forall|j: nat| k < j <= 21 implies pos_after(s, st, fv, j) is None by {
                            lemma_unreadable_stays(s, st, fv, kk, j);
                        }
                        assert forall|j: nat| k <= j <= 20 implies item_text(s, st, fv, j) == Seq::<char>::empty() by {
                            if j > k {
                                lemma_unreadable_stays(s, st, fv, kk, j);
                            }
                        }
                    }
                    return m;
                },
                Some((v, e)) => {
                    assert(v@ == item_text(s, st, fv, k as nat));
                    if k == 0 {
                        m.make = v;
                    } else if k == 1 {
                        m.model = v;
                    } else if k == 9 {
                        m.manufacturer = v;
                    } else if k == 10 {
                        m.ecu_name = v;
                    } else if k == 11 {
                        m.hw_number = v;
                    } else if k == 12 {
                        m.sw_number = v;
                    } else if k == 20 {
                        m.revision_tag = v;
                    }
                    pos = e;
                },
            }
        }
        k += 1;
    }
    m
}

/// The little-endian bytes of the anchor that follows the version directory.
pub open spec fn anchor_bytes() -> Seq<u8> {
    seq![0x99u8, 0x78, 0x00, 0x42]
}

/// The anchor is only looked for in the first 4096 bytes.
pub open spec fn anchor_scan_limit(len: int) -> int {
    if len < 4096 {
        len
    } else {
        4096
    }
}

/// The anchor sits at `p`.
pub open spec fn anchor_at(s: Seq<u8>, p: int) -> bool {
    &&& 0 <= p
    &&& p + 4 <= anchor_scan_limit(s.len() as int)
    &&& s.subrange(p, p + 4) == anchor_bytes()
}

/// `p` is the first position of the anchor.
pub open spec fn first_anchor(s: Seq<u8>, p: int) -> bool {
    anchor_at(s, p) && forall|q: int| 0 <= q < p ==> !#[trigger] anchor_at(s, q)
}

/// Where the saved versions lie in the file.
#[derive(Clone, Copy, Debug, PartialEq, Eq, Structural)]
pub struct VersionDirectory {
    pub num_versions: u32,
    pub version_data_start: u32,
    pub version_record_size: u32,
}

/// The directory whose 12-byte header ends at the anchor `p`:
/// `[versions - 1] [data start] [record size]`, accepted only when the
/// records end exactly at the end of a file of `total` bytes.
pub open spec fn directory_at(s: Seq<u8>, p: int, total: int) -> Option<VersionDirectory> {
    if p < 12 {
        None
    } else {
        let h = p - 12;
        let n1 = le32(s, h);
        let vs = le32(s, h + 4);
        let rs = le32(s, h + 8);
        let num: int = if n1 == 0xFFFF_FFFF { 0 } else { n1 + 1 };
        if rs == 0 || vs >= total {
            None
        } else if vs + 4 + rs * num != total {
            None
        } else {
            Some(VersionDirectory { num_versions: num as u32, version_data_start: vs, version_record_size: rs })
        }
    }
}

/// The version directory announced by the first anchor, if any.
pub open spec fn version_directory(s: Seq<u8>, total: int) -> Option<VersionDirectory> {
    if exists|p: int| first_anchor(s, p) {
        directory_at(s, choose|p: int| first_anchor(s, p), total)
    } else {
        None
    }
}

fn first_anchor_pos(prefix: &[u8]) -> (r: Option<usize>)
    ensures
        r matches Some(p) ==> first_anchor(prefix@, p as int),
        r is None ==> !exists|p: int| first_anchor(prefix@, p),
{
    let limit = if prefix.len() < 4096 { prefix.len() } else { 4096 };
    let mut p: usize = 0;
    while p + 4 <= limit
        invariant
            limit == anchor_scan_limit(prefix@.len() as int),
            limit <= prefix@.len(),
            limit <= 4096,
            p <= limit,
            forall|q: int| 0 <= q < p ==> !#[trigger] anchor_at(prefix@, q),
        decreases limit - p,
    {
        if prefix[p] == 0x99 && prefix[p + 1] == 0x78 && prefix[p + 2] == 0x00 && prefix[p + 3] == 0x42 {
            assert(prefix@.subrange(p as int, p + 4) =~= anchor_bytes());
            return Some(p);
        }
        assert(prefix@.subrange(p as int, p + 4) != anchor_bytes()) by {
            if prefix@.subrange(p as int, p + 4) == anchor_bytes() {
                assert(prefix@.subrange(p as int, p + 4)[0] == prefix@[p as int]);
                assert(prefix@.subrange(p as int, p + 4)[1] == prefix@[p + 1]);
                assert(prefix@.subrange(p as int, p + 4)[2] == prefix@[p + 2]);
                assert(prefix@.subrange(p as int, p + 4)[3] == prefix@[p + 3]);
            }
        }
        p += 1;
    }
    None
}

/// The version directory of a container whose whole file is `total_file_size`
/// bytes long, found from its anchor in the first 4096 bytes of `prefix`.
pub fn find_version_directory(prefix: &[u8], total_file_size: u64) -> (r: Option<VersionDirectory>)
    ensures
        r == version_directory(prefix@, total_file_size as int),
{
    let ghost s = prefix@;
    let anchor = first_anchor_pos(prefix);
    let p = match anchor {
        None => {
            return None;
        },
        Some(p) => p,
    };
    proof {
        let c = choose|q: int| first_anchor(s, q);
        assert(first_anchor(s, c));
        if c < p {
            assert(!anchor_at(s, c));
        } else if c > p {
            assert(!anchor_at(s, p as int));
        }
        assert(c == p);
    }
    if p < 12 {
        return None;
    }
    let h = p - 12;
    let n1 = read_u32_le(prefix, h);
    let vs = read_u32_le(prefix, h + 4);
    let rs = read_u32_le(prefix, h + 8);
    if rs == 0 || (vs as u64) >= total_file_size {
        return None;
    }
    let num = n1.wrapping_add(1);
    assert(num == (if n1 == 0xFFFF_FFFF { 0 } else { n1 + 1 }));
    assert((rs as int) * (num as int) <= 0xFFFF_FFFF * 0xFFFF_FFFF) by (nonlinear_arith)
        requires
            rs <= 0xFFFF_FFFF,
            num <= 0xFFFF_FFFF,
    ;
    let expected_end = (vs as u64) + 4 + (rs as u64) * (num as u64);
    if expected_end != total_file_size {
        return None;
    }
    Some(VersionDirectory { num_versions: num, version_data_start: vs, version_record_size: rs })
}

/// `c` is white space (the Unicode `White_Space` property).
pub open spec fn is_ws(c: char) -> bool {
    let u = c as u32;
    ||| 9 <= u <= 13
    ||| u == 0x20
    ||| u == 0x85
    ||| u == 0xA0
    ||| u == 0x1680
    ||| 0x2000 <= u <= 0x200A
    ||| u == 0x2028
    ||| u == 0x2029
    ||| u == 0x202F
    ||| u == 0x205F
    ||| u == 0x3000
}

/// `s` without its leading white space.
pub open spec fn trim_start(s: Seq<char>) -> Seq<char>
    decreases s.len(),
{
    if s.len() > 0 && is_ws(s[0]) {
        trim_start(s.drop_first())
    } else {
        s
    }
}

/// `s` without its trailing white space.
pub open spec fn trim_end(s: Seq<char>) -> Seq<char>
    decreases s.len(),
{
    if s.len() > 0 && is_ws(s.last()) {
        trim_end(s.drop_last())
    } else {
        s
    }
}

/// `s` without leading and trailing white space.
pub open spec fn trim(s: Seq<char>) -> Seq<char> {
    trim_end(trim_start(s))
}

/// `pat` occurs in `s` at `i`.
pub open spec fn occurs_at(s: Seq<char>, i: int, pat: Seq<char>) -> bool {
    0 <= i && i + pat.len() <= s.len() && s.subrange(i, i + pat.len()) == pat
}

/// The first occurrence of `pat` in `s` at or after `i`.
pub open spec fn find_first(s: Seq<char>, pat: Seq<char>, i: int) -> Option<int>
    decreases s.len() + 1 - i,
{
    if i < 0 || i + pat.len() > s.len() {
        None
    } else if occurs_at(s, i, pat) {
        Some(i)
    } else {
        find_first(s, pat, i + 1)
    }
}

/// The last occurrence of `c` among the first `n` characters of `s`.
pub open spec fn find_last(s: Seq<char>, c: char, n: int) -> Option<int>
    decreases n,
{
    if n <= 0 {
        None
    } else if s[n - 1] == c {
        Some(n - 1)
    } else {
        find_last(s, c, n - 1)
    }
}

/// The pieces of `s` between the occurrences of `sep`, found left to right.
pub open spec fn pieces(s: Seq<char>, sep: Seq<char>) -> Seq<Seq<char>>
    decreases s.len(),
{
    if sep.len() == 0 || s.len() == 0 {
        seq![s]
    } else if occurs_at(s, 0, sep) {
        seq![Seq::<char>::empty()] + pieces(s.subrange(sep.len() as int, s.len() as int), sep)
    } else {
        let r = pieces(s.drop_first(), sep);
        r.update(0, seq![s[0]] + r[0])
    }
}

/// A revision entry as shown: `Name:\tValue` becomes `Name (Value)` (or
/// `Name` when the value is blank); any other entry is trimmed.
pub open spec fn clean_label(e: Seq<char>) -> Seq<char> {
    match find_first(e, seq![':', '\t'], 0) {
        Some(i) => {
            let name = trim(e.subrange(0, i));
            let value = trim(e.subrange(i + 2, e.len() as int));
            if value.len() == 0 {
                name
            } else {
                name + seq![' ', '('] + value + seq![')']
            }
        },
        None => trim(e),
    }
}

/// The labels of the saved versions held by a `RevisionTag` such as
/// `1 (original,\t Stage1:\t NOCS)`: the part between the first `(` and the
/// last `)`, split at `,\t`, or else at `,`, and accepted only when it has
/// exactly `n` entries.
pub open spec fn revision_labels(raw: Seq<char>, n: u32) -> Option<Seq<Seq<char>>> {
    if n == 0 {
        None
    } else {
        match (find_first(raw, seq!['('], 0), find_last(raw, ')', raw.len() as int)) {
            (Some(o), Some(c)) => if c <= o {
                None
            } else {
                let inner = raw.subrange(o + 1, c);
                let tabbed = pieces(inner, seq![',', '\t']);
                let plain = pieces(inner, seq![',']);
                if tabbed.len() as u32 == n {
                    Some(tabbed.map_values(|e: Seq<char>| clean_label(e)))
                } else if plain.len() as u32 == n {
                    Some(plain.map_values(|e: Seq<char>| clean_label(e)))
                } else {
                    None
                }
            },
            _ => None,
        }
    }
}

/// Whether `c` is white space.
pub fn is_white_space(c: char) -> (r: bool)
    ensures
        r == is_ws(c),
{
    let u = c as u32;
    (9 <= u && u <= 13) || u == 0x20 || u == 0x85 || u == 0xA0 || u == 0x1680 || (0x2000 <= u && u
        <= 0x200A) || u == 0x2028 || u == 0x2029 || u == 0x202F || u == 0x205F || u == 0x3000
}

/// Characters `a .. b` of `s`.
pub fn chars_between(s: &[char], a: usize, b: usize) -> (r: Vec<char>)
    requires
        a <= b <= s@.len(),
    ensures
        r@ == s@.subrange(a as int, b as int),
{
    let mut v: Vec<char> = Vec::new();
    let mut k = a;
    while k < b
        invariant
            a <= k <= b,
            b <= s@.len(),
            v@ == s@.subrange(a as int, k as int),
        decreases b - k,
    {
        v.push(s[k]);
        k += 1;
        assert(v@ =~= s@.subrange(a as int, k as int));
    }
    v
}

/// `s` without leading and trailing white space.
pub fn trim_chars(s: &[char]) -> (r: Vec<char>)
    ensures
        r@ == trim(s@),
{
    let n = s.len();
    let mut a: usize = 0;
    proof {
        assert(s@.subrange(0, n as int) =~= s@);
    }
    while a < n && is_white_space(s[a])
        invariant
            a <= n,
            n == s@.len(),
            trim_start(s@) == trim_start(s@.subrange(a as int, n as int)),
        decreases n - a,
    {
        assert(s@.subrange(a as int, n as int).drop_first() =~= s@.subrange(a + 1, n as int));
        a += 1;
    }
    let mut b: usize = n;
    while b > a && is_white_space(s[b - 1])
        invariant
            a <= b <= n,
            n == s@.len(),
            trim_start(s@) == s@.subrange(a as int, n as int),
            trim(s@) == trim_end(s@.subrange(a as int, b as int)),
        decreases b - a,
    {
        assert(s@.subrange(a as int, b as int).drop_last() =~= s@.subrange(a as int, b - 1));
        b -= 1;
    }
    chars_between(s, a, b)
}

/// The first occurrence of `pat` in `s` at or after `from`.
pub fn find_chars(s: &[char], pat: &[char], from: usize) -> (r: Option<usize>)
    ensures
        r matches Some(i) ==> find_first(s@, pat@, from as int) == Some(i as int),
        r is None ==> find_first(s@, pat@, from as int) is None,
{
    let n = s.len();
    let m = pat.len();
    let mut i = from;
    while i <= n && m <= n - i
        invariant
            from <= i,
            n == s@.len(),
            m == pat@.len(),
            find_first(s@, pat@, from as int) == find_first(s@, pat@, i as int),
        decreases n - i,
    {
        let mut k: usize = 0;
        let mut same = true;
        while k < m
            invariant
                k <= m,
                i + m <= n,
                n == s@.len(),
                m == pat@.len(),
                same == (forall|j: int| 0 <= j < k ==> s@[i + j] == pat@[j]),
            decreases m - k,
        {
            if s[i + k] != pat[k] {
                same = false;
            }
            k += 1;
        }
        assert(same == (s@.subrange(i as int, i + m) =~= pat@));
        if same {
            return Some(i);
        }
        i += 1;
    }
    None
}

/// The last position of `c` in `s`.
pub fn find_last_char(s: &[char], c: char) -> (r: Option<usize>)
    ensures
        r matches Some(i) ==> find_last(s@, c, s@.len() as int) == Some(i as int),
        r is None ==> find_last(s@, c, s@.len() as int) is None,
{
    let mut n = s.len();
    while n > 0
        invariant
            n <= s@.len(),
            find_last(s@, c, s@.len() as int) == find_last(s@, c, n as int),
        decreases n,
    {
        if s[n - 1] == c {
            return Some(n - 1);
        }
        n -= 1;
    }
    None
}

proof fn lemma_find_first(s: Seq<char>, pat: Seq<char>, i: int)
    ensures
        find_first(s, pat, i) matches Some(j) ==> i <= j && occurs_at(s, j, pat),
    decreases s.len() + 1 - i,
{
    if i < 0 || i + pat.len() > s.len() {
    } else if occurs_at(s, i, pat) {
    } else {
        lemma_find_first(s, pat, i + 1);
    }
}

proof fn lemma_pieces_step(s: Seq<char>, sep: Seq<char>, i: int)
    requires
        sep.len() > 0,
        0 <= i < s.len(),
    ensures
        ({
            let p = pieces(s.subrange(i, s.len() as int), sep);
            if occurs_at(s, i, sep) {
                p == seq![Seq::<char>::empty()] + pieces(s.subrange(i + sep.len(), s.len() as int), sep)
            } else {
                let q = pieces(s.subrange(i + 1, s.len() as int), sep);
                p == q.update(0, seq![s[i]] + q[0])
            }
        }),
{
    let t = s.subrange(i, s.len() as int);
    assert(t.len() > 0);
    if occurs_at(s, i, sep) {
        assert(t.subrange(0, sep.len() as int) =~= s.subrange(i, i + sep.len()));
        assert(t.subrange(sep.len() as int, t.len() as int) =~= s.subrange(i + sep.len(), s.len() as int));
    } else {
        assert(!occurs_at(t, 0, sep)) by {
            if occurs_at(t, 0, sep) {
                assert(t.subrange(0, sep.len() as int) =~= s.subrange(i, i + sep.len()));
            }
        }
        assert(t.drop_first() =~= s.subrange(i + 1, s.len() as int));
    }
}

proof fn lemma_pieces_nonempty(s: Seq<char>, sep: Seq<char>)
    ensures
        pieces(s, sep).len() >= 1,
    decreases s.len(),
{
    if sep.len() == 0 || s.len() == 0 {
    } else if occurs_at(s, 0, sep) {
        lemma_pieces_nonempty(s.subrange(sep.len() as int, s.len() as int), sep);
    } else {
        lemma_pieces_nonempty(s.drop_first(), sep);
    }
}

/// The pieces of `s` between the occurrences of the non-empty `sep`.
pub fn split_chars(s: &[char], sep: &[char]) -> (r: Vec<Vec<char>>)
    requires
        sep@.len() > 0,
    ensures
        r@.len() == pieces(s@, sep@).len(),
        forall|k: int| 0 <= k < r@.len() ==> (#[trigger] r@[k])@ == pieces(s@, sep@)[k],
{
    let n = s.len();
    let m = sep.len();
    let mut out: Vec<Vec<char>> = Vec::new();
    let ghost mut views: Seq<Seq<char>> = Seq::empty();
    let mut start: usize = 0;
    let mut i: usize = 0;
    proof {
        assert(s@.subrange(0, n as int) =~= s@);
        lemma_pieces_nonempty(s@, sep@);
        let p = pieces(s@, sep@);
        assert(seq![s@.subrange(0, 0) + p[0]] + p.skip(1) =~= p);
    }
    while i < n
        invariant
            start <= i <= n,
            n == s@.len(),
            m == sep@.len(),
            m > 0,
            out@.len() == views.len(),
            forall|k: int| 0 <= k < out@.len() ==> (#[trigger] out@[k])@ == views[k],
            ({
                let p = pieces(s@.subrange(i as int, n as int), sep@);
                &&& p.len() >= 1
                &&& views + seq![s@.subrange(start as int, i as int) + p[0]] + p.skip(1) == pieces(s@, sep@)
            }),
        decreases n - i,
    {
        let at = find_chars(s, sep, i);
        let here = match at {
            Some(j) => j == i,
            None => false,
        };
        proof {
            lemma_pieces_step(s@, sep@, i as int);
            lemma_find_first(s@, sep@, i as int);
            lemma_find_first(s@, sep@, i + 1);
            if occurs_at(s@, i as int, sep@) {
                assert(find_first(s@, sep@, i as int) == Some(i as int));
            }
        }
        if here {
            let ghost p = pieces(s@.subrange(i as int, n as int), sep@);
            let ghost q = pieces(s@.subrange(i + m, n as int), sep@);
            let piece = chars_between(s, start, i);
            out.push(piece);
            proof {
                views = views.push(s@.subrange(start as int, i as int));
                lemma_pieces_nonempty(s@.subrange(i + m, n as int), sep@);
                assert(p =~= seq![Seq::<char>::empty()] + q);
                assert(s@.subrange(start as int, i as int) + Seq::<char>::empty() =~= s@.subrange(start as int, i as int));
                assert(seq![s@.subrange(i + m, i + m) + q[0]] + q.skip(1) =~= q);
                assert(p.skip(1) =~= q);
                assert(views + seq![s@.subrange(i + m, i + m) + q[0]] + q.skip(1) =~= views.drop_last() + seq![s@.subrange(start as int, i as int) + p[0]] + p.skip(1));
            }
            start = i + m;
            i = i + m;
        } else {
            let ghost p = pieces(s@.subrange(i as int, n as int), sep@);
            let ghost q = pieces(s@.subrange(i + 1, n as int), sep@);
            proof {
                lemma_pieces_nonempty(s@.subrange(i + 1, n as int), sep@);
                assert(!occurs_at(s@, i as int, sep@));
                assert(s@.subrange(start as int, i as int) + p[0] =~= s@.subrange(start as int, i + 1) + q[0]);
                assert(p.skip(1) =~= q.skip(1));
            }
            i = i + 1;
        }
    }
    let piece = chars_between(s, start, n);
    out.push(piece);
    proof {
        views = views.push(s@.subrange(start as int, n as int));
        assert(s@.subrange(n as int, n as int) =~= Seq::<char>::empty());
        let p = pieces(s@.subrange(n as int, n as int), sep@);
        assert(p =~= seq![Seq::<char>::empty()]);
        assert(s@.subrange(start as int, n as int) + p[0] =~= s@.subrange(start as int, n as int));
        assert(views =~= pieces(s@, sep@));
    }
    out
}

/// A revision entry as shown (see [`clean_label`]).
pub fn clean_entry(e: &[char]) -> (r: Vec<char>)
    ensures
        r@ == clean_label(e@),
{
    let pat: [char; 2] = [':', '\t'];
    assert(pat@ =~= seq![':', '\t']);
    proof {
        lemma_find_first(e@, pat@, 0);
    }
    match find_chars(e, &pat, 0) {
        Some(i) => {
            assert(find_first(e@, pat@, 0) == Some(i as int));
            assert(occurs_at(e@, i as int, pat@));
            let n = e.len();
            let name = trim_chars(vstd::slice::slice_subrange(e, 0, i));
            let value = trim_chars(vstd::slice::slice_subrange(e, i + 2, n));
            if value.len() == 0 {
                name
            } else {
                let mut out = name;
                out.push(' ');
                out.push('(');
                let mut k: usize = 0;
                let ghost base = out@;
                while k < value.len()
                    invariant
                        k <= value@.len(),
                        out@ == base + value@.subrange(0, k as int),
                    decreases value.len() - k,
                {
                    out.push(value[k]);
                    k += 1;
                    assert(out@ =~= base + value@.subrange(0, k as int));
                }
                out.push(')');
                assert(value@.subrange(0, value@.len() as int) =~= value@);
                assert(out@ =~= clean_label(e@));
                out
            }
        },
        None => trim_chars(e),
    }
}

fn labels_of(entries: &Vec<Vec<char>>) -> (r: Vec<String>)
    ensures
        r@.len() == entries@.len(),
        forall|k: int| 0 <= k < r@.len() ==> (#[trigger] r@[k])@ == clean_label(entries@[k]@),
{
    let mut out: Vec<String> = Vec::new();
    let mut k: usize = 0;
    while k < entries.len()
        invariant
            k <= entries@.len(),
            out@.len() == k,
            forall|j: int| 0 <= j < k ==> (#[trigger] out@[j])@ == clean_label(entries@[j]@),
        decreases entries.len() - k,
    {
        let cleaned = clean_entry(entries[k].as_slice());
        out.push(string_from_chars(cleaned.as_slice()));
        k += 1;
    }
    out
}

/// One label per saved version, split out of a `RevisionTag` (see
/// [`revision_labels`]); `None` when the tag does not split into exactly
/// `expected_versions` entries.
pub fn parse_revision_labels(raw: &str, expected_versions: u32) -> (r: Option<Vec<String>>)
    ensures
        match revision_labels(raw@, expected_versions) {
            Some(ls) => r matches Some(v) && v@.len() == ls.len() && forall|k: int|
                0 <= k < ls.len() ==> (#[trigger] v@[k])@ == ls[k],
            None => r is None,
        },
{
    if expected_versions == 0 {
        return None;
    }
    let chars = chars_of(raw);
    let open_pat: [char; 1] = ['('];
    assert(open_pat@ =~= seq!['(']);
    let open = match find_chars(chars.as_slice(), &open_pat, 0) {
        Some(o) => o,
        None => {
            return None;
        },
    };
    proof {
        lemma_find_first(chars@, open_pat@, 0);
    }
    let close = match find_last_char(chars.as_slice(), ')') {
        Some(c) => c,
        None => {
            return None;
        },
    };
    proof {
        lemma_find_last(chars@, ')', chars@.len() as int);
        assert(find_first(chars@, seq!['('], 0) == Some(open as int));
        assert(find_last(chars@, ')', chars@.len() as int) == Some(close as int));
    }
    if close <= open {
        return None;
    }
    let inner = chars_between(chars.as_slice(), open + 1, close);
    let tab_sep: [char; 2] = [',', '\t'];
    assert(tab_sep@ =~= seq![',', '\t']);
    let tabbed = split_chars(inner.as_slice(), &tab_sep);
    if tabbed.len() as u32 == expected_versions {
        let out = labels_of(&tabbed);
        return Some(out);
    }
    let comma: [char; 1] = [','];
    assert(comma@ =~= seq![',']);
    let plain = split_chars(inner.as_slice(), &comma);
    if plain.len() as u32 == expected_versions {
        let out = labels_of(&plain);
        return Some(out);
    }
    None
}

proof fn lemma_find_last(s: Seq<char>, c: char, n: int)
    requires
        n <= s.len(),
    ensures
        find_last(s, c, n) matches Some(j) ==> 0 <= j < n,
    decreases n,
{
    if n > 0 && s[n - 1] != c {
        lemma_find_last(s, c, n - 1);
    }
}

/// A saved version of a container.
pub struct OlsVersionInfo {
    pub index: u32,
    pub size: u64,
    /// The label of the version, when the revision tag could be split.
    pub label: Option<String>,
}

/// What a container holds: its identification and its saved versions.
pub struct OlsInspection {
    pub make: String,
    pub model: String,
    pub manufacturer: String,
    pub ecu_name: String,
    pub hw_number: String,
    pub sw_number: String,
    pub versions: Vec<OlsVersionInfo>,
}

/// The metadata block's start for a format version.
pub open spec fn metadata_start(fv: u32) -> int {
    if fv >= 200 {
        0x18
    } else {
        0x14
    }
}

/// Recognises a `.ols` container and lists its saved versions; `None` when
/// `data` is not one (bad header or no version directory).
pub fn inspect(data: &[u8]) -> (r: Option<OlsInspection>)
    ensures
        match (ols_format_version(data@), version_directory(data@, data@.len() as int)) {
            (Some(fv), Some(dir)) => r matches Some(info) && {
                let st = metadata_start(fv);
                let labels = revision_labels(item_text(data@, st, fv, 20), dir.num_versions);
                &&& info.make@ == item_text(data@, st, fv, 0)
                &&& info.model@ == item_text(data@, st, fv, 1)
                &&& info.manufacturer@ == item_text(data@, st, fv, 9)
                &&& info.ecu_name@ == item_text(data@, st, fv, 10)
                &&& info.hw_number@ == item_text(data@, st, fv, 11)
                &&& info.sw_number@ == item_text(data@, st, fv, 12)
                &&& info.versions@.len() == dir.num_versions
                &&& forall|i: int|
                    0 <= i < info.versions@.len() ==> {
                        &&& (#[trigger] info.versions@[i]).index == i
                        &&& info.versions@[i].size == dir.version_record_size
                        &&& match labels {
                            Some(ls) => if i < ls.len() {
                                info.versions@[i].label matches Some(l) && l@ == ls[i]
                            } else {
                                info.versions@[i].label is None
                            },
                            None => info.versions@[i].label is None,
                        }
                    }
            },
            _ => r is None,
        },
{
    let fv = match parse_header(data) {
        Some(fv) => fv,
        None => {
            return None;
        },
    };
    let meta = parse_light_metadata(data, metadata_offset(fv), fv);
    let dir = match find_version_directory(data, data.len() as u64) {
        Some(d) => d,
        None => {
            return None;
        },
    };
    let labels = parse_revision_labels(meta.revision_tag.as_str(), dir.num_versions);
    let mut versions: Vec<OlsVersionInfo> = Vec::new();
    let mut i: u32 = 0;
    while i < dir.num_versions
        invariant
            i <= dir.num_versions,
            versions@.len() == i,
            match revision_labels(meta.revision_tag@, dir.num_versions) {
                Some(ls) => labels matches Some(v) && v@.len() == ls.len() && forall|k: int|
                    0 <= k < ls.len() ==> (#[trigger] v@[k])@ == ls[k],
                None => labels is None,
            },
            forall|k: int|
                0 <= k < i ==> {
                    &&& (#[trigger] versions@[k]).index == k
                    &&& versions@[k].size == dir.version_record_size
                    &&& match revision_labels(meta.revision_tag@, dir.num_versions) {
                        Some(ls) => if k < ls.len() {
                            versions@[k].label matches Some(l) && l@ == ls[k]
                        } else {
                            versions@[k].label is None
                        },
                        None => versions@[k].label is None,
                    }
                },
        decreases dir.num_versions - i,
    {
        let label = match &labels {
            Some(l) => if (i as usize) < l.len() {
                Some(l[i as usize].clone())
            } else {
                None
            },
            None => None,
        };
        versions.push(OlsVersionInfo { index: i, size: dir.version_record_size as u64, label });
        i += 1;
    }
    Some(OlsInspection {
        make: meta.make,
        model: meta.model,
        manufacturer: meta.manufacturer,
        ecu_name: meta.ecu_name,
        hw_number: meta.hw_number,
        sw_number: meta.sw_number,
        versions,
    })
}

/// The message given for a version index past the last version.
pub open spec fn out_of_range_message(index: u32, versions: u32) -> Seq<char> {
    "version_index "@ + decimal(index as nat) + " out of range (file has "@ + decimal(versions as nat)
        + " version(s))"@
}

/// Extracts the raw bytes of saved version `version_index` (as listed by
/// [`inspect`]) out of a whole `.ols` file.
pub fn extract_version(data: &[u8], version_index: u32) -> (r: Result<Vec<u8>, String>)
    ensures
        match ols_format_version(data@) {
            None => r matches Err(e) && e@ == "not a .ols file (bad header/signature)"@,
            Some(_) => match version_directory(data@, data@.len() as int) {
                None => r matches Err(e) && e@ == "no version directory found"@,
                Some(dir) => if version_index >= dir.num_versions {
                    r matches Err(e) && e@ == out_of_range_message(version_index, dir.num_versions)
                } else {
                    let start = dir.version_data_start + 4 + dir.version_record_size * version_index;
                    let end = start + dir.version_record_size;
                    if end > data@.len() {
                        r matches Err(e) && e@ == "version data extends past end of file"@
                    } else {
                        r matches Ok(v) && v@ == data@.subrange(start, end)
                    }
                },
            },
        },
{
    if parse_header(data).is_none() {
        return Err(String::from_str("not a .ols file (bad header/signature)"));
    }
    let dir = match find_version_directory(data, data.len() as u64) {
        Some(d) => d,
        None => {
            return Err(String::from_str("no version directory found"));
        },
    };
    if version_index >= dir.num_versions {
        let mut msg = numbered("version_index ", version_index as u64);
        msg.append(" out of range (file has ");
        let count = numbered("", dir.num_versions as u64);
        msg.append(count.as_str());
        msg.append(" version(s))");
        proof {
            reveal_strlit("");
            assert(""@ =~= Seq::<char>::empty());
            assert(""@ + decimal(dir.num_versions as nat) =~= decimal(dir.num_versions as nat));
        }
        return Err(msg);
    }
    let ghost len = data@.len() as int;
    let rs = dir.version_record_size as usize;
    let vs = dir.version_data_start as usize;
    proof {
        let n = dir.num_versions as int;
        assert(vs + 4 + rs * n == len);
        assert(rs * (version_index as int) + rs <= rs * n) by (nonlinear_arith)
            requires
                version_index < n,
                rs >= 0,
        ;
    }
    let start = vs + 4 + rs * (version_index as usize);
    let end = start + rs;
    if end > data.len() {
        return Err(String::from_str("version data extends past end of file"));
    }
    let part = vstd::slice::slice_subrange(data, start, end);
    Ok(vstd::slice::slice_to_vec(part))
}

} // verus!
