//! Comparing release versions for the update check.
use vstd::prelude::*;
use crate::ols_import::{is_white_space, is_ws, trim, trim_chars};
use crate::text::chars_of;

verus! {

/// What the update check found.
pub struct UpdateInfo {
    pub update_available: bool,
    pub current_version: String,
    pub latest_version: String,
    pub release_notes: String,
    pub download_url: Option<String>,
    pub release_url: String,
}

/// `s` without its leading `v` and `V` characters.
pub open spec fn strip_v(s: Seq<char>) -> Seq<char>
    decreases s.len(),
{
    if s.len() > 0 && (s[0] == 'v' || s[0] == 'V') {
        strip_v(s.drop_first())
    } else {
        s
    }
}

/// The characters that separate the numbers of a version.
pub open spec fn is_version_sep(c: char) -> bool {
    c == '.' || c == '-' || c == '+'
}

/// The parts of `s` between separators, left to right.
pub open spec fn version_fields(s: Seq<char>) -> Seq<Seq<char>>
    decreases s.len(),
{
    if s.len() == 0 {
        seq![s]
    } else if is_version_sep(s[0]) {
        seq![Seq::<char>::empty()] + version_fields(s.drop_first())
    } else {
        let r = version_fields(s.drop_first());
        r.update(0, seq![s[0]] + r[0])
    }
}

/// `c` is a decimal digit.
pub open spec fn is_digit(c: char) -> bool {
    '0' <= c <= '9'
}

/// The number written by the decimal digits `p`.
pub open spec fn digits_value(p: Seq<char>) -> int
    decreases p.len(),
{
    if p.len() == 0 {
        0
    } else {
        digits_value(p.drop_last()) * 10 + (p.last() as int - '0' as int)
    }
}

/// A version part as a number: its value when it is a non-empty run of
/// digits that fits in 64 bits, else 0.
pub open spec fn part_value(p: Seq<char>) -> u64 {
    if p.len() > 0 && (forall|i: int| 0 <= i < p.len() ==> is_digit(#[trigger] p[i])) && digits_value(p)
        <= u64::MAX {
        digits_value(p) as u64
    } else {
        0
    }
}

/// Part `i` of a version, 0 when missing.
pub open spec fn part_at(f: Seq<Seq<char>>, i: int) -> u64 {
    if i < f.len() {
        part_value(f[i])
    } else {
        0
    }
}

/// `v1.2.3` or `1.2.3` read as (major, minor, patch); missing parts are 0.
pub open spec fn version_triple(v: Seq<char>) -> (u64, u64, u64) {
    let f = version_fields(strip_v(trim(v)));
    (part_at(f, 0), part_at(f, 1), part_at(f, 2))
}

/// `a` comes after `b` in (major, minor, patch) order.
pub open spec fn triple_after(a: (u64, u64, u64), b: (u64, u64, u64)) -> bool {
    a.0 > b.0 || (a.0 == b.0 && (a.1 > b.1 || (a.1 == b.1 && a.2 > b.2)))
}

fn digits_number(p: &[char]) -> (r: u64)
    ensures
        r == part_value(p@),
{
    if p.len() == 0 {
        return 0;
    }
    let mut value: u64 = 0;
    let mut k: usize = 0;
    while k < p.len()
        invariant
            k <= p@.len(),
            p@.len() > 0,
            forall|i: int| 0 <= i < k ==> is_digit(#[trigger] p@[i]),
            value == digits_value(p@.subrange(0, k as int)),
        decreases p.len() - k,
    {
        let c = p[k];
        if !('0' <= c && c <= '9') {
            assert(!is_digit(p@[k as int]));
            return 0;
        }
        let d = (c as u32 - '0' as u32) as u64;
        assert(p@.subrange(0, k + 1).drop_last() =~= p@.subrange(0, k as int));
        match value.checked_mul(10) {
            None => {
                proof {
                    lemma_digits_grow(p@, (k + 1) as int);
                }
                return 0;
            },
            Some(t) => match t.checked_add(d) {
                None => {
                    proof {
                        lemma_digits_grow(p@, (k + 1) as int);
                    }
                    return 0;
                },
                Some(v) => {
                    value = v;
                },
            },
        }
        k += 1;
    }
    assert(p@.subrange(0, p@.len() as int) =~= p@);
    value
}

proof fn lemma_digits_grow(p: Seq<char>, k: int)
    requires
        0 < k <= p.len(),
        forall|i: int| 0 <= i < k ==> is_digit(#[trigger] p[i]),
        digits_value(p.subrange(0, k)) > u64::MAX,
    ensures
        part_value(p) == 0,
    decreases p.len() - k,
{
    if k < p.len() {
        if is_digit(p[k]) {
            assert(p.subrange(0, k + 1).drop_last() =~= p.subrange(0, k));
            lemma_digits_grow(p, k + 1);
        }
    } else {
        assert(p.subrange(0, k) =~= p);
    }
}

proof fn lemma_fields_nonempty(s: Seq<char>)
    ensures
        version_fields(s).len() >= 1,
    decreases s.len(),
{
    if s.len() > 0 {
        lemma_fields_nonempty(s.drop_first());
    }
}

/// `v1.2.3`, `1.2.3` and the like as (major, minor, patch): surrounding white
/// space and leading `v`/`V` are dropped, the parts are split at `.`, `-`
/// and `+`, and a missing or unreadable part counts as 0.
pub fn parse_version(v: &str) -> (r: (u64, u64, u64))
    ensures
        r == version_triple(v@),
{
    let all = chars_of(v);
    let t = trim_chars(all.as_slice());
    let n = t.len();
    let mut a: usize = 0;
    proof {
        assert(t@.subrange(0, n as int) =~= t@);
    }
    while a < n && (t[a] == 'v' || t[a] == 'V')
        invariant
            a <= n,
            n == t@.len(),
            strip_v(t@) == strip_v(t@.subrange(a as int, n as int)),
        decreases n - a,
    {
        assert(t@.subrange(a as int, n as int).drop_first() =~= t@.subrange(a + 1, n as int));
        a += 1;
    }
    let ghost s = t@.subrange(a as int, n as int);
    let mut parts: Vec<u64> = Vec::new();
    let mut start = a;
    let mut i = a;
    proof {
        lemma_fields_nonempty(s);
        assert(s =~= t@.subrange(a as int, n as int));
    }
    while i < n
        invariant
            a <= start <= i <= n,
            n == t@.len(),
            s == t@.subrange(a as int, n as int),
            ({
                let f = version_fields(t@.subrange(i as int, n as int));
                let whole = version_fields(s);
                &&& f.len() >= 1
                &&& whole.len() == parts@.len() + f.len()
                &&& forall|k: int| 0 <= k < parts@.len() ==> #[trigger] parts@[k] == part_value(whole[k])
                &&& whole[parts@.len() as int] == t@.subrange(start as int, i as int) + f[0]
                &&& forall|k: int| 0 < k < f.len() ==> whole[parts@.len() + k] == #[trigger] f[k]
            }),
        decreases n - i,
    {
        let ghost f = version_fields(t@.subrange(i as int, n as int));
        let ghost g = version_fields(t@.subrange(i + 1, n as int));
        proof {
            assert(t@.subrange(i as int, n as int).drop_first() =~= t@.subrange(i + 1, n as int));
            lemma_fields_nonempty(t@.subrange(i + 1, n as int));
        }
        let c = t[i];
        if c == '.' || c == '-' || c == '+' {
            let piece = vstd::slice::slice_subrange(t.as_slice(), start, i);
            let value = digits_number(piece);
            let ghost before = parts@;
            parts.push(value);
            proof {
                let whole = version_fields(s);
                assert(f =~= seq![Seq::<char>::empty()] + g);
                assert(t@.subrange(start as int, i as int) + Seq::<char>::empty() =~= t@.subrange(start as int, i as int));
                assert(t@.subrange(i + 1, i + 1) + g[0] =~= g[0]);
                assert(whole[before.len() as int] == t@.subrange(start as int, i as int));
                assert(parts@[before.len() as int] == part_value(whole[before.len() as int]));
                assert forall|k: int| 0 <= k < parts@.len() implies #[trigger] parts@[k] == part_value(whole[k]) by {
                    if k < before.len() {
                        assert(parts@[k] == before[k]);
                    }
                }
                assert(whole[parts@.len() as int] == f[1]);
                assert forall|k: int| 0 < k < g.len() implies whole[parts@.len() + k] == #[trigger] g[k] by {
                    assert(f[k + 1] == g[k]);
                }
            }
            start = i + 1;
        } else {
            proof {
                let whole = version_fields(s);
                assert(f == g.update(0, seq![c] + g[0]));
                assert(t@.subrange(start as int, i as int) + f[0] =~= t@.subrange(start as int, i + 1) + g[0]);
                assert forall|k: int| 0 < k < g.len() implies whole[parts@.len() + k] == #[trigger] g[k] by {
                    assert(f[k] == g[k]);
                }
            }
        }
        i += 1;
    }
    let last = digits_number(vstd::slice::slice_subrange(t.as_slice(), start, n));
    parts.push(last);
    proof {
        let f = version_fields(t@.subrange(n as int, n as int));
        assert(t@.subrange(n as int, n as int) =~= Seq::<char>::empty());
        assert(f =~= seq![Seq::<char>::empty()]);
        assert(t@.subrange(start as int, n as int) + f[0] =~= t@.subrange(start as int, n as int));
        assert(version_fields(s).len() == parts@.len());
    }
    let major = if parts.len() > 0 { parts[0] } else { 0 };
    let minor = if parts.len() > 1 { parts[1] } else { 0 };
    let patch = if parts.len() > 2 { parts[2] } else { 0 };
    (major, minor, patch)
}

/// Whether the release `latest` is newer than the running `current` version.
pub fn is_newer(latest: &str, current: &str) -> (r: bool)
    ensures
        r == triple_after(version_triple(latest@), version_triple(current@)),
{
    let a = parse_version(latest);
    let b = parse_version(current);
    a.0 > b.0 || (a.0 == b.0 && (a.1 > b.1 || (a.1 == b.1 && a.2 > b.2)))
}

/// What the lower-case conversion of the standard library gives for `s`.
pub uninterp spec fn lower_case(s: Seq<char>) -> Seq<char>;

/// The lower-case form of `s` (`str::to_lowercase`).
#[verifier::external_body]
fn to_lower(s: &str) -> (r: String)
    ensures
        r@ == lower_case(s@),
{
    s.to_lowercase()
}

/// `p` ends `s`.
pub open spec fn ends_with(s: Seq<char>, p: Seq<char>) -> bool {
    p.len() <= s.len() && s.subrange(s.len() - p.len(), s.len() as int) == p
}

/// Release asset `k` is an installer: its lower-case name ends in `.exe`.
pub open spec fn is_installer(names: Seq<String>, k: int) -> bool {
    ends_with(lower_case(names[k]@), ".exe"@)
}

/// Release asset `k` is named as a setup program.
pub open spec fn is_setup(names: Seq<String>, k: int) -> bool {
    crate::text::contains_text(lower_case(names[k]@), "setup"@)
}

/// The asset chosen among the first `n`: walking the assets in order, an
/// installer is taken when none is taken yet or when it is a setup program,
/// and the walk stops at the first setup installer.
pub open spec fn chosen(names: Seq<String>, urls: Seq<Option<String>>, n: int) -> Option<String>
    decreases n,
{
    if n <= 0 {
        None
    } else {
        let before = chosen(names, urls, n - 1);
        if exists|k: int| 0 <= k < n - 1 && is_installer(names, k) && is_setup(names, k) {
            before
        } else if is_installer(names, n - 1) && (before is None || is_setup(names, n - 1)) {
            urls[n - 1]
        } else {
            before
        }
    }
}

fn ends_with_chars(s: &String, p: &str) -> (r: bool)
    ensures
        r == ends_with(s@, p@),
{
    let a = chars_of(s.as_str());
    let b = chars_of(p);
    if b.len() > a.len() {
        return false;
    }
    let off = a.len() - b.len();
    let mut i: usize = 0;
    while i < b.len()
        invariant
            a@ == s@,
            b@ == p@,
            off + b@.len() == a.len(),
            i <= b@.len(),
            forall|k: int| 0 <= k < i ==> a@[off + k] == b@[k],
        decreases b.len() - i,
    {
        if a[off + i] != b[i] {
            assert(a@.subrange(off as int, a@.len() as int)[i as int] != b@[i as int]);
            assert(s@.subrange(s@.len() - p@.len(), s@.len() as int) != p@);
            return false;
        }
        i += 1;
    }
    assert(a@.subrange(off as int, a@.len() as int) =~= b@);
    true
}

/// The download of a release: among its assets (`names` with their
/// download `urls`), the first `.exe` asset, or the first whose name holds
/// "setup" (letter case ignored), when there is one.
pub fn pick_download_url(names: &Vec<String>, urls: &Vec<Option<String>>) -> (r: Option<String>)
    requires
        names@.len() == urls@.len(),
    ensures
        r == chosen(names@, urls@, names@.len() as int),
{
    let mut pick: Option<String> = None;
    let mut i: usize = 0;
    let mut done = false;
    while i < names.len()
        invariant
            names@.len() == urls@.len(),
            i <= names@.len(),
            pick == chosen(names@, urls@, i as int),
            done == exists|k: int| 0 <= k < i && is_installer(names@, k) && is_setup(names@, k),
        decreases names.len() - i,
    {
        let ghost prev = i as int;
        if !done {
            let lower = to_lower(names[i].as_str());
            let exe = ends_with_chars(&lower, ".exe");
            let setup_chars = chars_of("setup");
            let setup = crate::text::contains_chars(chars_of(lower.as_str()).as_slice(), setup_chars.as_slice());
            if exe && (pick.is_none() || setup) {
                pick = match &urls[i] {
                    Some(u) => Some(u.clone()),
                    None => None,
                };
            }
            if exe && setup {
                done = true;
            }
        }
        i += 1;
        proof {
            if done {
                let k = choose|k: int| 0 <= k < i && is_installer(names@, k) && is_setup(names@, k);
            }
        }
    }
    pick
}

/// `c` may stand in the installer's file name.
pub open spec fn file_name_char(c: char) -> bool {
    ('0' <= c <= '9') || ('a' <= c <= 'z') || ('A' <= c <= 'Z') || c == '.' || c == '-'
}

/// The name of the downloaded installer: "ZedSuite-setup-", the characters of
/// `version` that are ASCII letters, digits, `.` or `-`, then ".exe".
pub fn installer_file_name(version: &str) -> (r: String)
    ensures
        r@ == "ZedSuite-setup-"@ + version@.filter(|c: char| file_name_char(c)) + ".exe"@,
{
    let v = chars_of(version);
    let mut kept: Vec<char> = Vec::new();
    let mut i: usize = 0;
    while i < v.len()
        invariant
            v@ == version@,
            i <= v@.len(),
            kept@ == v@.take(i as int).filter(|c: char| file_name_char(c)),
        decreases v.len() - i,
    {
        let c = v[i];
        let ok = ('0' <= c && c <= '9') || ('a' <= c && c <= 'z') || ('A' <= c && c <= 'Z') || c == '.' || c == '-';
        proof {
            reveal(Seq::filter);
            assert(v@.take(i + 1).drop_last() =~= v@.take(i as int));
        }
        if ok {
            kept.push(c);
        }
        i += 1;
    }
    assert(v@.take(v@.len() as int) =~= v@);
    let mut name = String::from_str("ZedSuite-setup-");
    let middle = crate::text::string_from_chars(kept.as_slice());
    name.append(middle.as_str());
    name.append(".exe");
    name
}

} // verus!

verus! {

/// The answer when no release is published yet: no update, the running
/// version on both sides, and the releases page as the place to look.
pub fn no_release_info(current: String, releases_page: String) -> (r: UpdateInfo)
    ensures
        !r.update_available,
        r.current_version@ == current@,
        r.latest_version@ == current@,
        r.release_notes@ == Seq::<char>::empty(),
        r.download_url is None,
        r.release_url@ == releases_page@,
{
    let latest = current.clone();
    UpdateInfo {
        update_available: false,
        current_version: current,
        latest_version: latest,
        release_notes: String::new(),
        download_url: None,
        release_url: releases_page,
    }
}

/// What a published release means for the running version `current`: its
/// `tag`, notes and page (the releases page where it names none) and the
/// installer among its assets. A release without a tag is refused.
pub fn release_info(
    current: String,
    tag: String,
    notes: String,
    page: Option<String>,
    releases_page: String,
    names: &Vec<String>,
    urls: &Vec<Option<String>>,
) -> (r: Result<UpdateInfo, String>)
    requires
        names@.len() == urls@.len(),
    ensures
        tag@.len() == 0 <==> r is Err,
        r is Err ==> r->Err_0@ == "github api: release without tag_name"@,
        r matches Ok(info) ==> {
            &&& info.update_available == triple_after(version_triple(tag@), version_triple(current@))
            &&& info.current_version@ == current@
            &&& info.latest_version@ == tag@
            &&& info.release_notes@ == notes@
            &&& info.download_url == chosen(names@, urls@, names@.len() as int)
            &&& info.release_url@ == (match page {
                Some(p) => p@,
                None => releases_page@,
            })
        },
{
    if chars_of(tag.as_str()).len() == 0 {
        return Err(String::from_str("github api: release without tag_name"));
    }
    let update_available = is_newer(tag.as_str(), current.as_str());
    let download_url = pick_download_url(names, urls);
    let release_url = match page {
        Some(p) => p,
        None => releases_page,
    };
    Ok(UpdateInfo {
        update_available,
        current_version: current,
        latest_version: tag,
        release_notes: notes,
        download_url,
        release_url,
    })
}

} // verus!
