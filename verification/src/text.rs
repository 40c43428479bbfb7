//! Building display strings: decimal numbers and concatenation.
use vstd::prelude::*;
use vstd::std_specs::iter::IteratorSpec;

verus! {

/// The decimal digit character of `d` (0 to 9).
pub open spec fn digit(d: nat) -> char {
    ((48 + d) as u8) as char
}

/// The decimal representation of `n`, without leading zeros.
pub open spec fn decimal(n: nat) -> Seq<char>
    decreases n,
{
    if n < 10 {
        seq![digit(n)]
    } else {
        decimal(n / 10).push(digit(n % 10))
    }
}

/// The decimal representation of `n`, padded with a zero to two digits.
pub open spec fn two_digits(n: nat) -> Seq<char> {
    if n < 10 {
        seq!['0', digit(n)]
    } else {
        decimal(n)
    }
}

/// The characters of `v` as a string.
#[verifier::external_body]
pub fn string_from_chars(v: &[char]) -> (r: String)
    ensures
        r@ == v@,
{
    v.iter().collect()
}

/// The characters of `s`.
pub fn chars_of(s: &str) -> (r: Vec<char>)
    ensures
        r@ == s@,
{
    broadcast use vstd::string::axiom_spec_iter, vstd::string::next_postcondition;

    let mut it = s.chars();
    let mut v: Vec<char> = Vec::new();
    loop
        invariant
            it.obeys_prophetic_iter_laws(),
            v@ + it.remaining() == s@,
        decreases s@.len() - v@.len(),
    {
        match it.next() {
            Some(c) => {
                assert(v@.push(c) + it.remaining() =~= v@ + (seq![c] + it.remaining()));
                v.push(c);
            },
            None => {
                assert(v@ + Seq::<char>::empty() =~= v@);
                return v;
            },
        }
    }
}

/// The decimal digits of `n`.
pub fn decimal_chars(n: u64) -> (r: Vec<char>)
    ensures
        r@ == decimal(n as nat),
    decreases n,
{
    if n < 10 {
        let c = ((48 + n) as u8) as char;
        let mut v: Vec<char> = Vec::new();
        v.push(c);
        assert(v@ =~= seq![digit(n as nat)]);
        v
    } else {
        let mut v = decimal_chars(n / 10);
        let d = n % 10;
        let c = ((48 + d) as u8) as char;
        v.push(c);
        v
    }
}

/// `prefix` followed by the decimal digits of `n`.
pub fn numbered(prefix: &str, n: u64) -> (r: String)
    ensures
        r@ == prefix@ + decimal(n as nat),
{
    let mut s = String::from_str(prefix);
    let digits = decimal_chars(n);
    let tail = string_from_chars(digits.as_slice());
    s.append(tail.as_str());
    s
}

/// Appends the decimal digits of `n` to `s`.
pub fn append_decimal(s: &mut String, n: u64)
    ensures
        final(s)@ == old(s)@ + decimal(n as nat),
{
    let digits = decimal_chars(n);
    let tail = string_from_chars(digits.as_slice());
    s.append(tail.as_str());
}

/// `prefix` followed by `n` written with at least two digits.
pub fn numbered2(prefix: &str, n: u64) -> (r: String)
    ensures
        r@ == prefix@ + two_digits(n as nat),
{
    let mut s = String::from_str(prefix);
    if n < 10 {
        s.append("0");
        proof {
            reveal_strlit("0");
        }
    }
    let digits = decimal_chars(n);
    let tail = string_from_chars(digits.as_slice());
    s.append(tail.as_str());
    proof {
        if n < 10 {
            assert(decimal(n as nat) == seq![digit(n as nat)]);
            assert(prefix@ + seq!['0'] + seq![digit(n as nat)] =~= prefix@ + two_digits(n as nat));
        }
    }
    s
}

/// Whether `a` and `b` hold the same characters.
pub fn same_chars(a: &[char], b: &[char]) -> (r: bool)
    ensures
        r == (a@ == b@),
{
    if a.len() != b.len() {
        return false;
    }
    let mut i: usize = 0;
    while i < a.len()
        invariant
            a@.len() == b@.len(),
            i <= a@.len(),
            forall|k: int| 0 <= k < i ==> a@[k] == b@[k],
        decreases a.len() - i,
    {
        if a[i] != b[i] {
            return false;
        }
        i += 1;
    }
    assert(a@ =~= b@);
    true
}

/// Whether the string `s` is the text `t`.
pub fn text_eq(s: &String, t: &str) -> (r: bool)
    ensures
        r == (s@ == t@),
{
    let a = chars_of(s.as_str());
    let b = chars_of(t);
    same_chars(a.as_slice(), b.as_slice())
}

/// Whether the string `s` starts with the text `p`.
pub fn text_starts_with(s: &String, p: &str) -> (r: bool)
    ensures
        r == (p@.len() <= s@.len() && s@.subrange(0, p@.len() as int) == p@),
{
    let a = chars_of(s.as_str());
    let b = chars_of(p);
    if b.len() > a.len() {
        return false;
    }
    let mut i: usize = 0;
    while i < b.len()
        invariant
            a@ == s@,
            b@ == p@,
            b@.len() <= a@.len(),
            i <= b@.len(),
            forall|k: int| 0 <= k < i ==> a@[k] == b@[k],
        decreases b.len() - i,
    {
        if a[i] != b[i] {
            assert(a@.subrange(0, b@.len() as int)[i as int] != b@[i as int]);
            assert(s@.subrange(0, p@.len() as int) != p@);
            return false;
        }
        i += 1;
    }
    assert(a@.subrange(0, b@.len() as int) =~= b@);
    true
}

/// Whether character `i` of `s` is an ASCII digit.
pub fn digit_at(s: &String, i: usize) -> (r: bool)
    ensures
        r == (i < s@.len() && '0' <= s@[i as int] <= '9'),
{
    let a = chars_of(s.as_str());
    i < a.len() && '0' <= a[i] && a[i] <= '9'
}

/// The ASCII lower case of `c`.
pub open spec fn lower_char(c: char) -> char {
    if 'A' <= c <= 'Z' {
        ((c as u32) + 32) as char
    } else {
        c
    }
}

/// `s` with its ASCII letters in lower case.
pub open spec fn lower(s: Seq<char>) -> Seq<char> {
    Seq::new(s.len(), |i: int| lower_char(s[i]))
}

/// `p` occurs in `s` at `i`.
pub open spec fn occurs_at(s: Seq<char>, p: Seq<char>, i: int) -> bool {
    0 <= i && i + p.len() <= s.len() && s.subrange(i, i + p.len()) == p
}

/// `p` occurs somewhere in `s`.
pub open spec fn contains_text(s: Seq<char>, p: Seq<char>) -> bool {
    exists|i: int| #[trigger] occurs_at(s, p, i)
}

/// `s` with each occurrence of a non-empty `from`, left to right and not
/// overlapping, replaced by `to`.
pub open spec fn replaced(s: Seq<char>, from: Seq<char>, to: Seq<char>) -> Seq<char>
    decreases s.len(),
{
    if from.len() == 0 || s.len() < from.len() {
        s
    } else if s.subrange(0, from.len() as int) == from {
        to + replaced(s.skip(from.len() as int), from, to)
    } else {
        seq![s[0]] + replaced(s.skip(1), from, to)
    }
}

/// The ASCII lower case of the characters `v`.
pub fn lower_chars(v: &[char]) -> (r: Vec<char>)
    ensures
        r@ == lower(v@),
{
    let mut out: Vec<char> = Vec::new();
    let mut i: usize = 0;
    while i < v.len()
        invariant
            i <= v@.len(),
            out@ == lower(v@.take(i as int)),
        decreases v.len() - i,
    {
        let c = v[i];
        let l = if 'A' <= c && c <= 'Z' {
            ((c as u8) + 32) as char
        } else {
            c
        };
        assert(l == lower_char(c)) by {
            if 'A' <= c && c <= 'Z' {
                assert((c as u8) as u32 == c as u32);
            }
        }
        out.push(l);
        i += 1;
        assert(out@ =~= lower(v@.take(i as int)));
    }
    assert(v@.take(v@.len() as int) =~= v@);
    out
}

/// Whether `p` occurs in `v` at `i`.
pub fn occurs_in(v: &[char], p: &[char], i: usize) -> (r: bool)
    ensures
        r == occurs_at(v@, p@, i as int),
{
    if i > v.len() || v.len() - i < p.len() {
        return false;
    }
    let mut k: usize = 0;
    while k < p.len()
        invariant
            i + p@.len() <= v.len(),
            k <= p@.len(),
            forall|q: int| 0 <= q < k ==> v@[i + q] == p@[q],
        decreases p.len() - k,
    {
        if v[i + k] != p[k] {
            assert(v@.subrange(i as int, i + p@.len())[k as int] != p@[k as int]);
            return false;
        }
        k += 1;
    }
    assert(v@.subrange(i as int, i + p@.len()) =~= p@);
    true
}

/// Whether `p` occurs somewhere in `v`.
pub fn contains_chars(v: &[char], p: &[char]) -> (r: bool)
    ensures
        r == contains_text(v@, p@),
{
    let mut i: usize = 0;
    while i < v.len()
        invariant
            i <= v@.len(),
            forall|q: int| 0 <= q < i ==> !#[trigger] occurs_at(v@, p@, q),
        decreases v.len() - i,
    {
        if occurs_in(v, p, i) {
            return true;
        }
        i += 1;
    }
    if occurs_in(v, p, v.len()) {
        return true;
    }
    assert forall|q: int| !#[trigger] occurs_at(v@, p@, q) by {
        if 0 <= q < v@.len() {
        } else if q == v@.len() {
        }
    }
    false
}

/// `v` with each occurrence of a non-empty `from` replaced by `to`.
pub fn replace_chars(v: &[char], from: &[char], to: &[char]) -> (r: Vec<char>)
    requires
        from@.len() > 0,
    ensures
        r@ == replaced(v@, from@, to@),
{
    let mut out: Vec<char> = Vec::new();
    let mut i: usize = 0;
    assert(v@.skip(0) =~= v@);
    assert(out@ + v@ =~= v@);
    while i < v.len()
        invariant
            i <= v@.len(),
            from@.len() > 0,
            out@ + replaced(v@.skip(i as int), from@, to@) == replaced(v@, from@, to@),
        decreases v.len() - i,
    {
        let ghost rest = v@.skip(i as int);
        if occurs_in(v, from, i) {
            assert(rest.subrange(0, from@.len() as int) =~= v@.subrange(i as int, i + from@.len()));
            assert(rest.skip(from@.len() as int) =~= v@.skip(i + from@.len()));
            let mut k: usize = 0;
            let ghost before = out@;
            while k < to.len()
                invariant
                    k <= to@.len(),
                    out@ == before + to@.take(k as int),
                decreases to.len() - k,
            {
                out.push(to[k]);
                k += 1;
                assert(out@ =~= before + to@.take(k as int));
            }
            assert(to@.take(to@.len() as int) =~= to@);
            assert(before + (to@ + replaced(rest.skip(from@.len() as int), from@, to@)) =~= out@ + replaced(
                v@.skip(i + from@.len()),
                from@,
                to@,
            ));
            i += from.len();
        } else {
            proof {
                if rest.len() >= from@.len() {
                    assert(rest.subrange(0, from@.len() as int) =~= v@.subrange(i as int, i + from@.len()));
                }
            }
            assert(rest.skip(1) =~= v@.skip(i + 1));
            let ghost before = out@;
            out.push(v[i]);
            proof {
                if rest.len() < from@.len() {
                    assert(replaced(rest, from@, to@) == rest);
                    assert(rest =~= seq![v@[i as int]] + rest.skip(1));
                    assert(replaced(rest.skip(1), from@, to@) == rest.skip(1));
                }
            }
            assert(before + (seq![rest[0]] + replaced(rest.skip(1), from@, to@)) =~= out@ + replaced(
                v@.skip(i + 1),
                from@,
                to@,
            ));
            i += 1;
        }
    }
    assert(v@.skip(i as int) =~= Seq::<char>::empty());
    assert(out@ + Seq::<char>::empty() =~= out@);
    out
}

} // verus!
