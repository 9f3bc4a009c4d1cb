//! Character-level helpers over strings, each with its mathematical meaning.
use vstd::prelude::*;
use vstd::string::*;

verus! {

/// The characters of `s`, in order.
pub fn chars_of(s: &str) -> (r: Vec<char>)
    ensures
        r@ == s@,
{
    let n = s.unicode_len();
    let mut out: Vec<char> = Vec::new();
    let mut i: usize = 0;
    while i < n
        invariant
            n == s@.len(),
            i <= n,
            out@ == s@.subrange(0, i as int),
        decreases n - i,
    {
        out.push(s.get_char(i));
        i = i + 1;
    }
    assert(out@ == s@);
    out
}

/// `t` occurs in `s` starting at position `k`.
pub open spec fn occurs_at(s: Seq<char>, t: Seq<char>, k: int) -> bool {
    0 <= k && k + t.len() <= s.len() && s.subrange(k, k + t.len()) == t
}

/// `t` occurs somewhere in `s`.
pub open spec fn contains_seq(s: Seq<char>, t: Seq<char>) -> bool {
    exists|k: int| occurs_at(s, t, k)
}

/// Whether `t` occurs in `s` at position `k`, by direct comparison.
pub fn occurs_at_exec(s: &Vec<char>, t: &Vec<char>, k: usize) -> (r: bool)
    ensures
        r == occurs_at(s@, t@, k as int),
{
    if k > s.len() || t.len() > s.len() - k {
        return false;
    }
    let mut j: usize = 0;
    while j < t.len()
        invariant
            k + t@.len() <= s@.len(),
            k + t.len() <= s.len(),
            j <= t@.len(),
            forall|m: int| 0 <= m < j ==> s@[k + m] == t@[m],
        decreases t.len() - j,
    {
        if s[k + j] != t[j] {
            assert(s@.subrange(k as int, k + t@.len())[j as int] != t@[j as int]);
            return false;
        }
        j = j + 1;
    }
    assert(s@.subrange(k as int, k + t@.len()) =~= t@);
    true
}

/// Whether `t` occurs anywhere in `s`.
pub fn contains_exec(s: &Vec<char>, t: &Vec<char>) -> (r: bool)
    ensures
        r == contains_seq(s@, t@),
{
    let mut k: usize = 0;
    while k < s.len()
        invariant
            k <= s@.len(),
            forall|m: int| 0 <= m < k ==> !occurs_at(s@, t@, m),
        decreases s.len() - k,
    {
        if occurs_at_exec(s, t, k) {
            return true;
        }
        k = k + 1;
    }
    if occurs_at_exec(s, t, k) {
        return true;
    }
    assert forall|m: int| !occurs_at(s@, t@, m) by {
        if 0 <= m && m < k {
        } else if m > k {
            assert(!(m + t@.len() <= s@.len()));
        }
    }
    false
}

/// Two characters are equal up to ASCII case.
pub open spec fn char_eq_ignore_ascii_case(a: char, b: char) -> bool {
    ||| a == b
    ||| ('A' <= a <= 'Z' && (a as u32) + 32 == b as u32)
    ||| ('A' <= b <= 'Z' && (b as u32) + 32 == a as u32)
}

/// Two strings are equal up to ASCII case.
pub open spec fn eq_ignore_ascii_case(a: Seq<char>, b: Seq<char>) -> bool {
    a.len() == b.len() && forall|i: int| 0 <= i < a.len() ==> char_eq_ignore_ascii_case(a[i], b[i])
}

pub fn char_eq_ignore_ascii_case_exec(a: char, b: char) -> (r: bool)
    ensures
        r == char_eq_ignore_ascii_case(a, b),
{
    a == b || ('A' <= a && a <= 'Z' && (a as u32) + 32 == b as u32) || ('A' <= b && b <= 'Z'
        && (b as u32) + 32 == a as u32)
}

/// Whether `a` and `b` are equal up to ASCII case.
pub fn eq_ignore_ascii_case_exec(a: &Vec<char>, b: &Vec<char>) -> (r: bool)
    ensures
        r == eq_ignore_ascii_case(a@, b@),
{
    if a.len() != b.len() {
        return false;
    }
    let mut i: usize = 0;
    while i < a.len()
        invariant
            a@.len() == b@.len(),
            i <= a@.len(),
            forall|m: int| 0 <= m < i ==> char_eq_ignore_ascii_case(a@[m], b@[m]),
        decreases a.len() - i,
    {
        if !char_eq_ignore_ascii_case_exec(a[i], b[i]) {
            return false;
        }
        i = i + 1;
    }
    true
}

/// The string made of the characters `s[from..to]`.
pub fn string_of_range(s: &str, from: usize, to: usize) -> (r: String)
    requires
        from <= to <= s@.len(),
    ensures
        r@ == s@.subrange(from as int, to as int),
{
    let piece = s.substring_char(from, to);
    piece.to_owned()
}

/// `a` followed by `b`, as a new string.
pub fn joined(a: &str, b: &str) -> (r: String)
    ensures
        r@ == a@ + b@,
{
    let mut out = a.to_owned();
    out.append(b);
    out
}

/// `parts` joined by `sep`.
pub open spec fn join_with(parts: Seq<Seq<char>>, sep: Seq<char>) -> Seq<char>
    decreases parts.len(),
{
    if parts.len() == 0 {
        seq![]
    } else if parts.len() == 1 {
        parts[0]
    } else {
        join_with(parts.drop_last(), sep) + sep + parts.last()
    }
}

} // verus!
