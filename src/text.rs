//! Whitespace and string comparison on views of strings.

use vstd::prelude::*;

verus! {

/// Whether `char::is_whitespace` holds of `c` (Unicode `White_Space`).
pub uninterp spec fn is_space(c: char) -> bool;

/// Whether every character of `s` is whitespace (an empty `s` is blank).
pub open spec fn blank(s: Seq<char>) -> bool {
    forall|i: int| 0 <= i < s.len() ==> is_space(#[trigger] s[i])
}

/// Whether `r` is `s` with its leading and trailing whitespace removed.
pub open spec fn is_trim_of(r: Seq<char>, s: Seq<char>) -> bool {
    exists|a: int|
        0 <= a && a + r.len() <= s.len() && r == #[trigger] s.subrange(a, a + r.len())
            && (forall|i: int| 0 <= i < a ==> is_space(#[trigger] s[i]))
            && (forall|i: int| a + r.len() <= i < s.len() ==> is_space(#[trigger] s[i]))
            && (r.len() > 0 ==> !is_space(r[0]) && !is_space(r.last()))
}

/// Relies on `str::trim_end`: it drops the trailing characters for which
/// `char::is_whitespace` holds, and nothing else.
#[verifier::external_body]
fn trim_end(s: &str) -> (r: &str)
    ensures
        r@.len() <= s@.len(),
        r@ == s@.subrange(0, r@.len() as int),
        forall|i: int| r@.len() <= i < s@.len() ==> is_space(#[trigger] s@[i]),
        r@.len() > 0 ==> !is_space(r@.last()),
{
    s.trim_end()
}

/// Relies on `str::trim`: it drops the leading and trailing characters for
/// which `char::is_whitespace` holds, and nothing else.
#[verifier::external_body]
fn trim(s: &str) -> (r: &str)
    ensures
        is_trim_of(r@, s@),
{
    s.trim()
}

/// Whether `s` holds nothing but whitespace: `s.trim_end().is_empty()`.
pub fn is_blank(s: &str) -> (r: bool)
    ensures
        r == blank(s@),
{
    let t = trim_end(s);
    let r = t.is_empty();
    proof {
        if !r {
            assert(s@[t@.len() - 1] == t@.last());
        }
    }
    r
}

/// `s` with its leading and trailing whitespace removed.
pub fn trimmed(s: &str) -> (r: String)
    ensures
        is_trim_of(r@, s@),
{
    trim(s).to_string()
}

/// Whether two strings hold the same characters.
pub fn same_text(a: &str, b: &str) -> (r: bool)
    ensures
        r == (a@ == b@),
{
    let n = a.unicode_len();
    if n != b.unicode_len() {
        return false;
    }
    let mut i: usize = 0;
    while i < n
        invariant
            n == a@.len(),
            n == b@.len(),
            i <= n,
            a@.subrange(0, i as int) == b@.subrange(0, i as int),
        decreases n - i,
    {
        if a.get_char(i) != b.get_char(i) {
            return false;
        }
        assert(a@.subrange(0, i + 1) == a@.subrange(0, i as int).push(a@[i as int]));
        assert(b@.subrange(0, i + 1) == b@.subrange(0, i as int).push(b@[i as int]));
        i = i + 1;
    }
    assert(a@ == a@.subrange(0, n as int));
    assert(b@ == b@.subrange(0, n as int));
    true
}

} // verus!
