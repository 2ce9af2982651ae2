//! Characters and strings, as the parsers need them.

use vstd::prelude::*;

verus! {

/// The characters of `s`, in order.
pub(crate) fn chars_of(s: &str) -> (v: Vec<char>)
    ensures
        v@ == s@,
{
    let mut v: Vec<char> = Vec::new();
    for c in it: s.chars()
        invariant
            it.seq() == s@,
            v@ == s@.take(it.index()),
    {
        v.push(c);
    }
    v
}

/// Whether `s` reads exactly as `word`.
pub(crate) fn reads_as(s: &String, word: &str) -> (b: bool)
    ensures
        b == (s@ == word@),
{
    let w = String::from_str(word);
    *s == w
}

/// Whether `name` begins with `pattern`; the empty pattern begins every name.
pub(crate) fn starts_with(name: &str, pattern: &str) -> (b: bool)
    ensures
        b == pattern@.is_prefix_of(name@),
{
    let n = chars_of(name);
    let p = chars_of(pattern);
    if p.len() > n.len() {
        return false;
    }
    let mut i: usize = 0;
    while i < p.len()
        invariant
            i <= p.len() <= n.len(),
            p@ == pattern@,
            n@ == name@,
            forall|j: int| 0 <= j < i ==> p@[j] == n@[j],
        decreases p.len() - i,
    {
        if p[i] != n[i] {
            return false;
        }
        i += 1;
    }
    true
}

} // verus!
