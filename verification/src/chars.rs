//! Character-level string utilities: character replacement (used to turn
//! directory names like `1_10_0` into version strings like `1.10.0` and back)
//! and substring search predicates used by the URL contracts.

use vstd::prelude::*;
use vstd::string::StrSliceExecFns;

verus! {

/// One character of a replacement: `from` becomes `to`, everything else is kept.
pub open spec fn swap_char(c: char, from: char, to: char) -> char {
    if c == from {
        to
    } else {
        c
    }
}

/// The sequence with every occurrence of `from` replaced by `to`.
pub open spec fn replace_chars(s: Seq<char>, from: char, to: char) -> Seq<char> {
    s.map_values(|c: char| swap_char(c, from, to))
}

/// `needle` occurs as a contiguous segment of `hay`.
pub open spec fn contains_seg(hay: Seq<char>, needle: Seq<char>) -> bool {
    exists|i: int|
        0 <= i && i + needle.len() <= hay.len() && #[trigger] hay.subrange(i, i + needle.len())
            == needle
}

/// Relies on `String::push` from std: appends the given character to the end
/// of this `String`.
#[verifier::external_body]
pub(crate) fn push_char(s: &mut String, c: char)
    ensures
        final(s)@ == old(s)@.push(c),
{
    s.push(c);
}

/// Builds a new string from `s` with every occurrence of `from` replaced by `to`.
pub fn replace_char(s: &str, from: char, to: char) -> (r: String)
    ensures
        r@ == replace_chars(s@, from, to),
{
    let n = s.unicode_len();
    let mut r = String::new();
    let mut i: usize = 0;
    while i < n
        invariant
            i <= n,
            n == s@.len(),
            r@ == replace_chars(s@.take(i as int), from, to),
        decreases n - i,
    {
        proof {
            assert(replace_chars(s@.take(i + 1), from, to) =~= replace_chars(
                s@.take(i as int),
                from,
                to,
            ).push(swap_char(s@[i as int], from, to)));
        }
        let c = s.get_char(i);
        if c == from {
            push_char(&mut r, to);
        } else {
            push_char(&mut r, c);
        }
        i = i + 1;
    }
    proof {
        assert(s@.take(n as int) =~= s@);
    }
    r
}

/// Whether the character `c` occurs in `s`.
pub fn contains_char(s: &str, c: char) -> (b: bool)
    ensures
        b == s@.contains(c),
{
    let n = s.unicode_len();
    let mut i: usize = 0;
    while i < n
        invariant
            i <= n,
            n == s@.len(),
            forall|k: int| 0 <= k < i ==> s@[k] != c,
        decreases n - i,
    {
        if s.get_char(i) == c {
            proof {
                assert(s@[i as int] == c);
            }
            return true;
        }
        i = i + 1;
    }
    false
}

} // verus!
