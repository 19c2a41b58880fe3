//! String primitives the store is built on: case folding, substring search,
//! comparison, ordering and shared prefixes, each with a statement over
//! `Seq<char>`.

use vstd::prelude::*;
use vstd::std_specs::iter::IteratorSpec;
use vstd::string::StrSliceExecFns;

verus! {

/// The lower-case form of `s`: what `str::to_lowercase` returns for it.
/// Nothing more is taken as known of it; [`to_lowercase`] computes it.
pub uninterp spec fn lowercase(s: Seq<char>) -> Seq<char>;

/// `needle` occurs in `hay` as a contiguous run of characters.
pub open spec fn is_substring(needle: Seq<char>, hay: Seq<char>) -> bool {
    exists|i: int|
        0 <= i && i + needle.len() <= hay.len() && #[trigger] hay.subrange(i, i + needle.len())
            == needle
}

/// `a` comes no later than `b` in dictionary order by code point: `a` is a
/// prefix of `b`, or at the first position where they differ `a` holds the
/// smaller character.
pub open spec fn lex_le(a: Seq<char>, b: Seq<char>) -> bool {
    ||| a.is_prefix_of(b)
    ||| exists|k: int|
        0 <= k < a.len() && k < b.len() && #[trigger] a.take(k) == b.take(k) && (a[k] as u32) < (
        b[k] as u32)
}

/// `s` is in ascending dictionary order.
pub open spec fn is_sorted(s: Seq<Seq<char>>) -> bool {
    forall|i: int, j: int| 0 <= i <= j < s.len() ==> lex_le(#[trigger] s[i], #[trigger] s[j])
}

/// `p` is the longest sequence that starts both `a` and `b`.
pub open spec fn is_shared_prefix(p: Seq<char>, a: Seq<char>, b: Seq<char>) -> bool {
    &&& p.is_prefix_of(a)
    &&& p.is_prefix_of(b)
    &&& p.len() == a.len() || p.len() == b.len() || a[p.len() as int] != b[p.len() as int]
}

/// Calls `str::to_lowercase`. Trusted: the result depends on the characters
/// of `s` alone, so that it can be named `lowercase` of them.
#[verifier::external_body]
pub(crate) fn to_lowercase(s: &str) -> (folded: String)
    ensures
        folded@ == lowercase(s@),
{
    s.to_lowercase()
}

/// Calls `str::contains` with a string as the pattern. Trusted: the result
/// says whether `needle` occurs in `hay` as a contiguous run of characters.
#[verifier::external_body]
pub(crate) fn contains(hay: &str, needle: &str) -> (found: bool)
    ensures
        found == is_substring(needle@, hay@),
{
    hay.contains(needle)
}

/// Calls the slice method `sort` on a vector of strings. Trusted: the result
/// holds the same strings as before, in ascending dictionary order by code
/// point, which is the order the standard library documents for strings.
#[verifier::external_body]
pub(crate) fn sort_strings(v: &mut Vec<String>)
    ensures
        final(v).deep_view().to_multiset() == old(v).deep_view().to_multiset(),
        is_sorted(final(v).deep_view()),
{
    v.sort()
}

/// The longest string that starts both `a` and `b`.
pub fn shared_prefix(a: &str, b: &str) -> (p: String)
    ensures
        is_shared_prefix(p@, a@, b@),
{
    let len: usize = a.unicode_len();
    let mut rest_a = a.chars();
    let mut rest_b = b.chars();
    let mut n: usize = 0;
    loop
        invariant_except_break
            rest_a.remaining() == a@.skip(n as int),
            rest_b.remaining() == b@.skip(n as int),
        invariant
            len == a@.len(),
            n <= a@.len(),
            n <= b@.len(),
            a@.take(n as int) == b@.take(n as int),
        ensures
            n <= a@.len(),
            n <= b@.len(),
            a@.take(n as int) == b@.take(n as int),
            n == a@.len() || n == b@.len() || a@[n as int] != b@[n as int],
        decreases a@.len() - n,
    {
        match (rest_a.next(), rest_b.next()) {
            (Some(ca), Some(cb)) => {
                if ca != cb {
                    break ;
                }
                n += 1;
            },
            _ => {
                break ;
            },
        }
    }
    a.substring_char(0, n).to_owned()
}

/// Whether `a` and `b` hold the same characters.
pub fn same_text(a: &str, b: &str) -> (same: bool)
    ensures
        same == (a@ == b@),
{
    let len: usize = a.unicode_len();
    let mut rest_a = a.chars();
    let mut rest_b = b.chars();
    let mut n: usize = 0;
    loop
        invariant_except_break
            rest_a.remaining() == a@.skip(n as int),
            rest_b.remaining() == b@.skip(n as int),
        invariant
            len == a@.len(),
            n <= a@.len(),
            n <= b@.len(),
            a@.take(n as int) == b@.take(n as int),
        decreases a@.len() - n,
    {
        match (rest_a.next(), rest_b.next()) {
            (Some(ca), Some(cb)) => {
                if ca != cb {
                    return false;
                }
                n += 1;
            },
            (None, None) => {
                assert(a@ == a@.take(n as int));
                assert(b@ == b@.take(n as int));
                return true;
            },
            _ => {
                return false;
            },
        }
    }
}

/// Place of the first string of `items` that equals `wanted`.
pub fn position_of(items: &Vec<String>, wanted: &str) -> (found: Option<usize>)
    ensures
        match found {
            Some(i) => {
                &&& i < items@.len()
                &&& items.deep_view()[i as int] == wanted@
                &&& forall|j: int| 0 <= j < i ==> items.deep_view()[j] != wanted@
            },
            None => !items.deep_view().contains(wanted@),
        },
{
    let mut i: usize = 0;
    while i < items.len()
        invariant
            i <= items.len(),
            forall|j: int| 0 <= j < i ==> items.deep_view()[j] != wanted@,
        decreases items.len() - i,
    {
        if same_text(items[i].as_str(), wanted) {
            return Some(i);
        }
        i += 1;
    }
    None
}

/// Whether `items` holds a string equal to `wanted`.
pub fn holds(items: &Vec<String>, wanted: &str) -> (found: bool)
    ensures
        found == items.deep_view().contains(wanted@),
{
    position_of(items, wanted).is_some()
}

} // verus!
