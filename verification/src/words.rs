//! Cutting text into pieces: at marked places, and at white space.

use vstd::prelude::*;
use vstd::std_specs::iter::IteratorSpec;
use vstd::string::StrSliceExecFns;

verus! {

/// `c` is white space: what `char::is_whitespace` returns for it. Nothing
/// more is taken as known of it; [`is_whitespace`] decides it.
pub uninterp spec fn is_space(c: char) -> bool;

/// Place `i` is marked in `breaks`. Places that `breaks` does not reach are
/// not marked.
pub open spec fn is_break(breaks: Seq<bool>, i: int) -> bool {
    0 <= i < breaks.len() && breaks[i]
}

/// The pieces into which the marked places cut `s`: its longest runs of
/// characters at unmarked places, in order.
pub open spec fn runs(s: Seq<char>, breaks: Seq<bool>) -> Seq<Seq<char>>
    decreases s.len(),
{
    if s.len() == 0 {
        Seq::empty()
    } else if is_break(breaks, s.len() - 1) {
        runs(s.drop_last(), breaks)
    } else if s.len() >= 2 && !is_break(breaks, s.len() - 2) {
        let before = runs(s.drop_last(), breaks);
        before.drop_last().push(before.last().push(s.last()))
    } else {
        runs(s.drop_last(), breaks).push(seq![s.last()])
    }
}

/// For each character of `s`, whether it is white space.
pub open spec fn space_marks(s: Seq<char>) -> Seq<bool> {
    Seq::new(s.len(), |i: int| is_space(s[i]))
}

/// The words of `s`: its longest runs of characters without white space, in
/// order.
pub open spec fn words(s: Seq<char>) -> Seq<Seq<char>> {
    runs(s, space_marks(s))
}

/// Calls `char::is_whitespace`. Trusted: the result depends on the character
/// alone, so that it can be named `is_space` of it.
#[verifier::external_body]
pub(crate) fn is_whitespace(c: char) -> (space: bool)
    ensures
        space == is_space(c),
{
    c.is_whitespace()
}

/// What holds while [`split_where`] has read the first `i` characters of
/// `s`: the pieces that are complete are in `done`, and the piece that is
/// being read, if any, began at `start`.
spec fn reading(
    s: Seq<char>,
    breaks: Seq<bool>,
    i: int,
    done: Seq<Seq<char>>,
    start: Option<usize>,
) -> bool {
    let found = runs(s.take(i), breaks);
    match start {
        None => done == found && (i == 0 || is_break(breaks, i - 1)),
        Some(a) => {
            &&& a < i
            &&& !is_break(breaks, i - 1)
            &&& found.len() > 0
            &&& done == found.drop_last()
            &&& found.last() == s.subrange(a as int, i)
        },
    }
}

/// Cuts `text` at the places marked in `breaks`: the pieces are its longest
/// runs of characters at unmarked places, in order.
pub fn split_where(text: &str, breaks: &Vec<bool>) -> (parts: Vec<String>)
    ensures
        parts.deep_view() == runs(text@, breaks@),
{
    let len: usize = text.unicode_len();
    let mut parts: Vec<String> = Vec::new();
    let mut start: Option<usize> = None;
    let mut i: usize = 0;
    assert(parts.deep_view() == runs(text@.take(0), breaks@));
    while i < len
        invariant
            len == text@.len(),
            i <= len,
            reading(text@, breaks@, i as int, parts.deep_view(), start),
        decreases len - i,
    {
        proof {
            let seen = text@.take(i + 1);
            assert(seen.drop_last() == text@.take(i as int));
        }
        let ghost done = parts.deep_view();
        if i < breaks.len() && breaks[i] {
            if let Some(a) = start {
                parts.push(text.substring_char(a, i).to_owned());
                assert(parts.deep_view() == done.push(text@.subrange(a as int, i as int)));
                assert(parts.deep_view() == runs(text@.take(i as int), breaks@));
                start = None;
            }
        } else {
            match start {
                None => {
                    assert(text@.subrange(i as int, i + 1) == seq![text@[i as int]]);
                    assert(runs(text@.take(i + 1), breaks@).drop_last() == done);
                    start = Some(i);
                },
                Some(a) => {
                    assert(text@.subrange(a as int, i + 1) == text@.subrange(
                        a as int,
                        i as int,
                    ).push(text@[i as int]));
                    assert(runs(text@.take(i + 1), breaks@).drop_last() == done);
                },
            }
        }
        i += 1;
    }
    assert(text@.take(len as int) == text@);
    if let Some(a) = start {
        let ghost done = parts.deep_view();
        parts.push(text.substring_char(a, len).to_owned());
        assert(parts.deep_view() == done.push(text@.subrange(a as int, len as int)));
    }
    parts
}

/// For each character of `text`, whether it is white space.
pub fn mark_spaces(text: &str) -> (marks: Vec<bool>)
    ensures
        marks@ == space_marks(text@),
{
    let mut marks: Vec<bool> = Vec::new();
    let mut rest = text.chars();
    loop
        invariant_except_break
            rest.remaining() == text@.skip(marks@.len() as int),
        invariant
            marks@.len() <= text@.len(),
            forall|j: int| 0 <= j < marks@.len() ==> marks@[j] == is_space(text@[j]),
        ensures
            marks@.len() == text@.len(),
        decreases text@.len() - marks@.len(),
    {
        match rest.next() {
            Some(c) => {
                marks.push(is_whitespace(c));
            },
            None => {
                break ;
            },
        }
    }
    marks
}

/// The words of `text`: its longest runs of characters without white
/// space, in order.
pub fn split_words(text: &str) -> (parts: Vec<String>)
    ensures
        parts.deep_view() == words(text@),
{
    let marks = mark_spaces(text);
    split_where(text, &marks)
}

/// `piece` is the stretch of `s` from `a` up to `b`, which is not empty
/// and has no marked place.
pub open spec fn is_stretch(
    s: Seq<char>,
    breaks: Seq<bool>,
    piece: Seq<char>,
    a: int,
    b: int,
) -> bool {
    &&& 0 <= a < b <= s.len()
    &&& piece == s.subrange(a, b)
    &&& forall|k: int| a <= k < b ==> !is_break(breaks, k)
}

/// `piece` is some stretch of `s` that is not empty and has no marked
/// place.
pub open spec fn is_unbroken(s: Seq<char>, breaks: Seq<bool>, piece: Seq<char>) -> bool {
    exists|a: int, b: int| is_stretch(s, breaks, piece, a, b)
}

/// Every piece is a stretch of `s` that is not empty and has no marked
/// place; where `s` ends at an unmarked place, the last piece ends there.
pub proof fn lemma_runs_are_stretches(s: Seq<char>, breaks: Seq<bool>)
    ensures
        forall|j: int|
            0 <= j < runs(s, breaks).len() ==> is_unbroken(s, breaks, #[trigger] runs(s, breaks)[j]),
        s.len() > 0 && !is_break(breaks, s.len() - 1) ==> runs(s, breaks).len() > 0 && exists|
            a: int,
        | is_stretch(s, breaks, runs(s, breaks).last(), a, s.len() as int),
    decreases s.len(),
{
    if s.len() > 0 {
        let n = s.len() as int;
        let front = s.drop_last();
        let before = runs(front, breaks);
        let pieces = runs(s, breaks);
        lemma_runs_are_stretches(front, breaks);
        assert forall|j: int| 0 <= j < before.len() implies is_unbroken(
            s,
            breaks,
            #[trigger] before[j],
        ) by {
            let (a, b) = choose|a: int, b: int| is_stretch(front, breaks, before[j], a, b);
            assert(front.subrange(a, b) == s.subrange(a, b));
            assert(is_stretch(s, breaks, before[j], a, b));
        }
        if !is_break(breaks, n - 1) {
            if n >= 2 && !is_break(breaks, n - 2) {
                let a = choose|a: int|
                    is_stretch(front, breaks, before.last(), a, front.len() as int);
                assert(front.subrange(a, n - 1).push(s.last()) == s.subrange(a, n));
                assert(is_stretch(s, breaks, pieces.last(), a, n));
            } else {
                assert(seq![s.last()] == s.subrange(n - 1, n));
                assert(is_stretch(s, breaks, pieces.last(), n - 1, n));
            }
        }
    }
}

/// No word is empty, and no word holds white space.
pub proof fn lemma_words_are_solid(s: Seq<char>)
    ensures
        forall|j: int|
            0 <= j < words(s).len() ==> (#[trigger] words(s)[j]).len() > 0 && forall|k: int|
                0 <= k < words(s)[j].len() ==> !is_space(#[trigger] words(s)[j][k]),
{
    let marks = space_marks(s);
    lemma_runs_are_stretches(s, marks);
    assert forall|j: int| 0 <= j < words(s).len() implies (#[trigger] words(s)[j]).len() > 0
        && forall|k: int| 0 <= k < words(s)[j].len() ==> !is_space(#[trigger] words(s)[j][k]) by {
        let (a, b) = choose|a: int, b: int| is_stretch(s, marks, words(s)[j], a, b);
        assert forall|k: int| 0 <= k < words(s)[j].len() implies !is_space(
            #[trigger] words(s)[j][k],
        ) by {
            assert(!is_break(marks, a + k));
        }
    }
}

} // verus!
