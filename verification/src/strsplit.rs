//! Splitting a string at each occurrence of a delimiter, piece by piece.

use vstd::prelude::*;
use vstd::string::*;
use crate::text::chars_of;

verus! {

/// Whether `pattern` stands in `text` at position `i`.
pub open spec fn occurs_at(text: Seq<char>, pattern: Seq<char>, i: int) -> bool {
    0 <= i && i + pattern.len() <= text.len() && text.subrange(i, i + pattern.len()) == pattern
}

/// The first position at or after `i` where `pattern` stands in `text`.
pub open spec fn find_from(text: Seq<char>, pattern: Seq<char>, i: int) -> Option<int>
    decreases text.len() - i + 1,
{
    if i < 0 || i + pattern.len() > text.len() {
        None
    } else if occurs_at(text, pattern, i) {
        Some(i)
    } else {
        find_from(text, pattern, i + 1)
    }
}

/// The first position where `pattern` stands in `text`.
pub open spec fn find(text: Seq<char>, pattern: Seq<char>) -> Option<int> {
    find_from(text, pattern, 0)
}

/// [`find_from`] gives the first occurrence at or after `i`, and `None` exactly
/// when there is none.
pub proof fn lemma_find_is_first(text: Seq<char>, pattern: Seq<char>, i: int)
    requires
        0 <= i,
    ensures
        match find_from(text, pattern, i) {
            Some(at) => i <= at && occurs_at(text, pattern, at) && forall|j: int|
                i <= j < at ==> !occurs_at(text, pattern, j),
            None => forall|j: int| i <= j ==> !occurs_at(text, pattern, j),
        },
    decreases text.len() - i + 1,
{
    if i + pattern.len() <= text.len() && !occurs_at(text, pattern, i) {
        lemma_find_is_first(text, pattern, i + 1);
    }
}

/// What a [`StrSplit`] is in contracts: the text still to split, and the
/// delimiter.
pub struct StrSplitView {
    pub remainder: Seq<char>,
    pub delimiter: Seq<char>,
}

/// Hands out the pieces of a string that lie between occurrences of a
/// delimiter, one per call of [`StrSplit::next`].
pub struct StrSplit<'a> {
    remainder: &'a str,
    delimiter: &'a str,
}

impl<'a> View for StrSplit<'a> {
    type V = StrSplitView;

    closed spec fn view(&self) -> StrSplitView {
        StrSplitView { remainder: self.remainder@, delimiter: self.delimiter@ }
    }
}

/// The next piece of `state`, if there is one, and the state after it. The piece
/// ends before the first delimiter, and what follows that delimiter remains.
/// Where no delimiter is left, all that remains is the last piece, unless
/// nothing remains.
pub open spec fn split_step(state: StrSplitView) -> (Option<Seq<char>>, StrSplitView) {
    match find(state.remainder, state.delimiter) {
        Some(at) => (
            Some(state.remainder.take(at)),
            StrSplitView {
                remainder: state.remainder.skip(at + state.delimiter.len()),
                delimiter: state.delimiter,
            },
        ),
        None => if state.remainder.len() == 0 {
            (None, state)
        } else {
            (
                Some(state.remainder),
                StrSplitView { remainder: Seq::empty(), delimiter: state.delimiter },
            )
        },
    }
}

/// What a piece is in contracts.
pub open spec fn piece_view(piece: Option<&str>) -> Option<Seq<char>> {
    match piece {
        Some(text) => Some(text@),
        None => None,
    }
}

/// Whether `pattern` stands in `text` at position `at`.
fn matches_at(text: &Vec<char>, pattern: &Vec<char>, at: usize) -> (yes: bool)
    requires
        at + pattern.len() <= text.len(),
    ensures
        yes == occurs_at(text@, pattern@, at as int),
{
    let m = pattern.len();
    let mut k: usize = 0;
    while k < m
        invariant
            k <= m,
            m == pattern.len(),
            at + m <= text.len(),
            text@.subrange(at as int, at + k) == pattern@.take(k as int),
        decreases m - k,
    {
        if text[at + k] != pattern[k] {
            assert(text@.subrange(at as int, at + m)[k as int] != pattern@[k as int]);
            return false;
        }
        assert(text@.subrange(at as int, at + k + 1) == text@.subrange(at as int, at + k).push(
            text@[at + k],
        ));
        assert(pattern@.take(k + 1) == pattern@.take(k as int).push(pattern@[k as int]));
        k += 1;
    }
    assert(pattern@.take(m as int) == pattern@);
    true
}

/// Computes [`find`].
fn find_in(text: &Vec<char>, pattern: &Vec<char>) -> (at: Option<usize>)
    ensures
        match at {
            Some(i) => find(text@, pattern@) == Some(i as int),
            None => find(text@, pattern@) is None,
        },
{
    let n = text.len();
    let m = pattern.len();
    if m > n {
        return None;
    }
    let last = n - m;
    let mut i: usize = 0;
    loop
        invariant
            i <= last,
            last == n - m,
            n == text.len(),
            m == pattern.len(),
            find_from(text@, pattern@, i as int) == find(text@, pattern@),
        decreases last - i,
    {
        if matches_at(text, pattern, i) {
            return Some(i);
        }
        if i == last {
            return None;
        }
        i += 1;
    }
}

impl<'a> StrSplit<'a> {
    /// A splitter of `haystack` at `delimiter`.
    pub fn new(haystack: &'a str, delimiter: &'a str) -> (split: Self)
        ensures
            split@ == (StrSplitView { remainder: haystack@, delimiter: delimiter@ }),
    {
        StrSplit { remainder: haystack, delimiter }
    }

    /// The next piece, or `None` when nothing remains.
    pub fn next(&mut self) -> (piece: Option<&'a str>)
        ensures
            (piece_view(piece), final(self)@) == split_step(old(self)@),
    {
        let text = chars_of(self.remainder);
        let pattern = chars_of(self.delimiter);
        let n = text.len();
        let m = pattern.len();
        match find_in(&text, &pattern) {
            Some(at) => {
                proof {
                    lemma_find_is_first(text@, pattern@, 0);
                    assert(find_from(text@, pattern@, 0) == Some(at as int));
                    assert(occurs_at(text@, pattern@, at as int));
                }
                let piece = self.remainder.substring_char(0, at);
                self.remainder = self.remainder.substring_char(at + m, n);
                Some(piece)
            },
            None => {
                if n == 0 {
                    None
                } else {
                    let rest = self.remainder;
                    self.remainder = "";
                    proof {
                        reveal_strlit("");
                    }
                    assert(self.remainder@ =~= Seq::<char>::empty());
                    Some(rest)
                }
            },
        }
    }
}

} // verus!
