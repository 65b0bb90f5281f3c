//! Searching in texts: whether one text occurs in another, and the words of
//! a text.

use vstd::prelude::*;
use crate::text::{is_whitespace, to_chars, whitespace};

verus! {

/// Whether `needle` stands in `hay` at `i`.
pub open spec fn occurs_at(hay: Seq<char>, needle: Seq<char>, i: int) -> bool {
    &&& 0 <= i
    &&& i + needle.len() <= hay.len()
    &&& hay.subrange(i, i + needle.len()) == needle
}

/// Whether `needle` occurs in `hay`.
pub open spec fn occurs_in(hay: Seq<char>, needle: Seq<char>) -> bool {
    exists|i: int| occurs_at(hay, needle, i)
}

/// Whether the characters of `text` from `from` up to `to` are a word: a run
/// of characters other than white space that cannot be made longer.
pub open spec fn is_word(text: Seq<char>, from: int, to: int) -> bool {
    &&& 0 <= from < to <= text.len()
    &&& forall|i: int| from <= i < to ==> !is_whitespace(#[trigger] text[i])
    &&& (from == 0 || is_whitespace(text[from - 1]))
    &&& (to == text.len() || is_whitespace(text[to]))
}

/// Whether `needle` stands in `hay` at `at`.
pub fn found_at(hay: &Vec<char>, needle: &Vec<char>, at: usize) -> (found: bool)
    requires
        at + needle.len() <= hay.len(),
    ensures
        found == occurs_at(hay@, needle@, at as int),
{
    let mut k: usize = 0;
    while k < needle.len()
        invariant
            k <= needle.len(),
            at + needle.len() <= hay.len(),
            forall|j: int| 0 <= j < k ==> hay@[at + j] == needle@[j],
        decreases needle.len() - k,
    {
        if hay[at + k] != needle[k] {
            assert(hay@.subrange(at as int, at + needle.len())[k as int] != needle@[k as int]);
            return false;
        }
        k += 1;
    }
    assert(hay@.subrange(at as int, at + needle.len()) =~= needle@);
    true
}

/// Whether `needle` occurs in `hay`.
pub fn contains(hay: &Vec<char>, needle: &Vec<char>) -> (found: bool)
    ensures
        found == occurs_in(hay@, needle@),
{
    if needle.len() > hay.len() {
        return false;
    }
    let last = hay.len() - needle.len();
    let mut at: usize = 0;
    while at < last
        invariant
            at <= last,
            last == hay.len() - needle.len(),
            needle.len() <= hay.len(),
            forall|i: int| 0 <= i < at ==> !occurs_at(hay@, needle@, i),
        decreases last - at,
    {
        if found_at(hay, needle, at) {
            return true;
        }
        at += 1;
    }
    found_at(hay, needle, last)
}

/// Whether `needle` occurs in `hay`.
pub fn str_contains(hay: &str, needle: &str) -> (found: bool)
    ensures
        found == occurs_in(hay@, needle@),
{
    let h = to_chars(hay);
    let n = to_chars(needle);
    contains(&h, &n)
}

/// The offset behind the run of characters other than white space that
/// starts at `from`.
pub fn word_end(text: &Vec<char>, from: usize) -> (to: usize)
    requires
        from < text.len(),
        !is_whitespace(text@[from as int]),
    ensures
        from < to <= text.len(),
        forall|i: int| from <= i < to ==> !is_whitespace(#[trigger] text@[i]),
        to == text.len() || is_whitespace(text@[to as int]),
{
    let mut to: usize = from + 1;
    while to < text.len() && !whitespace(text[to])
        invariant
            from < to <= text.len(),
            forall|i: int| from <= i < to ==> !is_whitespace(#[trigger] text@[i]),
        decreases text.len() - to,
    {
        to += 1;
    }
    to
}

} // verus!
