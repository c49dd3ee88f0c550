//! Byte-level text tests on listing lines.

use vstd::prelude::*;

verus! {

/// `needle` occurs in `hay` starting at position `i`.
pub open spec fn occurs_at(hay: Seq<u8>, needle: Seq<u8>, i: int) -> bool {
    0 <= i && i + needle.len() <= hay.len() && hay.subrange(i, i + needle.len()) == needle
}

/// `needle` occurs somewhere in `hay`.
pub open spec fn contains(hay: Seq<u8>, needle: Seq<u8>) -> bool {
    exists|i: int| occurs_at(hay, needle, i)
}

/// Space, tab, carriage return or line feed.
pub open spec fn is_space(b: u8) -> bool {
    b == 32u8 || b == 9u8 || b == 13u8 || b == 10u8
}

/// `word` occurs at `i` as a whole whitespace-delimited token.
pub open spec fn token_at(hay: Seq<u8>, word: Seq<u8>, i: int) -> bool {
    &&& occurs_at(hay, word, i)
    &&& (i == 0 || is_space(hay[i - 1]))
    &&& (i + word.len() == hay.len() || is_space(hay[i + word.len()]))
}

/// `word` occurs in `hay` as a whole whitespace-delimited token.
pub open spec fn has_token(hay: Seq<u8>, word: Seq<u8>) -> bool {
    exists|i: int| token_at(hay, word, i)
}

fn matches_at(hay: &[u8], needle: &[u8], i: usize) -> (r: bool)
    requires
        i + needle@.len() <= hay@.len(),
    ensures
        r == occurs_at(hay@, needle@, i as int),
{
    let n: usize = hay.len();
    let mut j: usize = 0;
    while j < needle.len()
        invariant
            i + needle@.len() <= hay@.len(),
            hay@.len() == n,
            j <= needle@.len(),
            forall|k: int| 0 <= k < j ==> hay@[i + k] == needle@[k],
        decreases needle@.len() - j,
    {
        if hay[i + j] != needle[j] {
            assert(hay@.subrange(i as int, i + needle@.len())[j as int] != needle@[j as int]);
            return false;
        }
        j = j + 1;
    }
    assert(hay@.subrange(i as int, i + needle@.len()) =~= needle@);
    true
}

/// Whether `needle` occurs in `hay`.
pub fn bytes_contain(hay: &[u8], needle: &[u8]) -> (r: bool)
    ensures
        r == contains(hay@, needle@),
{
    if needle.len() > hay.len() {
        return false;
    }
    let last: usize = hay.len() - needle.len();
    let mut i: usize = 0;
    loop
        invariant
            last + needle@.len() == hay@.len(),
            i <= last,
            forall|k: int| 0 <= k < i ==> !occurs_at(hay@, needle@, k),
        decreases last - i,
    {
        if matches_at(hay, needle, i) {
            return true;
        }
        if i == last {
            return false;
        }
        i = i + 1;
    }
}

fn space_byte(b: u8) -> (r: bool)
    ensures
        r == is_space(b),
{
    b == 32u8 || b == 9u8 || b == 13u8 || b == 10u8
}

/// Whether `word` occurs in `hay` as a whole whitespace-delimited token.
pub fn bytes_have_token(hay: &[u8], word: &[u8]) -> (r: bool)
    ensures
        r == has_token(hay@, word@),
{
    if word.len() > hay.len() {
        return false;
    }
    let last: usize = hay.len() - word.len();
    let mut i: usize = 0;
    loop
        invariant
            last + word@.len() == hay@.len(),
            i <= last,
            forall|k: int| 0 <= k < i ==> !token_at(hay@, word@, k),
        decreases last - i,
    {
        if matches_at(hay, word, i) && (i == 0 || space_byte(hay[i - 1])) && (i + word.len()
            == hay.len() || space_byte(hay[i + word.len()])) {
            assert(token_at(hay@, word@, i as int));
            return true;
        }
        if i == last {
            return false;
        }
        i = i + 1;
    }
}

} // verus!
