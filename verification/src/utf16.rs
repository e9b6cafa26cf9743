//! Lengths in UTF-16 code units, the unit in which columns are counted.

use vstd::prelude::*;

verus! {

/// The number of UTF-16 code units that encode `c`: two for a character
/// outside the Basic Multilingual Plane, one for any other.
pub open spec fn utf16_units(c: char) -> nat {
    if c as u32 >= 0x10000 {
        2
    } else {
        1
    }
}

/// The number of UTF-16 code units that encode `text`.
pub open spec fn utf16_len(text: Seq<char>) -> nat
    decreases text.len(),
{
    if text.len() == 0 {
        0
    } else {
        utf16_len(text.drop_last()) + utf16_units(text.last())
    }
}

/// The UTF-16 length of a text is the sum of the lengths of its two parts.
pub proof fn lemma_utf16_len_concat(a: Seq<char>, b: Seq<char>)
    ensures
        utf16_len(a + b) == utf16_len(a) + utf16_len(b),
    decreases b.len(),
{
    if b.len() == 0 {
        assert(a + b =~= a);
    } else {
        lemma_utf16_len_concat(a, b.drop_last());
        assert((a + b).drop_last() =~= a + b.drop_last());
        assert((a + b).last() == b.last());
    }
}

/// A stretch of a text is no longer, in UTF-16 code units, than the text,
/// and every character counts for at least one unit.
pub proof fn lemma_utf16_len_subrange(text: Seq<char>, from: int, to: int)
    requires
        0 <= from <= to <= text.len(),
    ensures
        to - from <= utf16_len(text.subrange(from, to)) <= utf16_len(text),
        text.len() <= utf16_len(text) <= 2 * text.len(),
    decreases text.len(),
{
    lemma_utf16_len_bounds(text);
    lemma_utf16_len_bounds(text.subrange(from, to));
    let head = text.subrange(0, from);
    let mid = text.subrange(from, to);
    let tail = text.subrange(to, text.len() as int);
    assert(text =~= head + mid + tail);
    lemma_utf16_len_concat(head + mid, tail);
    lemma_utf16_len_concat(head, mid);
}

/// Every character counts for one or two units.
pub proof fn lemma_utf16_len_bounds(text: Seq<char>)
    ensures
        text.len() <= utf16_len(text) <= 2 * text.len(),
    decreases text.len(),
{
    if text.len() > 0 {
        lemma_utf16_len_bounds(text.drop_last());
    }
}

/// The length of `text` in UTF-16 code units, or `None` where that length
/// does not fit in a `u32`.
pub fn checked_utf16_len(text: &str) -> (len: Option<u32>)
    ensures
        len is Some <==> utf16_len(text@) <= u32::MAX,
        len matches Some(n) ==> n == utf16_len(text@),
{
    let mut total: u32 = 0;
    let mut it = text.chars();
    for c in iter: it
        invariant
            iter.seq() == text@,
            total == utf16_len(text@.take(iter.index())),
    {
        let units: u32 = if c as u32 >= 0x10000 { 2 } else { 1 };
        proof {
            let k = iter.index();
            assert(text@.take(k + 1).drop_last() =~= text@.take(k));
            assert(text@.take(k + 1).last() == c);
            lemma_utf16_len_subrange(text@, 0, k + 1);
        }
        if total > u32::MAX - units {
            return None;
        }
        total = total + units;
    }
    proof {
        assert(text@.take(text@.len() as int) =~= text@);
    }
    Some(total)
}

/// The length of `text` in UTF-16 code units.
pub fn get_utf16_len(text: &str) -> (len: u32)
    requires
        utf16_len(text@) <= u32::MAX,
    ensures
        len == utf16_len(text@),
{
    match checked_utf16_len(text) {
        Some(len) => len,
        None => 0,
    }
}

} // verus!
