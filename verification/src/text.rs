//! Lengths as JavaScript measures them, and strings grown under a ceiling.
use vstd::prelude::*;

verus! {

/// How many UTF-16 code units `c` takes.
pub open spec fn char_units(c: char) -> nat {
    if (c as u32) >= 0x10000 {
        2
    } else {
        1
    }
}

/// The length JavaScript reports for a string: its UTF-16 code units.
pub open spec fn utf16_len(s: Seq<char>) -> nat
    decreases s.len(),
{
    if s.len() == 0 {
        0
    } else {
        utf16_len(s.drop_last()) + char_units(s.last())
    }
}

/// The UTF-16 length of `text`.
pub fn utf16_length(text: &str) -> (r: u128)
    ensures
        r == utf16_len(text@),
        r <= 2 * (usize::MAX as int),
{
    broadcast use vstd::string::group_string_axioms;
    let n = text.unicode_len();
    let mut units: u128 = 0;
    for c in it: text.chars()
        invariant
            it.seq() == text@,
            n == text@.len(),
            units == utf16_len(text@.take(it.index() as int)),
            units <= 2 * it.index(),
            it.index() <= n,
    {
        proof {
            assert(text@.take(it.index() + 1).drop_last() =~= text@.take(it.index() as int));
        }
        if (c as u32) >= 0x10000 {
            units = units + 2;
        } else {
            units = units + 1;
        }
    }
    proof {
        assert(text@.take(text@.len() as int) =~= text@);
    }
    units
}

/// A length in code units, capped at the largest the machine counts.
pub open spec fn capped(n: int) -> int {
    if n > usize::MAX {
        usize::MAX as int
    } else {
        n
    }
}

/// The code units of two strings together are those of each.
pub proof fn lemma_utf16_len_concat(a: Seq<char>, b: Seq<char>)
    ensures
        utf16_len(a + b) == utf16_len(a) + utf16_len(b),
    decreases b.len(),
{
    if b.len() > 0 {
        lemma_utf16_len_concat(a, b.drop_last());
        assert((a + b).drop_last() =~= a + b.drop_last());
        assert((a + b).last() == b.last());
    } else {
        assert(a + b =~= a);
    }
}

/// How many code units `held` and `addition` make together, counted up to the
/// largest the machine counts, or `None` where that passes `ceiling`.
pub open spec fn spec_units_within(held: usize, addition: Seq<char>, ceiling: usize) -> Option<
    usize,
> {
    let grown = capped(held + utf16_len(addition));
    if grown > ceiling {
        None
    } else {
        Some(grown as usize)
    }
}

/// How many code units `held` and `addition` make together, or `None` if the
/// two pass `ceiling`. Saturating, because the sum exists to be refused on and
/// a wrapped one would admit.
pub fn units_within(held: usize, addition: &str, ceiling: usize) -> (r: Option<usize>)
    ensures
        r == spec_units_within(held, addition@, ceiling),
{
    let n = utf16_length(addition);
    let sum: u128 = held as u128 + n;
    let grown: usize = if sum > usize::MAX as u128 {
        usize::MAX
    } else {
        sum as usize
    };
    if grown > ceiling {
        None
    } else {
        Some(grown)
    }
}

} // verus!
