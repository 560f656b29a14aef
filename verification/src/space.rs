//! Whitespace: the characters the grammar may skip between tokens, and what
//! remains of a character sequence after skipping them.

use vstd::prelude::*;

verus! {

/// A whitespace character the grammar may skip: space or newline.
pub open spec fn space_char(c: char) -> bool {
    c == ' ' || c == '\n'
}

/// What remains of `s` after the leading whitespace.
pub open spec fn spec_strip_space(s: Seq<char>) -> Seq<char>
    decreases s.len(),
{
    if s.len() > 0 && space_char(s[0]) {
        spec_strip_space(s.skip(1))
    } else {
        s
    }
}

pub broadcast proof fn lemma_strip_space_le(s: Seq<char>)
    ensures
        (#[trigger] spec_strip_space(s)).len() <= s.len(),
    decreases s.len(),
{
    if s.len() > 0 && space_char(s[0]) {
        lemma_strip_space_le(s.skip(1));
    }
}

pub proof fn lemma_strip_space_is(s: Seq<char>, n: int)
    requires
        0 <= n <= s.len(),
        forall|i: int| 0 <= i < n ==> space_char(s[i]),
        n < s.len() ==> !space_char(s[n]),
    ensures
        spec_strip_space(s) == s.skip(n),
    decreases n,
{
    if n == 0 {
        assert(s.skip(0) =~= s);
    } else {
        lemma_strip_space_is(s.skip(1), n - 1);
        assert(s.skip(1).skip(n - 1) =~= s.skip(n));
    }
}

} // verus!
