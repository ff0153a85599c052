//! Facts about first occurrences in character sequences, shared by the
//! status-line and request-line parsers.

use vstd::prelude::*;

verus! {

/// An element that occurs first at position `i` is where `index_of_first`
/// points.
pub proof fn lemma_index_of_first_at(s: Seq<char>, needle: char, i: int)
    requires
        0 <= i < s.len(),
        s[i] == needle,
        forall|j: int| 0 <= j < i ==> s[j] != needle,
    ensures
        s.index_of_first(needle) == Some(i),
{
    s.index_of_first_ensures(needle);
    assert(s.contains(needle)) by {
        assert(0 <= i < s.len() && s[i] == needle);
    }
    let i2 = s.index_of_first(needle)->Some_0;
    if i2 < i {
        assert(s[i2] != needle);
    }
    if i < i2 {
        assert(s[i] != needle);
    }
}

/// An element that occurs nowhere has no first occurrence.
pub proof fn lemma_index_of_first_none(s: Seq<char>, needle: char)
    requires
        forall|j: int| 0 <= j < s.len() ==> s[j] != needle,
    ensures
        s.index_of_first(needle) is None,
{
    s.index_of_first_ensures(needle);
    if s.index_of_first(needle) is Some {
        let i = s.index_of_first(needle)->Some_0;
        assert(s[i] != needle);
    }
}

} // verus!
