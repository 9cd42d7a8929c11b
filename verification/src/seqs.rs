//! Small conversions between exec index sequences and mathematical ones.

use vstd::prelude::*;

verus! {

/// Indices as mathematical integers.
pub open spec fn as_ints(s: Seq<usize>) -> Seq<int> {
    s.map_values(|x: usize| x as int)
}

/// The element at an exec index.
pub open spec fn at<T>(s: Seq<T>, i: usize) -> T {
    s[i as int]
}

/// An exec index as a mathematical one.
pub open spec fn ix(i: usize) -> int {
    i as int
}

pub proof fn lemma_as_ints_index(s: Seq<usize>)
    ensures
        as_ints(s).len() == s.len(),
        forall|k: int| #![trigger as_ints(s)[k]] #![trigger s[k]] 0 <= k < s.len() ==> as_ints(s)[k] == s[k],
{
}

pub proof fn lemma_as_ints_insert(s: Seq<usize>, j: usize, x: usize)
    requires
        j <= s.len(),
    ensures
        as_ints(s.insert(j as int, x)) =~= as_ints(s).insert(j as int, x as int),
{
}

} // verus!
