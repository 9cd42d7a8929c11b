//! Lexicographic order on integer keys, the order every list sort here uses.

use vstd::prelude::*;
use core::cmp::Ordering;

verus! {

/// Lexicographic comparison; a proper prefix comes first.
pub open spec fn lex(a: Seq<int>, b: Seq<int>) -> Ordering
    decreases a.len(),
{
    if a.len() == 0 && b.len() == 0 {
        Ordering::Equal
    } else if a.len() == 0 {
        Ordering::Less
    } else if b.len() == 0 {
        Ordering::Greater
    } else if a[0] < b[0] {
        Ordering::Less
    } else if a[0] > b[0] {
        Ordering::Greater
    } else {
        lex(a.drop_first(), b.drop_first())
    }
}

pub proof fn lemma_lex_equal(a: Seq<int>, b: Seq<int>)
    ensures
        lex(a, b) == Ordering::Equal <==> a =~= b,
    decreases a.len(),
{
    if a.len() > 0 && b.len() > 0 && a[0] == b[0] {
        lemma_lex_equal(a.drop_first(), b.drop_first());
        if a.drop_first() =~= b.drop_first() {
            assert(a =~= seq![a[0]] + a.drop_first());
            assert(b =~= seq![b[0]] + b.drop_first());
        }
        if a =~= b {
            assert(a.drop_first() =~= b.drop_first());
        }
    }
}

pub proof fn lemma_lex_flip(a: Seq<int>, b: Seq<int>)
    ensures
        lex(a, b) == Ordering::Less <==> lex(b, a) == Ordering::Greater,
        lex(a, b) == Ordering::Equal <==> lex(b, a) == Ordering::Equal,
    decreases a.len(),
{
    if a.len() > 0 && b.len() > 0 && a[0] == b[0] {
        lemma_lex_flip(a.drop_first(), b.drop_first());
    }
}

pub proof fn lemma_lex_trans(a: Seq<int>, b: Seq<int>, c: Seq<int>)
    requires
        lex(a, b) == Ordering::Less,
        lex(b, c) == Ordering::Less,
    ensures
        lex(a, c) == Ordering::Less,
    decreases a.len(),
{
    if a.len() > 0 && b.len() > 0 && c.len() > 0 && a[0] == b[0] && b[0] == c[0] {
        lemma_lex_trans(a.drop_first(), b.drop_first(), c.drop_first());
    }
}

/// Comparing concatenations whose first parts have equal lengths compares
/// the first parts, then the second parts.
pub proof fn lemma_lex_concat(a1: Seq<int>, a2: Seq<int>, b1: Seq<int>, b2: Seq<int>)
    requires
        a1.len() == b1.len(),
    ensures
        lex(a1 + a2, b1 + b2) == (if lex(a1, b1) != Ordering::Equal { lex(a1, b1) } else { lex(a2, b2) }),
    decreases a1.len(),
{
    if a1.len() > 0 {
        assert((a1 + a2).drop_first() =~= a1.drop_first() + a2);
        assert((b1 + b2).drop_first() =~= b1.drop_first() + b2);
        assert((a1 + a2)[0] == a1[0]);
        assert((b1 + b2)[0] == b1[0]);
        lemma_lex_concat(a1.drop_first(), a2, b1.drop_first(), b2);
    } else {
        assert(a1 + a2 =~= a2);
        assert(b1 + b2 =~= b2);
    }
}

/// Comparing one-element sequences compares the elements.
pub proof fn lemma_lex_single(x: int, y: int)
    ensures
        lex(seq![x], seq![y]) == (if x < y { Ordering::Less } else if x > y { Ordering::Greater } else { Ordering::Equal }),
{
    reveal_with_fuel(lex, 2);
    assert(seq![x].drop_first() =~= Seq::<int>::empty());
    assert(seq![y].drop_first() =~= Seq::<int>::empty());
}

/// `p` sorts strictly before `q`: smaller key, or the same key and an
/// earlier original position (a stable sort).
pub open spec fn before(keys: Seq<Seq<int>>, p: int, q: int) -> bool {
    lex(keys[p], keys[q]) == Ordering::Less || (lex(keys[p], keys[q]) == Ordering::Equal && p < q)
}

/// `perm` lists every position `0..n` once, in stable key order.
pub open spec fn stable_order(keys: Seq<Seq<int>>, perm: Seq<int>) -> bool {
    &&& perm.len() == keys.len()
    &&& forall|a: int| 0 <= a < perm.len() ==> 0 <= #[trigger] perm[a] < keys.len()
    &&& forall|a: int, b: int| 0 <= a < b < perm.len() ==> before(keys, #[trigger] perm[a], #[trigger] perm[b])
}

/// `out` is `input` stably sorted by `keys` (`keys[i]` the key of `input[i]`).
pub open spec fn stably_sorted<T>(input: Seq<T>, keys: Seq<Seq<int>>, out: Seq<T>) -> bool {
    &&& keys.len() == input.len()
    &&& exists|perm: Seq<int>| {
        &&& stable_order(keys, perm)
        &&& out.len() == perm.len()
        &&& forall|a: int| 0 <= a < out.len() ==> out[a] == input[#[trigger] perm[a]]
    }
}

pub proof fn lemma_before_trans(keys: Seq<Seq<int>>, p: int, q: int, r: int)
    requires
        before(keys, p, q),
        before(keys, q, r),
    ensures
        before(keys, p, r),
{
    lemma_lex_equal(keys[p], keys[q]);
    lemma_lex_equal(keys[q], keys[r]);
    if lex(keys[p], keys[q]) == Ordering::Less && lex(keys[q], keys[r]) == Ordering::Less {
        lemma_lex_trans(keys[p], keys[q], keys[r]);
    }
}

/// Inserting position `i` (larger than all positions so far) after every
/// position whose key is not greater, and before those whose key is greater,
/// keeps a stable order.
pub proof fn lemma_insert_in_order(keys: Seq<Seq<int>>, perm: Seq<int>, i: int, j: int)
    requires
        perm.len() == i,
        0 <= i < keys.len(),
        forall|a: int| 0 <= a < perm.len() ==> 0 <= #[trigger] perm[a] < i,
        forall|a: int, b: int| 0 <= a < b < perm.len() ==> before(keys, #[trigger] perm[a], #[trigger] perm[b]),
        0 <= j <= i,
        j == 0 || lex(keys[i], keys[perm[j - 1]]) != Ordering::Less,
        forall|b: int| j <= b < i ==> lex(keys[i], keys[#[trigger] perm[b]]) == Ordering::Less,
    ensures
        forall|a: int| 0 <= a < perm.insert(j, i).len() ==> 0 <= #[trigger] perm.insert(j, i)[a] < i + 1,
        forall|a: int, b: int| 0 <= a < b < perm.insert(j, i).len() ==> before(keys, #[trigger] perm.insert(j, i)[a], #[trigger] perm.insert(j, i)[b]),
{
    let p2 = perm.insert(j, i);
    if j > 0 {
        lemma_lex_flip(keys[i], keys[perm[j - 1]]);
    }
    assert forall|a: int, b: int| 0 <= a < b < p2.len() implies before(keys, #[trigger] p2[a], #[trigger] p2[b]) by {
        if b < j {
            assert(p2[a] == perm[a] && p2[b] == perm[b]);
        } else if b == j {
            assert(p2[a] == perm[a]);
            assert(before(keys, perm[j - 1], i));
            if a < j - 1 {
                lemma_before_trans(keys, perm[a], perm[j - 1], i);
            }
        } else if a == j {
            assert(p2[b] == perm[b - 1]);
            assert(lex(keys[i], keys[perm[b - 1]]) == Ordering::Less);
        } else if a < j {
            assert(p2[a] == perm[a] && p2[b] == perm[b - 1]);
        } else {
            assert(p2[a] == perm[a - 1] && p2[b] == perm[b - 1]);
        }
    }
}

pub proof fn lemma_before_irreflexive(keys: Seq<Seq<int>>, p: int)
    ensures
        !before(keys, p, p),
{
    lemma_lex_equal(keys[p], keys[p]);
}

pub proof fn lemma_before_total(keys: Seq<Seq<int>>, p: int, q: int)
    requires
        p != q,
    ensures
        before(keys, p, q) || before(keys, q, p),
{
    lemma_lex_flip(keys[p], keys[q]);
}

} // verus!
