//! Searching a sequence for a delimiter, and splitting at it.

use vstd::prelude::*;

verus! {

/// The delimiter `d` stands in `s` at index `k`.
pub open spec fn occurs_at<A>(s: Seq<A>, d: Seq<A>, k: int) -> bool {
    0 <= k && k + d.len() <= s.len() && s.subrange(k, k + d.len()) == d
}

/// Index of the earliest occurrence of `d` in `s` at or after index `i`.
pub open spec fn find_from<A>(s: Seq<A>, d: Seq<A>, i: int) -> Option<int>
    decreases s.len() - i,
{
    if i < 0 || i + d.len() > s.len() {
        None
    } else if d.len() == 0 || s.subrange(i, i + d.len()) == d {
        Some(i)
    } else {
        find_from(s, d, i + 1)
    }
}

/// Index of the earliest occurrence of `d` in `s`.
pub open spec fn find<A>(s: Seq<A>, d: Seq<A>) -> Option<int> {
    find_from(s, d, 0)
}

/// The pieces of `s` between the occurrences of `d`, taken from the left.
/// A sequence without the delimiter is its own single piece.
pub open spec fn split<A>(s: Seq<A>, d: Seq<A>) -> Seq<Seq<A>>
    decreases s.len(),
{
    match find(s, d) {
        Some(k) => if d.len() > 0 && 0 <= k && k + d.len() <= s.len() {
            seq![s.take(k)] + split(s.skip(k + d.len()), d)
        } else {
            seq![s]
        },
        None => seq![s],
    }
}

/// What `find_from` returns is an occurrence, and the earliest from `i` on.
pub proof fn lemma_find_from<A>(s: Seq<A>, d: Seq<A>, i: int)
    requires
        0 <= i,
    ensures
        find_from(s, d, i) matches Some(k) ==> i <= k && occurs_at(s, d, k) && forall|j: int|
            i <= j < k ==> !occurs_at(s, d, j),
        find_from(s, d, i) is None ==> forall|j: int| i <= j ==> !occurs_at(s, d, j),
    decreases s.len() - i,
{
    if i + d.len() > s.len() {
    } else if d.len() == 0 {
        assert(s.subrange(i, i + d.len()) =~= d);
    } else if s.subrange(i, i + d.len()) == d {
    } else {
        lemma_find_from(s, d, i + 1);
    }
}

/// `find` returns the earliest occurrence, and `None` only where there is none.
pub proof fn lemma_find<A>(s: Seq<A>, d: Seq<A>)
    ensures
        find(s, d) matches Some(k) ==> occurs_at(s, d, k) && forall|j: int|
            0 <= j < k ==> !occurs_at(s, d, j),
        find(s, d) is None ==> forall|j: int| !occurs_at(s, d, j),
{
    lemma_find_from(s, d, 0);
}

/// An occurrence before which there is none is what `find` returns.
pub proof fn lemma_find_is<A>(s: Seq<A>, d: Seq<A>, k: int)
    requires
        occurs_at(s, d, k),
        forall|j: int| 0 <= j < k ==> !occurs_at(s, d, j),
    ensures
        find(s, d) == Some(k),
{
    lemma_find(s, d);
}

/// Where no occurrence exists, `find` returns `None`.
pub proof fn lemma_find_none<A>(s: Seq<A>, d: Seq<A>)
    requires
        forall|j: int| 0 <= j && j + d.len() <= s.len() ==> !occurs_at(s, d, j),
    ensures
        find(s, d) is None,
{
    lemma_find(s, d);
}

/// An occurrence stays where it is when more input follows.
pub proof fn lemma_occurs_extend<A>(s: Seq<A>, t: Seq<A>, d: Seq<A>, k: int)
    ensures
        occurs_at(s, d, k) ==> occurs_at(s + t, d, k),
        k + d.len() <= s.len() ==> (occurs_at(s + t, d, k) ==> occurs_at(s, d, k)),
{
    if 0 <= k && k + d.len() <= s.len() {
        assert((s + t).subrange(k, k + d.len()) =~= s.subrange(k, k + d.len()));
    }
}

/// The earliest occurrence found in a prefix is the earliest in the whole.
pub proof fn lemma_find_extend<A>(s: Seq<A>, t: Seq<A>, d: Seq<A>)
    requires
        find(s, d) is Some,
    ensures
        find(s + t, d) == find(s, d),
{
    lemma_find(s, d);
    let k = find(s, d)->0;
    lemma_occurs_extend(s, t, d, k);
    assert forall|j: int| 0 <= j < k implies !occurs_at(s + t, d, j) by {
        lemma_occurs_extend(s, t, d, j);
    }
    lemma_find_is(s + t, d, k);
}

} // verus!
