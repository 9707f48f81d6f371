//! Small facts about sequences that the reconciliation proofs lean on:
//! how `filter`, `insert` and `remove` interact.

use vstd::prelude::*;
use vstd::seq_lib::*;

verus! {

/// The predicate holding of everything but `x`.
pub open spec fn ne<A>(x: A) -> spec_fn(A) -> bool {
    |y: A| y != x
}

/// The predicate holding of the elements of `s`.
pub open spec fn in_seq<A>(s: Seq<A>) -> spec_fn(A) -> bool {
    |y: A| s.contains(y)
}

/// The predicate holding of everything `s` does not hold.
pub open spec fn not_in_seq<A>(s: Seq<A>) -> spec_fn(A) -> bool {
    |y: A| !s.contains(y)
}

/// No two positions of the sequence hold the same value.
pub open spec fn distinct_seq<A>(s: Seq<A>) -> bool {
    forall|k1: int, k2: int|
        #![trigger s[k1], s[k2]]
        0 <= k1 < k2 < s.len() ==> s[k1] != s[k2]
}

/// An element of a sequence is still there after an unrelated insertion.
pub proof fn lemma_insert_contains<A>(s: Seq<A>, pos: int, v: A, x: A)
    requires
        0 <= pos <= s.len(),
        s.contains(x),
    ensures
        s.insert(pos, v).contains(x),
{
    let j = choose|j: int| 0 <= j < s.len() && s[j] == x;
    s.insert_ensures(pos, v);
    if j < pos {
        assert(s.insert(pos, v)[j] == x);
    } else {
        assert(s.insert(pos, v)[j + 1] == x);
    }
}

/// Inserting a value that the sequence does not hold keeps it duplicate-free.
pub proof fn lemma_insert_distinct<A>(s: Seq<A>, pos: int, v: A)
    requires
        0 <= pos <= s.len(),
        distinct_seq(s),
        !s.contains(v),
    ensures
        distinct_seq(s.insert(pos, v)),
{
    s.insert_ensures(pos, v);
    let t = s.insert(pos, v);
    assert forall|k1: int, k2: int|
        #![trigger t[k1], t[k2]]
        0 <= k1 < k2 < t.len() implies t[k1] != t[k2] by {
        assert(forall|k: int| 0 <= k < s.len() ==> s[k] != v);
        if k1 < pos {
            assert(t[k1] == s[k1]);
        } else if k1 == pos {
            assert(t[k1] == v);
        } else {
            assert(t[k1] == s[k1 - 1]);
        }
        if k2 < pos {
            assert(t[k2] == s[k2]);
        } else if k2 == pos {
            assert(t[k2] == v);
        } else {
            assert(t[k2] == s[k2 - 1]);
        }
    }
}

/// A sequence every element of which satisfies the predicate filters to itself.
pub proof fn lemma_filter_all<A>(s: Seq<A>, p: spec_fn(A) -> bool)
    requires
        forall|k: int| 0 <= k < s.len() ==> p(#[trigger] s[k]),
    ensures
        s.filter(p) == s,
    decreases s.len(),
{
    reveal(Seq::filter);
    if s.len() > 0 {
        lemma_filter_all(s.drop_last(), p);
        assert(s.drop_last().push(s.last()) =~= s);
    }
}

/// A sequence no element of which satisfies the predicate filters to nothing.
pub proof fn lemma_filter_none<A>(s: Seq<A>, p: spec_fn(A) -> bool)
    requires
        forall|k: int| 0 <= k < s.len() ==> !p(#[trigger] s[k]),
    ensures
        s.filter(p) == Seq::<A>::empty(),
    decreases s.len(),
{
    reveal(Seq::filter);
    if s.len() > 0 {
        lemma_filter_none(s.drop_last(), p);
    }
}

/// Predicates that agree on every element of the sequence filter it alike.
pub proof fn lemma_filter_congruent<A>(s: Seq<A>, p: spec_fn(A) -> bool, q: spec_fn(A) -> bool)
    requires
        forall|k: int| 0 <= k < s.len() ==> p(#[trigger] s[k]) == q(s[k]),
    ensures
        s.filter(p) == s.filter(q),
    decreases s.len(),
{
    reveal(Seq::filter);
    if s.len() > 0 {
        lemma_filter_congruent(s.drop_last(), p, q);
    }
}

/// Removing the only occurrence of a value is the same as filtering it out.
pub proof fn lemma_remove_single_is_filter<A>(s: Seq<A>, i: int, x: A)
    requires
        0 <= i < s.len(),
        s[i] == x,
        forall|k: int| 0 <= k < s.len() && k != i ==> #[trigger] s[k] != x,
    ensures
        s.remove(i) == s.filter(ne(x)),
    decreases s.len(),
{
    reveal(Seq::filter);
    let p = ne(x);
    if i == s.len() - 1 {
        assert(s.drop_last() =~= s.remove(i));
        lemma_filter_all(s.drop_last(), p);
        assert(s.filter(p) == s.drop_last().filter(p));
    } else {
        let d = s.drop_last();
        lemma_remove_single_is_filter(d, i, x);
        assert(p(s.last()));
        assert(s.filter(p) == d.filter(p).push(s.last()));
        assert(s.remove(i) =~= d.remove(i).push(s.last()));
    }
}

/// Splitting a sequence at any point splits its filtered image too.
pub proof fn lemma_filter_split<A>(s: Seq<A>, p: spec_fn(A) -> bool, i: int)
    requires
        0 <= i <= s.len(),
    ensures
        s.filter(p) == s.subrange(0, i).filter(p) + s.subrange(i, s.len() as int).filter(p),
{
    assert(s =~= s.subrange(0, i) + s.subrange(i, s.len() as int));
    Seq::filter_distributes_over_add(s.subrange(0, i), s.subrange(i, s.len() as int), p);
}

/// The conjunction of two predicates.
pub open spec fn both<A>(p: spec_fn(A) -> bool, q: spec_fn(A) -> bool) -> spec_fn(A) -> bool {
    |y: A| p(y) && q(y)
}

/// Filtering twice is filtering by the conjunction.
pub proof fn lemma_filter_filter<A>(s: Seq<A>, p: spec_fn(A) -> bool, q: spec_fn(A) -> bool)
    ensures
        s.filter(p).filter(q) == s.filter(both(p, q)),
    decreases s.len(),
{
    reveal(Seq::filter);
    if s.len() > 0 {
        let d = s.drop_last();
        lemma_filter_filter(d, p, q);
        if p(s.last()) {
            assert(s.filter(p) == d.filter(p).push(s.last()));
            assert(d.filter(p).push(s.last()).drop_last() == d.filter(p));
            assert(d.filter(p).push(s.last()).last() == s.last());
        }
    }
}

/// An element of the filtered image is an element satisfying the predicate.
pub proof fn lemma_filter_members<A>(s: Seq<A>, p: spec_fn(A) -> bool, x: A)
    requires
        s.filter(p).contains(x),
    ensures
        s.contains(x),
        p(x),
    decreases s.len(),
{
    reveal(Seq::filter);
    let d = s.drop_last();
    if p(s.last()) && x == s.last() {
        assert(s[s.len() - 1] == x);
    } else {
        assert(d.filter(p).contains(x));
        lemma_filter_members(d, p, x);
        let j = choose|j: int| 0 <= j < d.len() && d[j] == x;
        assert(s[j] == x);
    }
}

} // verus!
