//! Small general lemmas about sequence filtering, shared by the registry
//! loops and the statistics pass.

use vstd::prelude::*;

verus! {

/// Extending a prefix by one element extends its filtered image by that
/// element exactly when the predicate holds of it.
pub proof fn lemma_filter_take_step<A>(s: Seq<A>, p: spec_fn(A) -> bool, i: int)
    requires
        0 <= i < s.len(),
    ensures
        p(s[i]) ==> s.take(i + 1).filter(p) == s.take(i).filter(p).push(s[i]),
        !p(s[i]) ==> s.take(i + 1).filter(p) == s.take(i).filter(p),
{
    let prefix = s.take(i);
    let one = seq![s[i]];
    assert(s.take(i + 1) =~= prefix + one);
    Seq::filter_distributes_over_add(prefix, one, p);
    reveal_with_fuel(Seq::filter, 2);
    assert(one.drop_last() =~= Seq::<A>::empty());
    if p(s[i]) {
        assert(one.filter(p) =~= seq![s[i]]);
        assert(prefix.filter(p) + one.filter(p) =~= prefix.filter(p).push(s[i]));
    } else {
        assert(one.filter(p) =~= Seq::<A>::empty());
        assert(prefix.filter(p) + one.filter(p) =~= prefix.filter(p));
    }
}

/// Predicates that agree on every element of a sequence filter it to the
/// same subsequence.
pub proof fn lemma_filter_congruence<A>(s: Seq<A>, p: spec_fn(A) -> bool, q: spec_fn(A) -> bool)
    requires
        forall|i: int| 0 <= i < s.len() ==> p(s[i]) == q(s[i]),
    ensures
        s.filter(p) == s.filter(q),
    decreases s.len(),
{
    reveal_with_fuel(Seq::filter, 2);
    if s.len() == 0 {
        assert(s.filter(p) =~= s.filter(q));
    } else {
        let rest = s.drop_last();
        assert(forall|i: int| 0 <= i < rest.len() ==> p(rest[i]) == q(rest[i]));
        lemma_filter_congruence(rest, p, q);
        assert(p(s.last()) == q(s.last()));
        if p(s.last()) {
            assert(s.filter(p) =~= rest.filter(p).push(s.last()));
            assert(s.filter(q) =~= rest.filter(q).push(s.last()));
        } else {
            assert(s.filter(p) =~= rest.filter(p));
            assert(s.filter(q) =~= rest.filter(q));
        }
    }
}

/// Filtering a sequence of pairwise-distinct elements keeps them pairwise
/// distinct.
pub proof fn lemma_filter_preserves_distinct<A>(s: Seq<A>, p: spec_fn(A) -> bool)
    requires
        forall|i: int, j: int| 0 <= i < j < s.len() ==> s[i] != s[j],
    ensures
        forall|i: int, j: int|
            0 <= i < j < s.filter(p).len() ==> s.filter(p)[i] != s.filter(p)[j],
    decreases s.len(),
{
    reveal_with_fuel(Seq::filter, 2);
    if s.len() == 0 {
    } else {
        let rest = s.drop_last();
        assert(forall|i: int, j: int| 0 <= i < j < rest.len() ==> rest[i] != rest[j]);
        lemma_filter_preserves_distinct(rest, p);
        if p(s.last()) {
            assert(s.filter(p) =~= rest.filter(p).push(s.last()));
            assert forall|i: int|
                0 <= i < rest.filter(p).len() implies rest.filter(p)[i] != s.last() by {
                assert(rest.filter(p).contains(rest.filter(p)[i]));
                rest.lemma_filter_contains_rev(p, rest.filter(p)[i]);
                let k = choose|k: int| 0 <= k < rest.len() && rest[k] == rest.filter(p)[i];
                assert(rest[k] != s.last());
            }
        } else {
            assert(s.filter(p) =~= rest.filter(p));
        }
    }
}

/// Sequence concatenation is associative.
pub proof fn lemma_add_assoc<A>(a: Seq<A>, b: Seq<A>, c: Seq<A>)
    ensures
        (a + b) + c == a + (b + c),
{
    assert((a + b) + c =~= a + (b + c));
}

/// A whole sequence is its own prefix of full length.
pub proof fn lemma_take_all<A>(s: Seq<A>)
    ensures
        s.take(s.len() as int) == s,
{
    assert(s.take(s.len() as int) =~= s);
}

} // verus!
