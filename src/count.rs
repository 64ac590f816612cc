//! Counting the occurrences of a value in a sequence.
use vstd::prelude::*;

verus! {

/// How many times `v` occurs in `s`.
pub open spec fn count_of<A>(s: Seq<A>, v: A) -> nat
    decreases s.len(),
{
    if s.len() == 0 {
        0
    } else {
        count_of(s.drop_last(), v) + if s.last() == v {
            1nat
        } else {
            0nat
        }
    }
}

/// Appending an element adds one occurrence exactly when it is `v`.
pub proof fn lemma_count_push<A>(s: Seq<A>, x: A, v: A)
    ensures
        count_of(s.push(x), v) == count_of(s, v) + if x == v {
            1nat
        } else {
            0nat
        },
{
    assert(s.push(x).drop_last() =~= s);
}

/// Replacing one element changes the count by what left and what came in.
pub proof fn lemma_count_update<A>(s: Seq<A>, i: int, x: A, v: A)
    requires
        0 <= i < s.len(),
    ensures
        count_of(s.update(i, x), v) + (if s[i] == v {
            1nat
        } else {
            0nat
        }) == count_of(s, v) + (if x == v {
            1nat
        } else {
            0nat
        }),
    decreases s.len(),
{
    if i == s.len() - 1 {
        assert(s.update(i, x).drop_last() =~= s.drop_last());
    } else {
        assert(s.update(i, x).drop_last() =~= s.drop_last().update(i, x));
        lemma_count_update(s.drop_last(), i, x, v);
    }
}

/// A value occurs at most as many times as there are elements, and as many
/// times exactly when every element is that value.
pub proof fn lemma_count_bounded<A>(s: Seq<A>, v: A)
    ensures
        count_of(s, v) <= s.len(),
        count_of(s, v) == s.len() <==> forall|i: int| 0 <= i < s.len() ==> s[i] == v,
    decreases s.len(),
{
    if s.len() > 0 {
        lemma_count_bounded(s.drop_last(), v);
        if count_of(s, v) == s.len() {
            assert forall|i: int| 0 <= i < s.len() implies s[i] == v by {
                if i < s.len() - 1 {
                    assert(s.drop_last()[i] == s[i]);
                }
            }
        }
        if forall|i: int| 0 <= i < s.len() ==> s[i] == v {
            assert forall|i: int| 0 <= i < s.drop_last().len() implies s.drop_last()[i] == v by {
                assert(s[i] == v);
            }
            assert(s.last() == v);
        }
    }
}

/// A value that no element equals does not occur.
pub proof fn lemma_count_absent<A>(s: Seq<A>, v: A)
    requires
        forall|i: int| 0 <= i < s.len() ==> s[i] != v,
    ensures
        count_of(s, v) == 0,
    decreases s.len(),
{
    if s.len() > 0 {
        assert(s.last() == s[s.len() - 1]);
        lemma_count_absent(s.drop_last(), v);
    }
}

} // verus!
