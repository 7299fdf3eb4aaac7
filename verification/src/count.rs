//! Counting the elements of a sequence that satisfy a predicate.
use vstd::prelude::*;

verus! {

/// The number of elements that satisfy a predicate.
pub open spec fn count_where<A>(s: Seq<A>, p: spec_fn(A) -> bool) -> nat
    decreases s.len(),
{
    if s.len() == 0 {
        0
    } else {
        count_where(s.drop_last(), p) + if p(s.last()) {
            1nat
        } else {
            0nat
        }
    }
}

/// One if the predicate holds, zero otherwise.
pub open spec fn unit(b: bool) -> int {
    if b {
        1
    } else {
        0
    }
}

/// A count is at most the number of elements, and is zero exactly when no
/// element satisfies the predicate.
pub proof fn lemma_count_bounds<A>(s: Seq<A>, p: spec_fn(A) -> bool)
    ensures
        count_where(s, p) <= s.len(),
        count_where(s, p) == 0 <==> forall|i: int| 0 <= i < s.len() ==> !p(#[trigger] s[i]),
        count_where(s, p) == s.len() <==> forall|i: int| 0 <= i < s.len() ==> p(#[trigger] s[i]),
    decreases s.len(),
{
    if s.len() > 0 {
        let front = s.drop_last();
        lemma_count_bounds(front, p);
        assert(s.last() == s[s.len() - 1]);
        assert forall|i: int| 0 <= i < front.len() implies front[i] == s[i] by {}
        if count_where(s, p) == 0 {
            assert forall|i: int| 0 <= i < s.len() implies !p(#[trigger] s[i]) by {
                if i < front.len() {
                    assert(!p(front[i]));
                }
            }
        }
        if forall|i: int| 0 <= i < s.len() ==> !p(#[trigger] s[i]) {
            assert forall|i: int| 0 <= i < front.len() implies !p(#[trigger] front[i]) by {
                assert(!p(s[i]));
            }
        }
        if count_where(s, p) == s.len() {
            assert forall|i: int| 0 <= i < s.len() implies p(#[trigger] s[i]) by {
                if i < front.len() {
                    assert(p(front[i]));
                }
            }
        }
        if forall|i: int| 0 <= i < s.len() ==> p(#[trigger] s[i]) {
            assert forall|i: int| 0 <= i < front.len() implies p(#[trigger] front[i]) by {
                assert(p(s[i]));
            }
        }
    }
}

/// Replacing one element changes a count by that element alone.
pub proof fn lemma_count_update<A>(s: Seq<A>, i: int, value: A, p: spec_fn(A) -> bool)
    requires
        0 <= i < s.len(),
    ensures
        count_where(s.update(i, value), p) == count_where(s, p) - unit(p(s[i])) + unit(p(value)),
    decreases s.len(),
{
    let front = s.drop_last();
    if i == s.len() - 1 {
        assert(s.update(i, value).drop_last() =~= front);
    } else {
        assert(s.update(i, value).drop_last() =~= front.update(i, value));
        lemma_count_update(front, i, value, p);
    }
}

/// Adding one element changes a count by that element alone.
pub proof fn lemma_count_push<A>(s: Seq<A>, value: A, p: spec_fn(A) -> bool)
    ensures
        count_where(s.push(value), p) == count_where(s, p) + unit(p(value)),
{
    assert(s.push(value).drop_last() =~= s);
}

/// Predicates that agree on every element count the same.
pub proof fn lemma_count_agree<A>(s: Seq<A>, p: spec_fn(A) -> bool, q: spec_fn(A) -> bool)
    requires
        forall|i: int| 0 <= i < s.len() ==> p(#[trigger] s[i]) == q(s[i]),
    ensures
        count_where(s, p) == count_where(s, q),
    decreases s.len(),
{
    if s.len() > 0 {
        let front = s.drop_last();
        assert forall|i: int| 0 <= i < front.len() implies p(#[trigger] front[i]) == q(
            front[i],
        ) by {
            assert(p(s[i]) == q(s[i]));
        }
        lemma_count_agree(front, p, q);
        assert(p(s[s.len() - 1]) == q(s[s.len() - 1]));
    }
}

} // verus!
