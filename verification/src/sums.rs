//! Sums of integer-valued measures over sequences, with the handful of
//! lemmas the accounting proofs lean on.
use vstd::prelude::*;

verus! {

/// Sum of `f` over all elements of `s`.
pub open spec fn sum_by<A>(s: Seq<A>, f: spec_fn(A) -> int) -> int
    decreases s.len(),
{
    if s.len() == 0 {
        0
    } else {
        f(s[0]) + sum_by(s.skip(1), f)
    }
}

pub proof fn lemma_sum_by_nonneg<A>(s: Seq<A>, f: spec_fn(A) -> int)
    requires
        forall|i: int| 0 <= i < s.len() ==> #[trigger] f(s[i]) >= 0,
    ensures
        sum_by(s, f) >= 0,
    decreases s.len(),
{
    if s.len() > 0 {
        assert(forall|i: int| 0 <= i < s.skip(1).len() ==> #[trigger] f(s.skip(1)[i]) == f(s[i + 1]));
        lemma_sum_by_nonneg(s.skip(1), f);
    }
}

pub proof fn lemma_sum_by_push<A>(s: Seq<A>, f: spec_fn(A) -> int, x: A)
    ensures
        sum_by(s.push(x), f) == sum_by(s, f) + f(x),
    decreases s.len(),
{
    if s.len() == 0 {
        assert(s.push(x).skip(1) =~= Seq::<A>::empty());
        assert(sum_by(Seq::<A>::empty(), f) == 0);
        assert(s.push(x)[0] == x);
        assert(sum_by(s.push(x), f) == f(x) + sum_by(s.push(x).skip(1), f));
    } else {
        assert(s.push(x).skip(1) =~= s.skip(1).push(x));
        lemma_sum_by_push(s.skip(1), f, x);
        assert(s.push(x)[0] == s[0]);
        assert(sum_by(s.push(x), f) == f(s[0]) + sum_by(s.push(x).skip(1), f));
    }
}

pub proof fn lemma_sum_by_update<A>(s: Seq<A>, f: spec_fn(A) -> int, i: int, x: A)
    requires
        0 <= i < s.len(),
    ensures
        sum_by(s.update(i, x), f) == sum_by(s, f) - f(s[i]) + f(x),
    decreases s.len(),
{
    if i == 0 {
        assert(s.update(0, x).skip(1) =~= s.skip(1));
        assert(s.update(0, x)[0] == x);
    } else {
        assert(s.update(i, x).skip(1) =~= s.skip(1).update(i - 1, x));
        assert(s.update(i, x)[0] == s[0]);
        lemma_sum_by_update(s.skip(1), f, i - 1, x);
    }
}

pub proof fn lemma_sum_by_remove<A>(s: Seq<A>, f: spec_fn(A) -> int, i: int)
    requires
        0 <= i < s.len(),
    ensures
        sum_by(s.remove(i), f) == sum_by(s, f) - f(s[i]),
    decreases s.len(),
{
    if i == 0 {
        assert(s.remove(0) =~= s.skip(1));
    } else {
        assert(s.remove(i).skip(1) =~= s.skip(1).remove(i - 1));
        assert(s.remove(i)[0] == s[0]);
        lemma_sum_by_remove(s.skip(1), f, i - 1);
    }
}





} // verus!
