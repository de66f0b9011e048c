//! Small facts about sequences used by the loops of the library.
use vstd::prelude::*;

verus! {

/// Extending a mapped-and-flattened prefix by one element.
pub proof fn lemma_flatten_step<A, B>(xs: Seq<A>, f: spec_fn(A) -> Seq<B>, i: int)
    requires
        0 <= i < xs.len(),
    ensures
        xs.take(i + 1).map_values(f).flatten() == xs.take(i).map_values(f).flatten() + f(xs[i]),
{
    assert(xs.take(i + 1).map_values(f) =~= xs.take(i).map_values(f).push(f(xs[i])));
    xs.take(i).map_values(f).lemma_flatten_push(f(xs[i]));
}

/// The empty prefix flattens to nothing.
pub proof fn lemma_flatten_empty<A, B>(xs: Seq<A>, f: spec_fn(A) -> Seq<B>)
    ensures
        xs.take(0).map_values(f).flatten() == Seq::<B>::empty(),
{
    assert(xs.take(0).map_values(f) =~= Seq::<Seq<B>>::empty());
}

/// A prefix flattens to no more elements than the whole.
pub proof fn lemma_flatten_prefix_len<A, B>(xs: Seq<A>, f: spec_fn(A) -> Seq<B>, k: int)
    requires
        0 <= k <= xs.len(),
    ensures
        xs.take(k).map_values(f).flatten().len() <= xs.map_values(f).flatten().len(),
    decreases xs.len() - k,
{
    if k < xs.len() {
        lemma_flatten_step(xs, f, k);
        lemma_flatten_prefix_len(xs, f, k + 1);
    } else {
        assert(xs.take(k) =~= xs);
    }
}

/// Index of the first element satisfying `p`, searching from `i`.
pub open spec fn first_index_from<A>(s: Seq<A>, p: spec_fn(A) -> bool, i: int) -> Option<int>
    decreases s.len() - i,
{
    if i < 0 || i >= s.len() {
        None
    } else if p(s[i]) {
        Some(i)
    } else {
        first_index_from(s, p, i + 1)
    }
}

/// Index of the first element satisfying `p` (`Iterator::position`).
pub open spec fn first_index<A>(s: Seq<A>, p: spec_fn(A) -> bool) -> Option<int> {
    first_index_from(s, p, 0)
}

pub proof fn lemma_first_index_from<A>(s: Seq<A>, p: spec_fn(A) -> bool, i: int)
    requires
        0 <= i,
    ensures
        first_index_from(s, p, i) matches Some(k) ==> i <= k < s.len() && p(s[k]) && forall|j: int|
            i <= j < k ==> !p(#[trigger] s[j]),
        first_index_from(s, p, i) is None ==> forall|j: int| i <= j < s.len() ==> !p(#[trigger] s[j]),
    decreases s.len() - i,
{
    if i < s.len() && !p(s[i]) {
        lemma_first_index_from(s, p, i + 1);
    }
}


/// The sum of `f` over the elements of `xs`.
pub open spec fn sum_of<A>(xs: Seq<A>, f: spec_fn(A) -> int) -> int
    decreases xs.len(),
{
    if xs.len() == 0 {
        0
    } else {
        sum_of(xs.drop_last(), f) + f(xs.last())
    }
}

/// With non-negative terms, the sum over a prefix is at most the whole sum.
pub proof fn lemma_sum_prefix_le<A>(xs: Seq<A>, f: spec_fn(A) -> int, i: int)
    requires
        0 <= i <= xs.len(),
        forall|k: int| 0 <= k < xs.len() ==> f(#[trigger] xs[k]) >= 0,
    ensures
        0 <= sum_of(xs.take(i), f) <= sum_of(xs, f),
    decreases xs.len(),
{
    if xs.len() == 0 {
        assert(xs.take(i) =~= xs);
    } else if i == xs.len() {
        assert(xs.take(i) =~= xs);
        lemma_sum_prefix_le(xs.drop_last(), f, i - 1);
        assert(xs.drop_last().take(i - 1) =~= xs.drop_last());
    } else {
        lemma_sum_prefix_le(xs.drop_last(), f, i);
        assert(xs.drop_last().take(i) =~= xs.take(i));
        lemma_sum_prefix_le(xs.drop_last(), f, xs.len() - 1);
        assert(xs.drop_last().take(xs.len() - 1) =~= xs.drop_last());
    }
}

/// One more term of a prefix sum.
pub proof fn lemma_sum_step<A>(xs: Seq<A>, f: spec_fn(A) -> int, i: int)
    requires
        0 <= i < xs.len(),
    ensures
        sum_of(xs.take(i + 1), f) == sum_of(xs.take(i), f) + f(xs[i]),
{
    assert(xs.take(i + 1).drop_last() =~= xs.take(i));
}

/// The index of the first maximal positive score (later equal scores do not
/// replace an earlier one).
pub open spec fn first_max_positive(scores: Seq<int>) -> Option<int>
    decreases scores.len(),
{
    if scores.len() == 0 {
        None
    } else {
        let p = first_max_positive(scores.drop_last());
        let i = scores.len() - 1;
        if scores[i] > 0 && (match p {
            None => true,
            Some(k) => scores[i] > scores[k],
        }) {
            Some(i)
        } else {
            p
        }
    }
}


/// Replacing an element by one that the predicate judges alike keeps the
/// first match.
pub proof fn lemma_first_index_update<A>(s: Seq<A>, j: int, x: A, p: spec_fn(A) -> bool)
    requires
        0 <= j < s.len(),
        p(x) == p(s[j]),
    ensures
        first_index(s.update(j, x), p) == first_index(s, p),
{
    lemma_first_index_update_from(s, j, x, p, 0);
}

proof fn lemma_first_index_update_from<A>(s: Seq<A>, j: int, x: A, p: spec_fn(A) -> bool, i: int)
    requires
        0 <= j < s.len(),
        0 <= i,
        p(x) == p(s[j]),
    ensures
        first_index_from(s.update(j, x), p, i) == first_index_from(s, p, i),
    decreases s.len() - i,
{
    if i < s.len() {
        assert(p(s.update(j, x)[i]) == p(s[i]));
        lemma_first_index_update_from(s, j, x, p, i + 1);
    }
}

/// The first match after a push: the old one, else the new element if it
/// matches.
pub proof fn lemma_first_index_push<A>(s: Seq<A>, x: A, p: spec_fn(A) -> bool)
    ensures
        first_index(s.push(x), p) == (match first_index(s, p) {
            Some(k) => Some(k),
            None => if p(x) {
                Some(s.len() as int)
            } else {
                None
            },
        }),
{
    lemma_first_index_push_from(s, x, p, 0);
}

proof fn lemma_first_index_push_from<A>(s: Seq<A>, x: A, p: spec_fn(A) -> bool, i: int)
    requires
        0 <= i <= s.len(),
    ensures
        first_index_from(s.push(x), p, i) == (match first_index_from(s, p, i) {
            Some(k) => Some(k),
            None => if p(x) {
                Some(s.len() as int)
            } else {
                None
            },
        }),
    decreases s.len() - i,
{
    if i < s.len() {
        assert(s.push(x)[i] == s[i]);
        lemma_first_index_push_from(s, x, p, i + 1);
    } else {
        assert(s.push(x)[i] == x);
        assert(first_index_from(s.push(x), p, i + 1) is None);
    }
}

} // verus!
