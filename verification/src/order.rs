//! Lexicographic order of strings (what `Ord for String` compares: UTF-8
//! bytes, which orders the same as code points) and sorted, duplicate-free
//! lists of strings (`sort` followed by `dedup`).
use vstd::prelude::*;

verus! {

/// `a < b` in lexicographic code-point order (`char` compares by code point).
pub open spec fn str_lt(a: Seq<char>, b: Seq<char>) -> bool
    decreases a.len(),
{
    if a.len() == 0 {
        b.len() > 0
    } else if b.len() == 0 {
        false
    } else if a[0] != b[0] {
        a[0] < b[0]
    } else {
        str_lt(a.drop_first(), b.drop_first())
    }
}

pub proof fn lemma_str_lt_irrefl(a: Seq<char>)
    ensures
        !str_lt(a, a),
    decreases a.len(),
{
    if a.len() > 0 {
        lemma_str_lt_irrefl(a.drop_first());
    }
}

pub proof fn lemma_str_lt_asym(a: Seq<char>, b: Seq<char>)
    ensures
        !(str_lt(a, b) && str_lt(b, a)),
    decreases a.len(),
{
    if a.len() > 0 && b.len() > 0 && a[0] == b[0] {
        lemma_str_lt_asym(a.drop_first(), b.drop_first());
    }
}

pub proof fn lemma_str_lt_trans(a: Seq<char>, b: Seq<char>, c: Seq<char>)
    requires
        str_lt(a, b),
        str_lt(b, c),
    ensures
        str_lt(a, c),
    decreases a.len(),
{
    if a.len() > 0 && b.len() > 0 && c.len() > 0 && a[0] == b[0] && b[0] == c[0] {
        lemma_str_lt_trans(a.drop_first(), b.drop_first(), c.drop_first());
    }
}

pub proof fn lemma_str_lt_total(a: Seq<char>, b: Seq<char>)
    ensures
        a == b || str_lt(a, b) || str_lt(b, a),
    decreases a.len(),
{
    if a.len() > 0 && b.len() > 0 {
        if a[0] == b[0] {
            lemma_str_lt_total(a.drop_first(), b.drop_first());
            if a.drop_first() == b.drop_first() {
                assert(a =~= seq![a[0]] + a.drop_first());
                assert(b =~= seq![b[0]] + b.drop_first());
            }
        }
    } else if a.len() == 0 && b.len() == 0 {
        assert(a =~= b);
    }
}

/// Strictly increasing: sorted and free of duplicates.
pub open spec fn strictly_sorted(s: Seq<Seq<char>>) -> bool {
    forall|i: int, j: int| 0 <= i < j < s.len() ==> str_lt(s[i], s[j])
}

/// The sorted, duplicate-free list of the strings of `s`
/// (`Vec::sort` followed by `Vec::dedup`).
pub open spec fn sort_dedup(s: Seq<Seq<char>>) -> Seq<Seq<char>> {
    choose|r: Seq<Seq<char>>| strictly_sorted(r) && r.to_set() == s.to_set()
}

proof fn lemma_strict_first_min(r: Seq<Seq<char>>, x: Seq<char>)
    requires
        strictly_sorted(r),
        r.len() > 0,
        r.contains(x),
        x != r[0],
    ensures
        str_lt(r[0], x),
{
    let k = choose|k: int| 0 <= k < r.len() && r[k] == x;
    assert(k != 0);
}

/// Two strictly sorted lists with the same elements are equal.
pub proof fn lemma_strictly_sorted_unique(r1: Seq<Seq<char>>, r2: Seq<Seq<char>>)
    requires
        strictly_sorted(r1),
        strictly_sorted(r2),
        r1.to_set() == r2.to_set(),
    ensures
        r1 == r2,
    decreases r1.len(),
{
    if r1.len() == 0 {
        if r2.len() > 0 {
            assert(r2.to_set().contains(r2[0]));
            assert(!r1.to_set().contains(r2[0]));
        }
        assert(r1 =~= r2);
    } else {
        assert(r1.to_set().contains(r1[0]));
        assert(r2.to_set().contains(r1[0]));
        assert(r2.len() > 0);
        assert(r1.to_set().contains(r2[0]));
        if r1[0] != r2[0] {
            lemma_strict_first_min(r1, r2[0]);
            lemma_strict_first_min(r2, r1[0]);
            lemma_str_lt_asym(r1[0], r2[0]);
        }
        let t1 = r1.drop_first();
        let t2 = r2.drop_first();
        assert forall|x: Seq<char>| t1.to_set().contains(x) implies t2.to_set().contains(x) by {
            let k = choose|k: int| 0 <= k < t1.len() && t1[k] == x;
            assert(r1[k + 1] == x);
            assert(str_lt(r1[0], x));
            lemma_str_lt_irrefl(x);
            assert(r2.to_set().contains(x));
            let m = choose|m: int| 0 <= m < r2.len() && r2[m] == x;
            assert(m != 0);
            assert(t2[m - 1] == x);
        }
        assert forall|x: Seq<char>| t2.to_set().contains(x) implies t1.to_set().contains(x) by {
            let k = choose|k: int| 0 <= k < t2.len() && t2[k] == x;
            assert(r2[k + 1] == x);
            assert(str_lt(r2[0], x));
            lemma_str_lt_irrefl(x);
            assert(r1.to_set().contains(x));
            let m = choose|m: int| 0 <= m < r1.len() && r1[m] == x;
            assert(m != 0);
            assert(t1[m - 1] == x);
        }
        assert(t1.to_set() =~= t2.to_set());
        lemma_strictly_sorted_unique(t1, t2);
        assert(r1 =~= seq![r1[0]] + t1);
        assert(r2 =~= seq![r2[0]] + t2);
    }
}

/// A strictly sorted list with the elements of `s` is `sort_dedup(s)`.
pub proof fn lemma_sort_dedup_is(r: Seq<Seq<char>>, s: Seq<Seq<char>>)
    requires
        strictly_sorted(r),
        r.to_set() == s.to_set(),
    ensures
        sort_dedup(s) == r,
{
    let c = sort_dedup(s);
    assert(strictly_sorted(c) && c.to_set() == s.to_set());
    lemma_strictly_sorted_unique(c, r);
}

pub proof fn lemma_push_to_set(s: Seq<Seq<char>>, x: Seq<char>)
    ensures
        s.push(x).to_set() == s.to_set().insert(x),
{
    assert forall|y: Seq<char>| s.push(x).to_set().contains(y) <==> s.to_set().insert(x).contains(y) by {
        if s.push(x).to_set().contains(y) {
            let k = choose|k: int| 0 <= k < s.push(x).len() && s.push(x)[k] == y;
            if k < s.len() {
                assert(s[k] == y);
            }
        }
        if s.to_set().contains(y) {
            let k = choose|k: int| 0 <= k < s.len() && s[k] == y;
            assert(s.push(x)[k] == y);
        }
        if y == x {
            assert(s.push(x)[s.len() as int] == y);
        }
    }
    assert(s.push(x).to_set() =~= s.to_set().insert(x));
}

/// `a < b` on character slices.
pub fn lt_chars(a: &[char], b: &[char]) -> (r: bool)
    ensures
        r == str_lt(a@, b@),
{
    let mut i: usize = 0;
    assert(a@.skip(0) =~= a@);
    assert(b@.skip(0) =~= b@);
    while i < a.len() && i < b.len() && a[i] == b[i]
        invariant
            i <= a.len(),
            i <= b.len(),
            str_lt(a@, b@) == str_lt(a@.skip(i as int), b@.skip(i as int)),
        decreases a.len() - i,
    {
        proof {
            assert(a@.skip(i as int).drop_first() =~= a@.skip(i + 1));
            assert(b@.skip(i as int).drop_first() =~= b@.skip(i + 1));
        }
        i = i + 1;
    }
    if i == a.len() {
        i < b.len()
    } else if i == b.len() {
        false
    } else {
        a[i] < b[i]
    }
}

/// Inserts `x` into a strictly sorted list unless it is already there.
pub fn insert_sorted(r: &mut Vec<Vec<char>>, x: Vec<char>)
    requires
        strictly_sorted(crate::text::seqs_of(old(r)@)),
    ensures
        strictly_sorted(crate::text::seqs_of(final(r)@)),
        crate::text::seqs_of(final(r)@).to_set() == crate::text::seqs_of(old(r)@).to_set().insert(x@),
{
    let ghost old_s = crate::text::seqs_of(r@);
    let mut i: usize = 0;
    while i < r.len() && lt_chars(r[i].as_slice(), x.as_slice())
        invariant
            i <= r.len(),
            r@ == old(r)@,
            old_s == crate::text::seqs_of(r@),
            strictly_sorted(old_s),
            forall|k: int| 0 <= k < i ==> str_lt(#[trigger] old_s[k], x@),
        decreases r.len() - i,
    {
        i = i + 1;
    }
    if i < r.len() && !lt_chars(x.as_slice(), r[i].as_slice()) {
        proof {
            lemma_str_lt_total(x@, old_s[i as int]);
            assert(old_s.to_set().insert(x@) =~= old_s.to_set());
        }
        return;
    }
    r.insert(i, x);
    proof {
        let new_s = crate::text::seqs_of(r@);
        assert(new_s =~= old_s.take(i as int).push(x@) + old_s.skip(i as int));
        assert forall|a: int, b: int| 0 <= a < b < new_s.len() implies str_lt(new_s[a], new_s[b]) by {
            if b < i {
            } else if a < i && b == i {
            } else if a < i && b > i {
                assert(new_s[b] == old_s[b - 1]);
                if (i as int) < old_s.len() {
                    assert(str_lt(x@, old_s[i as int]));
                }
                assert(str_lt(old_s[a], x@));
                if b - 1 > i {
                    assert(str_lt(x@, old_s[i as int]));
                    lemma_str_lt_trans(x@, old_s[i as int], old_s[b - 1]);
                }
                lemma_str_lt_trans(old_s[a], x@, old_s[b - 1]);
            } else if a == i {
                assert(new_s[b] == old_s[b - 1]);
                assert(str_lt(x@, old_s[i as int]));
                if b - 1 > i {
                    lemma_str_lt_trans(x@, old_s[i as int], old_s[b - 1]);
                }
            } else {
                assert(new_s[a] == old_s[a - 1]);
                assert(new_s[b] == old_s[b - 1]);
            }
        }
        assert forall|y: Seq<char>| new_s.to_set().contains(y) <==> old_s.to_set().insert(x@).contains(y) by {
            if new_s.to_set().contains(y) {
                let k = choose|k: int| 0 <= k < new_s.len() && new_s[k] == y;
                if k < i {
                    assert(old_s[k] == y);
                } else if k > i {
                    assert(old_s[k - 1] == y);
                }
            }
            if old_s.to_set().contains(y) {
                let k = choose|k: int| 0 <= k < old_s.len() && old_s[k] == y;
                if k < i {
                    assert(new_s[k] == y);
                } else {
                    assert(new_s[k + 1] == y);
                }
            }
            if y == x@ {
                assert(new_s[i as int] == y);
            }
        }
        assert(new_s.to_set() =~= old_s.to_set().insert(x@));
    }
}

} // verus!
