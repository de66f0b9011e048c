//! Value distributions of one column across the sample rows of a result,
//! for the charts of the finding view.
use vstd::prelude::*;
use crate::text::same_chars;
use crate::charts::DistPoint;
use crate::json::{field, get_str, str_of, JsonValue};
use crate::order::{lemma_str_lt_asym, lemma_str_lt_irrefl, lemma_str_lt_total, lemma_str_lt_trans, lt_chars, str_lt};
use crate::text::{chars_of, ends_with, ends_with_chars, seqs_of, slice_range, string_of};
use crate::unicode::{lower_str, lowercase};

verus! {

/// The string in column `col` of a row, if it is one.
pub open spec fn str_at(r: JsonValue, col: Seq<char>) -> Option<Seq<char>> {
    str_of(field(r, col))
}

/// The number of rows whose column `col` is the string `v`.
pub open spec fn occurrences(rows: Seq<JsonValue>, col: Seq<char>, v: Seq<char>) -> nat
    decreases rows.len(),
{
    if rows.len() == 0 {
        0
    } else {
        occurrences(rows.drop_last(), col, v) + (if str_at(rows.last(), col) == Some(v) {
            1nat
        } else {
            0nat
        })
    }
}

/// `a` comes before `b`: more rows, or as many and a smaller value.
pub open spec fn ranks_before(a: (Seq<char>, nat), b: (Seq<char>, nat)) -> bool {
    a.1 > b.1 || (a.1 == b.1 && str_lt(a.0, b.0))
}

pub open spec fn point_view(p: DistPoint) -> (Seq<char>, nat) {
    (p.value@, p.count as nat)
}

/// The distribution of column `col`: one point per distinct non-empty string
/// in the column, with the number of rows that have it, most frequent first
/// and equally frequent values in order.
pub open spec fn is_distribution(rows: Seq<JsonValue>, col: Seq<char>, pts: Seq<(Seq<char>, nat)>) -> bool {
    &&& forall|k: int|
        0 <= k < pts.len() ==> (#[trigger] pts[k]).0.len() > 0 && pts[k].1 == occurrences(rows, col, pts[k].0)
            && pts[k].1 > 0
    &&& forall|i: int, v: Seq<char>|
        0 <= i < rows.len() && str_at(rows[i], col) == Some(v) && v.len() > 0 ==> exists|k: int|
            0 <= k < pts.len() && (#[trigger] pts[k]).0 == v
    &&& forall|j: int, k: int| 0 <= j < k < pts.len() ==> ranks_before(#[trigger] pts[j], #[trigger] pts[k])
}

pub open spec fn pair_views(v: Seq<(Vec<char>, usize)>) -> Seq<(Seq<char>, nat)> {
    Seq::new(v.len(), |i: int| (v[i].0@, v[i].1 as nat))
}

proof fn lemma_ranks_total(a: (Seq<char>, nat), b: (Seq<char>, nat))
    requires
        a.0 != b.0,
    ensures
        ranks_before(a, b) || ranks_before(b, a),
{
    lemma_str_lt_total(a.0, b.0);
}

proof fn lemma_ranks_trans(a: (Seq<char>, nat), b: (Seq<char>, nat), c: (Seq<char>, nat))
    requires
        ranks_before(a, b),
        ranks_before(b, c),
    ensures
        ranks_before(a, c),
{
    if a.1 == b.1 && b.1 == c.1 {
        lemma_str_lt_trans(a.0, b.0, c.0);
    }
}

proof fn lemma_occ_step(rows: Seq<JsonValue>, col: Seq<char>, v: Seq<char>, i: int)
    requires
        0 <= i < rows.len(),
    ensures
        occurrences(rows.take(i + 1), col, v) == occurrences(rows.take(i), col, v) + (if str_at(rows[i], col)
            == Some(v) {
            1nat
        } else {
            0nat
        }),
{
    assert(rows.take(i + 1).drop_last() =~= rows.take(i));
}


fn ranks_before_exec(a: &(Vec<char>, usize), b: &(Vec<char>, usize)) -> (r: bool)
    ensures
        r == ranks_before((a.0@, a.1 as nat), (b.0@, b.1 as nat)),
{
    a.1 > b.1 || (a.1 == b.1 && lt_chars(a.0.as_slice(), b.0.as_slice()))
}

/// Counts the distinct non-empty strings of column `col` across the rows
/// (see `is_distribution`).
#[verifier::loop_isolation(false)]
pub fn sample_distribution(rows: &[JsonValue], col: &str) -> (pts: Vec<DistPoint>)
    ensures
        is_distribution(rows@, col@, pts@.map_values(|p: DistPoint| point_view(p))),
{
    let ghost rv = rows@;
    let mut counts: Vec<(Vec<char>, usize)> = Vec::new();
    let mut i: usize = 0;
    while i < rows.len()
        invariant
            i <= rows.len(),
            rv == rows@,
            forall|m: int|
                0 <= m < counts@.len() ==> (#[trigger] pair_views(counts@)[m]).0.len() > 0
                    && pair_views(counts@)[m].1 == occurrences(rv.take(i as int), col@, pair_views(counts@)[m].0)
                    && pair_views(counts@)[m].1 > 0 && pair_views(counts@)[m].1 <= i,
            forall|q: int, v: Seq<char>|
                0 <= q < i && str_at(rv[q], col@) == Some(v) && v.len() > 0 ==> exists|m: int|
                    0 <= m < counts@.len() && (#[trigger] pair_views(counts@)[m]).0 == v,
            forall|m: int, n: int|
                0 <= m < n < counts@.len() ==> (#[trigger] pair_views(counts@)[m]).0 != (#[trigger] pair_views(
                    counts@,
                )[n]).0,
        decreases rows.len() - i,
    {
        let ghost before = pair_views(counts@);
        proof {
            assert forall|w: Seq<char>| true implies occurrences(rv.take(i + 1), col@, w) == occurrences(
                rv.take(i as int),
                col@,
                w,
            ) + (if str_at(rv[i as int], col@) == Some(w) {
                1nat
            } else {
                0nat
            }) by {
                lemma_occ_step(rv, col@, w, i as int);
            }
        }
        let ghost row_str = str_at(rv[i as int], col@);
        match get_str(&rows[i], col) {
            None => {},
            Some(s) => {
                let v = chars_of(s.as_str());
                if v.len() > 0 {
                    let mut m: usize = 0;
                    let mut found: Option<usize> = None;
                    while m < counts.len()
                        invariant
                            m <= counts.len(),
                            pair_views(counts@) == before,
                            found matches Some(f) ==> f < counts.len() && before[f as int].0 == v@,
                            found is None ==> forall|q: int| 0 <= q < m ==> before[q].0 != v@,
                        decreases counts.len() - m,
                    {
                        if found.is_none() && same_chars(counts[m].0.as_slice(), v.as_slice()) {
                            found = Some(m);
                        }
                        m = m + 1;
                    }
                    match found {
                        Some(f) => {
                            let e = counts.remove(f);
                            let n = e.1;
                            counts.insert(f, (e.0, n + 1));
                            proof {
                                assert(pair_views(counts@) =~= before.update(f as int, (before[f as int].0, (n + 1) as nat)));
                                assert forall|q: int, n2: int|
                                    0 <= q < n2 < counts@.len() implies (#[trigger] pair_views(counts@)[q]).0
                                    != (#[trigger] pair_views(counts@)[n2]).0 by {
                                    assert(pair_views(counts@)[q].0 == before[q].0);
                                    assert(pair_views(counts@)[n2].0 == before[n2].0);
                                }
                                assert(pair_views(counts@)[f as int].0 == s@);
                            }
                        },
                        None => {
                            counts.push((v, 1));
                            proof {
                                assert(pair_views(counts@) =~= before.push((s@, 1nat)));
                                assert(pair_views(counts@)[before.len() as int].0 == s@);
                                assert(occurrences(rv.take(i as int), col@, s@) == 0) by {
                                    lemma_occ_zero(rv.take(i as int), col@, s@);
                                }
                            }
                        },
                    }
                }
            },
        }
        proof {
            assert(pair_views(counts@).len() >= before.len());
            assert forall|m: int| 0 <= m < before.len() implies (#[trigger] pair_views(counts@)[m]).0 == before[m].0 by {}
            assert forall|w: Seq<char>| row_str == Some(w) && w.len() > 0 implies exists|m: int|
                0 <= m < counts@.len() && (#[trigger] pair_views(counts@)[m]).0 == w by {}
            assert forall|q: int, v: Seq<char>|
                0 <= q < i + 1 && str_at(rv[q], col@) == Some(v) && v.len() > 0 implies exists|m: int|
                    0 <= m < counts@.len() && (#[trigger] pair_views(counts@)[m]).0 == v by {
                if q < i {
                    let m = choose|m: int| 0 <= m < before.len() && (#[trigger] before[m]).0 == v;
                    assert(pair_views(counts@)[m].0 == v);
                }
            }
        }
        i = i + 1;
    }
    assert(rv.take(rows.len() as int) =~= rv);
    let ghost cv = pair_views(counts@);
    let mut out: Vec<(Vec<char>, usize)> = Vec::new();
    let mut j: usize = 0;
    assert(cv.take(0) =~= Seq::<(Seq<char>, nat)>::empty());
    assert(pair_views(out@) =~= Seq::<(Seq<char>, nat)>::empty());
    while j < counts.len()
        invariant
            j <= counts.len(),
            cv == pair_views(counts@),
            pair_views(out@).to_multiset() == cv.take(j as int).to_multiset(),
            forall|a: int, b: int| 0 <= a < b < out@.len() ==> ranks_before(#[trigger] pair_views(out@)[a], #[trigger] pair_views(out@)[b]),
        decreases counts.len() - j,
    {
        let e = (slice_range(counts[j].0.as_slice(), 0, counts[j].0.len()), counts[j].1);
        let ghost ev = (e.0@, e.1 as nat);
        assert(e.0@ =~= counts@[j as int].0@);
        assert(ev == cv[j as int]);
        let mut k: usize = 0;
        while k < out.len() && !ranks_before_exec(&e, &out[k])
            invariant
                k <= out.len(),
                forall|q: int| 0 <= q < k ==> !ranks_before(ev, #[trigger] pair_views(out@)[q]),
            decreases out.len() - k,
        {
            k = k + 1;
        }
        let ghost ov = pair_views(out@);
        proof {
            assert forall|q: int| 0 <= q < ov.len() implies (#[trigger] ov[q]).0 != ev.0 by {
                lemma_member_of_prefix(cv, j as int, ov, q);
                let m = choose|m: int| 0 <= m < j && cv[m] == ov[q];
                assert(cv[m].0 != cv[j as int].0);
            }
            assert forall|q: int| 0 <= q < k implies ranks_before(#[trigger] ov[q], ev) by {
                lemma_ranks_total(ov[q], ev);
            }
        }
        out.insert(k, e);
        proof {
            let nv = pair_views(out@);
            assert(nv =~= ov.insert(k as int, ev));
            vstd::seq_lib::to_multiset_insert(ov, k as int, ev);
            assert(cv.take(j + 1) =~= cv.take(j as int).push(ev));
            vstd::seq_lib::to_multiset_build(cv.take(j as int), ev);
            assert forall|a: int, b: int| 0 <= a < b < nv.len() implies ranks_before(#[trigger] nv[a], #[trigger] nv[b]) by {
                if b < k {
                } else if b == k {
                } else if a < k {
                    assert(nv[b] == ov[b - 1]);
                    if a < k {
                        assert(nv[a] == ov[a]);
                    }
                } else if a == k {
                    assert(nv[b] == ov[b - 1]);
                    if b - 1 > k {
                        lemma_ranks_trans(ev, ov[k as int], ov[b - 1]);
                    }
                } else {
                    assert(nv[a] == ov[a - 1]);
                    assert(nv[b] == ov[b - 1]);
                }
            }
        }
        j = j + 1;
    }
    assert(cv.take(counts.len() as int) =~= cv);
    let mut pts: Vec<DistPoint> = Vec::new();
    let mut q: usize = 0;
    while q < out.len()
        invariant
            q <= out.len(),
            pts@.map_values(|p: DistPoint| point_view(p)) == pair_views(out@).take(q as int),
        decreases out.len() - q,
    {
        let p = DistPoint { value: string_of(out[q].0.as_slice()), count: out[q].1 };
        let ghost prev = pts@.map_values(|p: DistPoint| point_view(p));
        pts.push(p);
        assert(pts@.map_values(|p: DistPoint| point_view(p)) =~= prev.push(pair_views(out@)[q as int]));
        assert(pair_views(out@).take(q + 1) =~= pair_views(out@).take(q as int).push(pair_views(out@)[q as int]));
        q = q + 1;
    }
    let ghost fv = pair_views(out@);
    assert(fv.take(out.len() as int) =~= fv);
    proof {
        assert forall|k: int| 0 <= k < fv.len() implies (#[trigger] fv[k]).0.len() > 0 && fv[k].1 == occurrences(rv, col@, fv[k].0) && fv[k].1 > 0 by {
            lemma_member_of_prefix(cv, cv.len() as int, fv, k);
        }
        assert forall|i2: int, v: Seq<char>|
            0 <= i2 < rv.len() && str_at(rv[i2], col@) == Some(v) && v.len() > 0 implies exists|k: int|
                0 <= k < fv.len() && (#[trigger] fv[k]).0 == v by {
            let m = choose|m: int| 0 <= m < cv.len() && (#[trigger] cv[m]).0 == v;
            lemma_prefix_member_in(cv, fv, m);
        }
    }
    pts
}

proof fn lemma_occ_zero(rows: Seq<JsonValue>, col: Seq<char>, v: Seq<char>)
    requires
        forall|q: int| 0 <= q < rows.len() ==> str_at(rows[q], col) != Some(v),
    ensures
        occurrences(rows, col, v) == 0,
    decreases rows.len(),
{
    if rows.len() > 0 {
        lemma_occ_zero(rows.drop_last(), col, v);
    }
}

/// An element of a sequence with the multiset of a prefix is an element of
/// that prefix.
proof fn lemma_member_of_prefix(c: Seq<(Seq<char>, nat)>, j: int, o: Seq<(Seq<char>, nat)>, q: int)
    requires
        0 <= j <= c.len(),
        0 <= q < o.len(),
        o.to_multiset() == c.take(j).to_multiset(),
    ensures
        exists|m: int| 0 <= m < j && c[m] == o[q],
{
    vstd::seq_lib::to_multiset_contains(o, o[q]);
    vstd::seq_lib::to_multiset_contains(c.take(j), o[q]);
    assert(o.contains(o[q]));
    let m = choose|m: int| 0 <= m < c.take(j).len() && c.take(j)[m] == o[q];
    assert(c[m] == o[q]);
}

/// Every element of `c` is in `o` when they have the same multiset.
proof fn lemma_prefix_member_in(c: Seq<(Seq<char>, nat)>, o: Seq<(Seq<char>, nat)>, m: int)
    requires
        0 <= m < c.len(),
        o.to_multiset() == c.take(c.len() as int).to_multiset(),
    ensures
        exists|k: int| 0 <= k < o.len() && (#[trigger] o[k]).0 == c[m].0,
{
    assert(c.take(c.len() as int) =~= c);
    vstd::seq_lib::to_multiset_contains(c, c[m]);
    vstd::seq_lib::to_multiset_contains(o, c[m]);
    assert(c.contains(c[m]));
    let k = choose|k: int| 0 <= k < o.len() && o[k] == c[m];
    assert(o[k].0 == c[m].0);
}

// ───────────────────────────── the column to chart ─────────────────────────────

/// Name endings of columns not worth charting (ids, dates, amounts, …).
pub open spec fn skip_words() -> Seq<Seq<char>> {
    seq!["_id"@, "id"@, "date"@, "desc"@, "ref"@, "amt"@, "pct"@, "amount"@, "disc"@, "score"@]
}

fn skip_word(i: usize) -> (w: &'static str)
    requires
        i < 10,
    ensures
        w@ == skip_words()[i as int],
{
    if i == 0 {
        "_id"
    } else if i == 1 {
        "id"
    } else if i == 2 {
        "date"
    } else if i == 3 {
        "desc"
    } else if i == 4 {
        "ref"
    } else if i == 5 {
        "amt"
    } else if i == 6 {
        "pct"
    } else if i == 7 {
        "amount"
    } else if i == 8 {
        "disc"
    } else {
        "score"
    }
}

/// The lowercase column name ends with (or is) one of the skip words.
pub open spec fn is_skipped(col: Seq<char>) -> bool {
    exists|i: int|
        0 <= i < skip_words().len() && (ends_with(lowercase(col), #[trigger] skip_words()[i]) || lowercase(col)
            == skip_words()[i])
}

/// The distinct strings found in column `col`.
pub open spec fn distinct_strings(rows: Seq<JsonValue>, col: Seq<char>) -> Set<Seq<char>> {
    Set::new(|v: Seq<char>| exists|i: int| 0 <= i < rows.len() && str_at(rows[i], col) == Some(v))
}

/// The best column among the first `n` keys: not skipped, with 2 to 15
/// distinct strings, the fewest such (the first of equals).
pub open spec fn best_column(rows: Seq<JsonValue>, keys: Seq<Seq<char>>, n: nat) -> Option<(Seq<char>, nat)>
    decreases n,
{
    if n == 0 || n > keys.len() {
        None
    } else {
        let p = best_column(rows, keys, (n - 1) as nat);
        let key = keys[n - 1];
        let card = distinct_strings(rows, key).len();
        if !is_skipped(key) && 2 <= card <= 15 && (match p {
            None => true,
            Some(b) => card < b.1,
        }) {
            Some((key, card))
        } else {
            p
        }
    }
}

/// The keys of an object, in order.
pub open spec fn object_keys(v: JsonValue) -> Option<Seq<Seq<char>>> {
    match v {
        JsonValue::Object(e) => Some(e@.map_values(|m: (String, JsonValue)| m.0@)),
        _ => None,
    }
}

/// The column to chart: among the keys of the first row (an object), the
/// one not skipped with the fewest (2 to 15) distinct string values, else
/// the first key; `None` without rows, when the first row is not an object
/// or has no keys.
pub open spec fn sample_column(rows: Seq<JsonValue>) -> Option<Seq<char>> {
    if rows.len() == 0 {
        None
    } else {
        match object_keys(rows[0]) {
            None => None,
            Some(keys) => match best_column(rows, keys, keys.len()) {
                Some(b) => Some(b.0),
                None => if keys.len() > 0 {
                    Some(keys[0])
                } else {
                    None
                },
            },
        }
    }
}

fn is_skipped_exec(col: &str) -> (b: bool)
    ensures
        b == is_skipped(col@),
{
    let l = lower_str(col);
    let mut i: usize = 0;
    while i < 10
        invariant
            i <= 10,
            l@ == lowercase(col@),
            skip_words().len() == 10,
            forall|k: int| 0 <= k < i ==> !(ends_with(lowercase(col@), #[trigger] skip_words()[k]) || lowercase(col@) == skip_words()[k]),
        decreases 10 - i,
    {
        let w = chars_of(skip_word(i));
        if ends_with_chars(l.as_slice(), w.as_slice()) || same_chars(l.as_slice(), w.as_slice()) {
            return true;
        }
        i = i + 1;
    }
    false
}

fn distinct_count(rows: &[JsonValue], col: &str) -> (n: usize)
    ensures
        n == distinct_strings(rows@, col@).len(),
{
    let mut d: Vec<Vec<char>> = Vec::new();
    let mut i: usize = 0;
    while i < rows.len()
        invariant
            i <= rows.len(),
            seqs_of(d@).no_duplicates(),
            seqs_of(d@).to_set() == Set::new(|v: Seq<char>| exists|q: int| 0 <= q < i && str_at(rows@[q], col@) == Some(v)),
        decreases rows.len() - i,
    {
        let ghost before = seqs_of(d@);
        match get_str(&rows[i], col) {
            None => {
                assert(seqs_of(d@).to_set() =~= Set::new(|v: Seq<char>| exists|q: int| 0 <= q < i + 1 && str_at(rows@[q], col@) == Some(v)));
            },
            Some(s) => {
                let v = chars_of(s.as_str());
                let mut m: usize = 0;
                let mut seen = false;
                while m < d.len()
                    invariant
                        m <= d.len(),
                        seqs_of(d@) == before,
                        seen == exists|q: int| 0 <= q < m && before[q] == v@,
                    decreases d.len() - m,
                {
                    assert(before[m as int] == d@[m as int]@);
                    if same_chars(d[m].as_slice(), v.as_slice()) {
                        seen = true;
                    }
                    m = m + 1;
                }
                if seen {
                    assert(before.contains(v@));
                    assert(seqs_of(d@).to_set() =~= Set::new(|w: Seq<char>| exists|q: int| 0 <= q < i + 1 && str_at(rows@[q], col@) == Some(w)));
                } else {
                    d.push(v);
                    proof {
                        assert(seqs_of(d@) =~= before.push(s@));
                        assert(!before.contains(s@));
                        crate::order::lemma_push_to_set(before, s@);
                        assert(seqs_of(d@).to_set() =~= Set::new(|w: Seq<char>| exists|q: int| 0 <= q < i + 1 && str_at(rows@[q], col@) == Some(w)));
                    }
                }
            },
        }
        i = i + 1;
    }
    proof {
        seqs_of(d@).unique_seq_to_set();
        assert(Set::new(|v: Seq<char>| exists|q: int| 0 <= q < rows.len() && str_at(rows@[q], col@) == Some(v)) =~= distinct_strings(rows@, col@));
    }
    d.len()
}

/// Picks the column of the sample rows to chart (see `sample_column`).
pub fn pick_sample_column(rows: &[JsonValue]) -> (r: Option<String>)
    ensures
        r matches Some(c) ==> sample_column(rows@) == Some(c@),
        r is None ==> sample_column(rows@) is None,
{
    if rows.len() == 0 {
        return None;
    }
    let entries = match &rows[0] {
        JsonValue::Object(e) => e,
        _ => return None,
    };
    let ghost keys = entries@.map_values(|m: (String, JsonValue)| m.0@);
    assert(object_keys(rows@[0]) == Some(keys));
    let mut best: Option<(usize, usize)> = None;
    let mut k: usize = 0;
    while k < entries.len()
        invariant
            k <= entries.len(),
            keys == entries@.map_values(|m: (String, JsonValue)| m.0@),
            best matches Some(b) ==> b.0 < k && best_column(rows@, keys, k as nat) == Some((keys[b.0 as int], b.1 as nat)),
            best is None ==> best_column(rows@, keys, k as nat) is None,
        decreases entries.len() - k,
    {
        let key = entries[k].0.as_str();
        if !is_skipped_exec(key) {
            let card = distinct_count(rows, key);
            let better = match best {
                None => true,
                Some(b) => card < b.1,
            };
            if 2 <= card && card <= 15 && better {
                best = Some((k, card));
            }
        }
        k = k + 1;
    }
    match best {
        Some(b) => Some(entries[b.0].0.clone()),
        None => {
            if entries.len() > 0 {
                Some(entries[0].0.clone())
            } else {
                None
            }
        },
    }
}

} // verus!
