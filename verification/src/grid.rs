//! The decisions of the spreadsheet-style data grid: column letters, value
//! filters, the sort cycle of a column header and keyboard navigation.
use vstd::prelude::*;
use crate::model::strs;
use crate::unicode::lowercase;
use crate::text::{chars_of, dec, extend_chars, extend_str, fmt_usize, replace, replace_str, string_of};

verus! {

/// The letter of a column index below 26 (`A` … `Z`).
pub open spec fn letter(k: nat) -> char {
    ((65 + k) as u8) as char
}

/// The spreadsheet label of column `i`: `A` … `Z`, then two letters
/// (`AA`, `AB`, …). Beyond `ZZ` the first character runs on past `Z` in
/// byte order.
pub open spec fn col_label(i: nat) -> Seq<char> {
    if i < 26 {
        seq![letter(i)]
    } else {
        seq![letter(((i / 26 - 1) as nat) % 256), letter(i % 26)]
    }
}

/// The label of column `i` (the first byte of a two-letter label must stay
/// within `u8`).
pub fn col_letter(i: usize) -> (s: String)
    requires
        i < 26 || ((i / 26 - 1) as nat) % 256 <= 190,
    ensures
        s@ == col_label(i as nat),
{
    let mut v: Vec<char> = Vec::new();
    if i < 26 {
        let b: u8 = 65u8 + (i as u8);
        v.push(b as char);
    } else {
        let hi: u8 = ((i / 26 - 1) % 256) as u8;
        let lo: u8 = (i % 26) as u8;
        v.push((65u8 + hi) as char);
        v.push((65u8 + lo) as char);
    }
    proof {
        assert(v@ =~= col_label(i as nat));
    }
    string_of(v.as_slice())
}

// ───────────────────────────── sorting by a column ─────────────────────────────

/// A click on the header of column `ci`: unsorted → ascending → descending
/// → unsorted; a click on another column sorts it ascending.
pub open spec fn sort_after_click(state: Option<(usize, bool)>, ci: usize) -> Option<(usize, bool)> {
    match state {
        None => Some((ci, true)),
        Some((col, asc)) => if col == ci {
            if asc {
                Some((ci, false))
            } else {
                None
            }
        } else {
            Some((ci, true))
        },
    }
}

/// The sort state after a click on the header of column `ci`.
pub fn next_sort(state: Option<(usize, bool)>, ci: usize) -> (r: Option<(usize, bool)>)
    ensures
        r == sort_after_click(state, ci),
{
    match state {
        None => Some((ci, true)),
        Some((col, true)) if col == ci => Some((ci, false)),
        Some((col, false)) if col == ci => None,
        _ => Some((ci, true)),
    }
}

/// Three clicks on the same column header bring any state for that column
/// back to unsorted, via ascending and descending.
pub proof fn law_sort_cycle(ci: usize)
    ensures
        sort_after_click(None, ci) == Some((ci, true)),
        sort_after_click(Some((ci, true)), ci) == Some((ci, false)),
        sort_after_click(Some((ci, false)), ci) == None::<(usize, bool)>,
        sort_after_click(sort_after_click(sort_after_click(None, ci), ci), ci) == None::<(usize, bool)>,
{
}

// ───────────────────────────── value filters ─────────────────────────────

/// A row passes the filters when, for every filtered column it has a cell
/// in, the cell's value is among the allowed ones.
pub open spec fn row_passes(row: Seq<Seq<char>>, filters: Seq<(usize, Seq<Seq<char>>)>) -> bool {
    forall|k: int|
        0 <= k < filters.len() ==> ((#[trigger] filters[k]).0 < row.len() ==> filters[k].1.contains(
            row[filters[k].0 as int],
        ))
}

pub open spec fn filter_views(f: Seq<(usize, Vec<String>)>) -> Seq<(usize, Seq<Seq<char>>)> {
    Seq::new(f.len(), |i: int| (f[i].0, strs(f[i].1@)))
}

pub open spec fn row_views(rows: Seq<Vec<String>>) -> Seq<Seq<Seq<char>>> {
    Seq::new(rows.len(), |i: int| strs(rows[i]@))
}

/// The indices of the rows that pass the filters, in order.
pub open spec fn passing_rows(rows: Seq<Seq<Seq<char>>>, filters: Seq<(usize, Seq<Seq<char>>)>, n: nat) -> Seq<usize>
    decreases n,
{
    if n == 0 || n > rows.len() {
        Seq::empty()
    } else {
        let p = passing_rows(rows, filters, (n - 1) as nat);
        if row_passes(rows[n - 1], filters) {
            p.push((n - 1) as usize)
        } else {
            p
        }
    }
}



/// The rows (by index) that pass every active column filter; a filter is a
/// column index with its allowed values.
pub fn filter_rows(rows: &Vec<Vec<String>>, filters: &Vec<(usize, Vec<String>)>) -> (r: Vec<usize>)
    ensures
        r@ == passing_rows(row_views(rows@), filter_views(filters@), rows@.len() as nat),
{
    let ghost rv = row_views(rows@);
    let ghost fv = filter_views(filters@);
    let mut r: Vec<usize> = Vec::new();
    let mut i: usize = 0;
    while i < rows.len()
        invariant
            i <= rows.len(),
            rv == row_views(rows@),
            fv == filter_views(filters@),
            r@ == passing_rows(rv, fv, i as nat),
        decreases rows.len() - i,
    {
        let row = &rows[i];
        let mut ok = true;
        let mut k: usize = 0;
        while k < filters.len() && ok
            invariant
                k <= filters.len(),
                rv == row_views(rows@),
                fv == filter_views(filters@),
                i < rows.len(),
                *row == rows@[i as int],
                ok == forall|q: int| 0 <= q < k ==> ((#[trigger] fv[q]).0 < rv[i as int].len() ==> fv[q].1.contains(rv[i as int][fv[q].0 as int])),
            decreases filters.len() - k,
        {
            let ci = filters[k].0;
            if ci < row.len() {
                let allowed = crate::model::contains_string(&filters[k].1, &row[ci]);
                assert(fv[k as int].1 == strs(filters@[k as int].1@));
                assert(rv[i as int][ci as int] == row@[ci as int]@);
                if !allowed {
                    ok = false;
                }
            }
            k = k + 1;
        }
        assert(ok == row_passes(rv[i as int], fv));
        if ok {
            r.push(i);
        }
        i = i + 1;
    }
    r
}

// ───────────────────────────── editing the filters ─────────────────────────────

/// No column has two filters: the entries stand for a map from column index
/// to allowed values, and `set_filter` keeps it so.
pub open spec fn filters_wf(f: Seq<(usize, Vec<String>)>) -> bool {
    forall|a: int, b: int| 0 <= a < b < f.len() ==> (#[trigger] f[a]).0 != (#[trigger] f[b]).0
}

/// The allowed values of column `ci`, if it has a filter.
pub open spec fn filter_of(f: Seq<(usize, Vec<String>)>, ci: usize) -> Option<Seq<Seq<char>>> {
    if exists|i: int| 0 <= i < f.len() && (#[trigger] f[i]).0 == ci {
        let i = choose|i: int| 0 <= i < f.len() && (#[trigger] f[i]).0 == ci;
        Some(strs(f[i].1@))
    } else {
        None
    }
}

proof fn lemma_filter_of_at(f: Seq<(usize, Vec<String>)>, i: int)
    requires
        filters_wf(f),
        0 <= i < f.len(),
    ensures
        filter_of(f, f[i].0) == Some(strs(f[i].1@)),
{
    let ci = f[i].0;
    assert(exists|j: int| 0 <= j < f.len() && (#[trigger] f[j]).0 == ci);
    let j = choose|j: int| 0 <= j < f.len() && (#[trigger] f[j]).0 == ci;
    if j < i {
        assert(f[j].0 != f[i].0);
    } else if i < j {
        assert(f[i].0 != f[j].0);
    }
}

fn filter_index(f: &Vec<(usize, Vec<String>)>, ci: usize) -> (r: Option<usize>)
    ensures
        r matches Some(k) ==> k < f.len() && f@[k as int].0 == ci,
        r is None ==> forall|i: int| 0 <= i < f.len() ==> (#[trigger] f@[i]).0 != ci,
{
    let mut k: usize = 0;
    while k < f.len()
        invariant
            k <= f.len(),
            forall|i: int| 0 <= i < k ==> (#[trigger] f@[i]).0 != ci,
        decreases f.len() - k,
    {
        if f[k].0 == ci {
            return Some(k);
        }
        k = k + 1;
    }
    None
}

/// Sets the filter of column `ci` to `vals`, or removes it for `None`
/// (`HashMap::insert` and `HashMap::remove`); the other columns keep theirs.
pub fn set_filter(f: &mut Vec<(usize, Vec<String>)>, ci: usize, vals: Option<Vec<String>>)
    requires
        filters_wf(old(f)@),
    ensures
        filters_wf(final(f)@),
        filter_of(final(f)@, ci) == (match vals {
            Some(v) => Some(strs(v@)),
            None => None::<Seq<Seq<char>>>,
        }),
        forall|c: usize| c != ci ==> #[trigger] filter_of(final(f)@, c) == filter_of(old(f)@, c),
{
    let ghost f0 = f@;
    let ghost v0 = vals;
    match filter_index(f, ci) {
        Some(k) => match vals {
            Some(v) => {
                let ghost e = (ci, v);
                f.set(k, (ci, v));
                proof {
                    assert(f@ == f0.update(k as int, e));
                    assert(filters_wf(f@)) by {
                        assert forall|a: int, b: int| 0 <= a < b < f@.len() implies (#[trigger] f@[a]).0 != (#[trigger] f@[b]).0 by {
                            assert(f0[a].0 != f0[b].0);
                        }
                    }
                    lemma_filter_of_at(f@, k as int);
                    assert forall|c: usize| c != ci implies #[trigger] filter_of(f@, c) == filter_of(f0, c) by {
                        if exists|i: int| 0 <= i < f0.len() && (#[trigger] f0[i]).0 == c {
                            let i = choose|i: int| 0 <= i < f0.len() && (#[trigger] f0[i]).0 == c;
                            lemma_filter_of_at(f0, i);
                            lemma_filter_of_at(f@, i);
                        } else {
                            assert(!exists|i: int| 0 <= i < f@.len() && (#[trigger] f@[i]).0 == c) by {
                                assert forall|i: int| 0 <= i < f@.len() implies (#[trigger] f@[i]).0 != c by {
                                    if i != k {
                                        assert(f@[i] == f0[i]);
                                    }
                                }
                            }
                        }
                    }
                }
            },
            None => {
                f.remove(k);
                proof {
                    assert(f@ == f0.remove(k as int));
                    assert(filters_wf(f@)) by {
                        assert forall|a: int, b: int| 0 <= a < b < f@.len() implies (#[trigger] f@[a]).0 != (#[trigger] f@[b]).0 by {
                            let a0 = if a < k { a } else { a + 1 };
                            let b0 = if b < k { b } else { b + 1 };
                            assert(f@[a] == f0[a0]);
                            assert(f@[b] == f0[b0]);
                            assert(f0[a0].0 != f0[b0].0);
                        }
                    }
                    assert(!exists|i: int| 0 <= i < f@.len() && (#[trigger] f@[i]).0 == ci) by {
                        assert forall|i: int| 0 <= i < f@.len() implies (#[trigger] f@[i]).0 != ci by {
                            let i0 = if i < k { i } else { i + 1 };
                            assert(f@[i] == f0[i0]);
                            assert(f0[i0].0 != f0[k as int].0);
                        }
                    }
                    assert forall|c: usize| c != ci implies #[trigger] filter_of(f@, c) == filter_of(f0, c) by {
                        if exists|i: int| 0 <= i < f0.len() && (#[trigger] f0[i]).0 == c {
                            let i = choose|i: int| 0 <= i < f0.len() && (#[trigger] f0[i]).0 == c;
                            assert(i != k);
                            let j = if i < k { i } else { i - 1 };
                            assert(f@[j] == f0[i]);
                            lemma_filter_of_at(f0, i);
                            lemma_filter_of_at(f@, j);
                        } else {
                            assert(!exists|i: int| 0 <= i < f@.len() && (#[trigger] f@[i]).0 == c) by {
                                assert forall|i: int| 0 <= i < f@.len() implies (#[trigger] f@[i]).0 != c by {
                                    let i0 = if i < k { i } else { i + 1 };
                                    assert(f@[i] == f0[i0]);
                                }
                            }
                        }
                    }
                }
            },
        },
        None => match vals {
            Some(v) => {
                let ghost e = (ci, v);
                f.push((ci, v));
                proof {
                    assert(f@ == f0.push(e));
                    assert(filters_wf(f@)) by {
                        assert forall|a: int, b: int| 0 <= a < b < f@.len() implies (#[trigger] f@[a]).0 != (#[trigger] f@[b]).0 by {
                            if b < f0.len() {
                                assert(f0[a].0 != f0[b].0);
                            } else {
                                assert(f0[a].0 != ci);
                            }
                        }
                    }
                    lemma_filter_of_at(f@, f0.len() as int);
                    assert forall|c: usize| c != ci implies #[trigger] filter_of(f@, c) == filter_of(f0, c) by {
                        if exists|i: int| 0 <= i < f0.len() && (#[trigger] f0[i]).0 == c {
                            let i = choose|i: int| 0 <= i < f0.len() && (#[trigger] f0[i]).0 == c;
                            lemma_filter_of_at(f0, i);
                            lemma_filter_of_at(f@, i);
                        } else {
                            assert(!exists|i: int| 0 <= i < f@.len() && (#[trigger] f@[i]).0 == c) by {
                                assert forall|i: int| 0 <= i < f@.len() implies (#[trigger] f@[i]).0 != c by {
                                    if i < f0.len() {
                                        assert(f@[i] == f0[i]);
                                    }
                                }
                            }
                        }
                    }
                }
            },
            None => {},
        },
    }
}

/// Whether `w` is allowed before the change: the column's values when it has
/// a filter, else every value of the column.
pub open spec fn allowed_before(current: Option<Seq<Seq<char>>>, all: Seq<Seq<char>>, w: Seq<char>) -> bool {
    match current {
        Some(c) => c.contains(w),
        None => all.contains(w),
    }
}

/// Whether `w` is allowed after `v` is checked or unchecked.
pub open spec fn allowed_after(current: Option<Seq<Seq<char>>>, all: Seq<Seq<char>>, v: Seq<char>, checked: bool, w: Seq<char>) -> bool {
    if checked {
        allowed_before(current, all, w) || w == v
    } else {
        allowed_before(current, all, w) && w != v
    }
}

/// Checking a value that leaves every value of the column allowed drops the
/// column's filter.
pub open spec fn toggle_drops(current: Option<Seq<Seq<char>>>, all: Seq<Seq<char>>, v: Seq<char>, checked: bool) -> bool {
    checked && forall|a: Seq<char>| all.contains(a) ==> allowed_after(current, all, v, checked, a)
}

/// The values of an optional filter.
pub open spec fn opt_values(current: Option<&Vec<String>>) -> Option<Seq<Seq<char>>> {
    match current {
        Some(c) => Some(strs(c@)),
        None => None,
    }
}

/// The filter of a column after its checkbox for `v` changes: the column's
/// allowed values (all of them when it had no filter) with `v` added or
/// taken out; `None` (no filter) when checking makes every value allowed.
pub fn toggled_values(current: Option<&Vec<String>>, all: &Vec<String>, v: &String, checked: bool) -> (r: Option<Vec<String>>)
    ensures
        r is None <==> toggle_drops(opt_values(current), strs(all@), v@, checked),
        r matches Some(x) ==> forall|w: Seq<char>| strs(x@).contains(w) <==> allowed_after(
            opt_values(current),
            strs(all@),
            v@,
            checked,
            w,
        ),
{
    let ghost cur = opt_values(current);
    let base: &Vec<String> = match current {
        Some(c) => c,
        None => all,
    };
    assert(forall|w: Seq<char>| strs(base@).contains(w) <==> allowed_before(cur, strs(all@), w));
    let mut out: Vec<String> = Vec::new();
    let mut i: usize = 0;
    while i < base.len()
        invariant
            i <= base.len(),
            forall|w: Seq<char>| strs(out@).contains(w) <==> (strs(base@).take(i as int).contains(w) && (checked || w != v@)),
        decreases base.len() - i,
    {
        let keep = checked || !crate::text::str_eq(base[i].as_str(), v.as_str());
        let ghost prev = strs(out@);
        if keep {
            out.push(base[i].clone());
            assert(strs(out@) =~= prev.push(base@[i as int]@));
        }
        proof {
            assert(strs(base@).take(i + 1) =~= strs(base@).take(i as int).push(base@[i as int]@));
            assert forall|w: Seq<char>| strs(out@).contains(w) <==> (strs(base@).take(i + 1).contains(w) && (checked || w != v@)) by {
                if strs(base@).take(i + 1).contains(w) && (checked || w != v@) {
                    let j = choose|j: int| 0 <= j < i + 1 && #[trigger] strs(base@).take(i + 1)[j] == w;
                    if j < i {
                        assert(strs(base@).take(i as int)[j] == w);
                    } else {
                        assert(strs(out@)[strs(out@).len() - 1] == w);
                    }
                }
                if strs(out@).contains(w) && keep && !prev.contains(w) {
                    assert(w == base@[i as int]@);
                    assert(strs(base@).take(i + 1)[i as int] == w);
                }
                if prev.contains(w) {
                    let j = choose|j: int| 0 <= j < prev.len() && #[trigger] prev[j] == w;
                    assert(strs(out@)[j] == w);
                }
                if strs(base@).take(i as int).contains(w) {
                    let j = choose|j: int| 0 <= j < i && #[trigger] strs(base@).take(i as int)[j] == w;
                    assert(strs(base@).take(i + 1)[j] == w);
                }
            }
        }
        i = i + 1;
    }
    assert(strs(base@).take(base.len() as int) =~= strs(base@));
    assert(forall|w: Seq<char>| strs(out@).contains(w) <==> (strs(base@).contains(w) && (checked || w != v@)));
    if checked {
        if !crate::model::contains_string(out.as_slice(), v.as_str()) {
            let ghost prev = strs(out@);
            out.push(v.clone());
            proof {
                assert(strs(out@) =~= prev.push(v@));
                assert forall|w: Seq<char>| strs(out@).contains(w) <==> (prev.contains(w) || w == v@) by {
                    if prev.contains(w) {
                        let j = choose|j: int| 0 <= j < prev.len() && #[trigger] prev[j] == w;
                        assert(strs(out@)[j] == w);
                    }
                    if w == v@ {
                        assert(strs(out@)[prev.len() as int] == w);
                    }
                }
            }
        }
        assert(forall|w: Seq<char>| strs(out@).contains(w) <==> strs(base@).contains(w) || w == v@);
        assert(strs(out@).contains(v@));
        assert forall|w: Seq<char>| strs(out@).contains(w) <==> allowed_after(cur, strs(all@), v@, checked, w) by {
            assert(strs(base@).contains(w) <==> allowed_before(cur, strs(all@), w));
        }
        let mut k: usize = 0;
        while k < all.len()
            invariant
                k <= all.len(),
                checked,
                cur == opt_values(current),
                forall|w: Seq<char>| strs(out@).contains(w) <==> allowed_after(cur, strs(all@), v@, checked, w),
                forall|a: int| 0 <= a < k ==> strs(out@).contains(#[trigger] strs(all@)[a]),
            decreases all.len() - k,
        {
            if !crate::model::contains_string(out.as_slice(), all[k].as_str()) {
                assert(!allowed_after(cur, strs(all@), v@, checked, strs(all@)[k as int]));
                assert(strs(all@).contains(strs(all@)[k as int]));
                return Some(out);
            }
            k = k + 1;
        }
        assert forall|a: Seq<char>| strs(all@).contains(a) implies allowed_after(cur, strs(all@), v@, checked, a) by {
            let j = choose|j: int| 0 <= j < strs(all@).len() && #[trigger] strs(all@)[j] == a;
            assert(strs(out@).contains(strs(all@)[j]));
        }
        None
    } else {
        assert forall|w: Seq<char>| strs(out@).contains(w) <==> allowed_after(cur, strs(all@), v@, checked, w) by {
            assert(strs(base@).contains(w) <==> allowed_before(cur, strs(all@), w));
        }
        Some(out)
    }
}

/// The value of column `ci` in a row, empty where the row is shorter.
pub open spec fn cell_of(row: Seq<Seq<char>>, ci: usize) -> Seq<char> {
    if ci < row.len() {
        row[ci as int]
    } else {
        Seq::empty()
    }
}

/// `w` is the value of column `ci` in one of the first `n` rows.
pub open spec fn in_column(rows: Seq<Seq<Seq<char>>>, ci: usize, n: int, w: Seq<char>) -> bool {
    exists|r: int| 0 <= r < n && cell_of(#[trigger] rows[r], ci) == w
}

/// The values a column's filter menu lists: each value of the column once
/// (an empty one for a row without the column), ordered by their lowercase
/// forms; values whose lowercase forms are equal come in no stated order.
pub open spec fn menu_values(rows: Seq<Seq<Seq<char>>>, ci: usize, out: Seq<Seq<char>>) -> bool {
    &&& forall|a: int, b: int| 0 <= a < b < out.len() ==> (#[trigger] out[a]) != (#[trigger] out[b])
    &&& forall|a: int, b: int|
        0 <= a < b < out.len() ==> !crate::order::str_lt(lowercase(#[trigger] out[b]), lowercase(#[trigger] out[a]))
    &&& forall|w: Seq<char>| out.contains(w) <==> in_column(rows, ci, rows.len() as int, w)
}

/// The distinct values of column `ci`, ordered ignoring case, for its
/// filter menu.
pub fn distinct_values(rows: &Vec<Vec<String>>, ci: usize) -> (r: Vec<String>)
    ensures
        menu_values(row_views(rows@), ci, strs(r@)),
{
    let ghost rv = row_views(rows@);
    let mut out: Vec<String> = Vec::new();
    let mut keys: Vec<Vec<char>> = Vec::new();
    let mut i: usize = 0;
    while i < rows.len()
        invariant
            i <= rows.len(),
            rv == row_views(rows@),
            keys.len() == out.len(),
            forall|a: int| 0 <= a < keys.len() ==> (#[trigger] keys@[a])@ == lowercase(strs(out@)[a]),
            forall|a: int, b: int| 0 <= a < b < out.len() ==> (#[trigger] strs(out@)[a]) != (#[trigger] strs(out@)[b]),
            forall|a: int, b: int|
                0 <= a < b < out.len() ==> !crate::order::str_lt(lowercase(#[trigger] strs(out@)[b]), lowercase(#[trigger] strs(out@)[a])),
            forall|w: Seq<char>| strs(out@).contains(w) <==> in_column(rv, ci, i as int, w),
        decreases rows.len() - i,
    {
        let row = &rows[i];
        let v: String = if ci < row.len() {
            row[ci].clone()
        } else {
            String::new()
        };
        proof {
            assert(rv[i as int] == strs(row@));
            assert(v@ == cell_of(rv[i as int], ci));
        }
        let ghost so = strs(out@);
        if crate::model::contains_string(out.as_slice(), v.as_str()) {
            proof {
                assert forall|w: Seq<char>| strs(out@).contains(w) <==> in_column(rv, ci, i + 1, w) by {
                    if in_column(rv, ci, i + 1, w) {
                        let r = choose|r: int| 0 <= r < i + 1 && cell_of(#[trigger] rv[r], ci) == w;
                        if r < i {
                            assert(in_column(rv, ci, i as int, w));
                        }
                    }
                    if in_column(rv, ci, i as int, w) {
                        let r = choose|r: int| 0 <= r < i && cell_of(#[trigger] rv[r], ci) == w;
                        assert(0 <= r < i + 1);
                    }
                }
            }
        } else {
            let vc = chars_of(v.as_str());
            let key = crate::unicode::lower_chars(vc.as_slice());
            let mut p: usize = 0;
            while p < keys.len() && !crate::order::lt_chars(key.as_slice(), keys[p].as_slice())
                invariant
                    p <= keys.len(),
                    keys.len() == out.len(),
                    so == strs(out@),
                    key@ == lowercase(v@),
                    forall|a: int| 0 <= a < keys.len() ==> (#[trigger] keys@[a])@ == lowercase(so[a]),
                    forall|a: int| 0 <= a < p ==> !crate::order::str_lt(key@, lowercase(#[trigger] so[a])),
                decreases keys.len() - p,
            {
                p = p + 1;
            }
            proof {
                if p < keys.len() {
                    assert(crate::order::str_lt(key@, lowercase(so[p as int])));
                }
            }
            let ghost vv = v@;
            let ghost ok = keys@;
            out.insert(p, v);
            keys.insert(p, key);
            proof {
                let ns = strs(out@);
                assert(ns =~= so.take(p as int).push(vv) + so.skip(p as int));
                assert forall|a: int| 0 <= a < keys.len() implies (#[trigger] keys@[a])@ == lowercase(ns[a]) by {
                    if a < p {
                    } else if a == p {
                    } else {
                        assert(keys@[a] == ok[a - 1]);
                        assert(ns[a] == so[a - 1]);
                    }
                }
                assert forall|a: int, b: int| 0 <= a < b < ns.len() implies (#[trigger] ns[a]) != (#[trigger] ns[b]) by {
                    if a == p {
                        assert(so.contains(ns[b]));
                    } else if b == p {
                        assert(so.contains(ns[a]));
                    } else {
                        let a0 = if a < p { a } else { a - 1 };
                        let b0 = if b < p { b } else { b - 1 };
                        assert(so[a0] != so[b0]);
                    }
                }
                assert forall|a: int, b: int| 0 <= a < b < ns.len() implies !crate::order::str_lt(
                    lowercase(#[trigger] ns[b]),
                    lowercase(#[trigger] ns[a]),
                ) by {
                    if a == p {
                        let b0 = b - 1;
                        if p < so.len() {
                            crate::order::lemma_str_lt_total(lowercase(so[p as int]), lowercase(so[b0]));
                            if b0 > p {
                                assert(!crate::order::str_lt(lowercase(so[b0]), lowercase(so[p as int])));
                            }
                            if crate::order::str_lt(lowercase(so[p as int]), lowercase(so[b0])) {
                                crate::order::lemma_str_lt_trans(lowercase(vv), lowercase(so[p as int]), lowercase(so[b0]));
                            }
                            crate::order::lemma_str_lt_asym(lowercase(vv), lowercase(so[b0]));
                        }
                    } else if b == p {
                        assert(!crate::order::str_lt(lowercase(vv), lowercase(so[a])));
                    } else {
                        let a0 = if a < p { a } else { a - 1 };
                        let b0 = if b < p { b } else { b - 1 };
                        assert(!crate::order::str_lt(lowercase(so[b0]), lowercase(so[a0])));
                    }
                }
                assert forall|w: Seq<char>| ns.contains(w) <==> in_column(rv, ci, i + 1, w) by {
                    if ns.contains(w) {
                        let j = choose|j: int| 0 <= j < ns.len() && #[trigger] ns[j] == w;
                        if j != p {
                            let j0 = if j < p { j } else { j - 1 };
                            assert(so[j0] == w);
                            assert(so.contains(w));
                            let r = choose|r: int| 0 <= r < i && cell_of(#[trigger] rv[r], ci) == w;
                            assert(0 <= r < i + 1);
                        }
                    }
                    if in_column(rv, ci, i + 1, w) {
                        let r = choose|r: int| 0 <= r < i + 1 && cell_of(#[trigger] rv[r], ci) == w;
                        if r < i {
                            assert(in_column(rv, ci, i as int, w));
                            let j0 = choose|j: int| 0 <= j < so.len() && #[trigger] so[j] == w;
                            let j = if j0 < p { j0 } else { j0 + 1 };
                            assert(ns[j] == w);
                        } else {
                            assert(ns[p as int] == w);
                        }
                    }
                }
            }
        }
        i = i + 1;
    }
    out
}

// ───────────────────────────── keyboard navigation ─────────────────────────────

/// The position of row `r` among the visible rows.
pub open spec fn position_of(visible: Seq<usize>, r: usize) -> Option<int>
    decreases visible.len(),
{
    if visible.len() == 0 {
        None
    } else {
        match position_of(visible.drop_last(), r) {
            Some(p) => Some(p),
            None => if visible.last() == r {
                Some(visible.len() - 1)
            } else {
                None
            },
        }
    }
}

/// The cell selected after an arrow key, if the key moves the selection:
/// up and down move among the visible rows (staying at the ends), left and
/// right among the columns (staying at the edges); nothing happens when the
/// selected row is not visible.
pub open spec fn cell_after_key(key: Seq<char>, visible: Seq<usize>, r: usize, c: usize, num_cols: usize) -> Option<(usize, usize)> {
    if key == "ArrowUp"@ {
        match position_of(visible, r) {
            Some(p) => Some((visible[if p >= 1 { p - 1 } else { 0 }], c)),
            None => None,
        }
    } else if key == "ArrowDown"@ {
        match position_of(visible, r) {
            Some(p) => Some((visible[if p + 1 <= visible.len() - 1 { p + 1 } else { visible.len() - 1 }], c)),
            None => None,
        }
    } else if key == "ArrowLeft"@ {
        Some((r, if c >= 1 { (c - 1) as usize } else { 0 }))
    } else if key == "ArrowRight"@ {
        Some((r, if num_cols == 0 { 0 } else if c + 1 <= num_cols - 1 { (c + 1) as usize } else { (num_cols - 1) as usize }))
    } else {
        None
    }
}

fn position(visible: &Vec<usize>, r: usize) -> (p: Option<usize>)
    ensures
        p matches Some(k) ==> k < visible.len() && position_of(visible@, r) == Some(k as int),
        p is None ==> position_of(visible@, r) is None,
{
    let mut i: usize = 0;
    let mut found: Option<usize> = None;
    assert(visible@.take(0) =~= Seq::<usize>::empty());
    while i < visible.len()
        invariant
            i <= visible.len(),
            found matches Some(k) ==> k < i && position_of(visible@.take(i as int), r) == Some(k as int),
            found is None ==> position_of(visible@.take(i as int), r) is None,
        decreases visible.len() - i,
    {
        assert(visible@.take(i + 1).drop_last() =~= visible@.take(i as int));
        if found.is_none() && visible[i] == r {
            found = Some(i);
        }
        i = i + 1;
    }
    assert(visible@.take(visible.len() as int) =~= visible@);
    found
}

/// The cell selected after a key press (see `cell_after_key`); `None` when
/// the key does not move the selection.
pub fn grid_key(key: &str, visible: &Vec<usize>, r: usize, c: usize, num_cols: usize) -> (next: Option<(usize, usize)>)
    requires
        key@ == "ArrowRight"@ ==> c < usize::MAX,
    ensures
        next == cell_after_key(key@, visible@, r, c, num_cols),
{
    if crate::text::str_eq(key, "ArrowUp") {
        match position(visible, r) {
            Some(p) => Some((visible[if p >= 1 { p - 1 } else { 0 }], c)),
            None => None,
        }
    } else if crate::text::str_eq(key, "ArrowDown") {
        match position(visible, r) {
            Some(p) => {
                let q = if p + 1 <= visible.len() - 1 { p + 1 } else { visible.len() - 1 };
                Some((visible[q], c))
            },
            None => None,
        }
    } else if crate::text::str_eq(key, "ArrowLeft") {
        Some((r, if c >= 1 { c - 1 } else { 0 }))
    } else if crate::text::str_eq(key, "ArrowRight") {
        Some((r, if num_cols == 0 { 0 } else if c + 1 <= num_cols - 1 { c + 1 } else { num_cols - 1 }))
    } else {
        None
    }
}

// ───────────────────────────── header and cell classes ─────────────────────────────

/// The class of a column-letter header: open dropdown first, then an
/// active filter.
pub fn letter_class(has_filter: bool, is_open: bool) -> (s: &'static str)
    ensures
        s@ == (if is_open {
            "vr-th-letter vr-th-letter--open"@
        } else if has_filter {
            "vr-th-letter vr-th-letter--active"@
        } else {
            "vr-th-letter"@
        }),
{
    if is_open {
        "vr-th-letter vr-th-letter--open"
    } else if has_filter {
        "vr-th-letter vr-th-letter--active"
    } else {
        "vr-th-letter"
    }
}

/// The class of a data cell given the selected cell: the cell itself, its
/// row, its column, or none of them.
pub fn cell_class(selected: Option<(usize, usize)>, row: usize, col: usize) -> (s: &'static str)
    ensures
        s@ == (match selected {
            Some((r, c)) => if r == row && c == col {
                "vr-td selected"@
            } else if r == row {
                "vr-td selected-row"@
            } else if c == col {
                "vr-td selected-col"@
            } else {
                "vr-td"@
            },
            None => "vr-td"@,
        }),
{
    match selected {
        Some((r, c)) => {
            if r == row && c == col {
                "vr-td selected"
            } else if r == row {
                "vr-td selected-row"
            } else if c == col {
                "vr-td selected-col"
            } else {
                "vr-td"
            }
        },
        None => "vr-td",
    }
}


// ───────────────────────────── the data window ─────────────────────────────

/// The character sequences of (name, columns, rows) tables.
pub open spec fn table_views(t: Seq<(String, Vec<String>, Vec<Vec<String>>)>) -> Seq<(Seq<char>, Seq<Seq<char>>, Seq<Seq<Seq<char>>>)> {
    Seq::new(t.len(), |i: int| (t[i].0@, strs(t[i].1@), row_views(t[i].2@)))
}

/// The JSON text of the tables as `[{"columns":[..],"name":..,"rows":[[..]]}, ..]`.
pub uninterp spec fn tables_json_text(tables: Seq<(Seq<char>, Seq<Seq<char>>, Seq<Seq<Seq<char>>>)>) -> Seq<char>;

/// Serialises the tables for the data window (`serde_json::to_string` of an
/// array of objects with the members `name`, `columns` and `rows`; the text
/// is a function of the tables alone, its members written in key order).
#[verifier::external_body]
fn tables_json(tables: &[(String, Vec<String>, Vec<Vec<String>>)]) -> (r: String)
    ensures
        r@ == tables_json_text(table_views(tables@)),
{
    let items: Vec<serde_json::Value> = tables.iter().map(|(name, cols, rows)| {
        let mut m = serde_json::Map::new();
        m.insert("name".to_string(), serde_json::Value::from(name.clone()));
        m.insert("columns".to_string(), serde_json::Value::from(cols.clone()));
        m.insert("rows".to_string(), serde_json::Value::from(rows.clone()));
        serde_json::Value::Object(m)
    }).collect();
    serde_json::to_string(&serde_json::Value::Array(items)).unwrap_or_default()
}

pub open spec fn window_head() -> Seq<char> {
    "<!DOCTYPE html>\n<html><head><meta charset=\"utf-8\"><title>Data Preview</title>\n<style>\n*{box-sizing:border-box}\nbody{margin:0;padding:0;background:#141414;color:#c0c0c0;\nfont-family:-apple-system,BlinkMacSystemFont,\"Segoe UI\",Roboto,sans-serif;\ndisplay:flex;flex-direction:column;height:100vh;overflow:hidden}\n.topbar{display:flex;align-items:center;padding:5px 10px;border-bottom:0.5px solid #2a2a2a;\nflex-shrink:0;gap:6px;background:#161616;overflow-x:auto}\n.tab{background:none;border:0.5px solid transparent;border-radius:4px;padding:3px 8px;\nfont-size:11px;color:#555;cursor:pointer;display:flex;align-items:center;gap:5px;white-space:nowrap}\n.tab:hover{color:#888;background:#1e1e1e}\n.tab.active{color:#c0c0c0;background:#1e1e1e;border-color:#333}\n.tab-count{background:#252525;border-radius:99px;padding:1px 5px;font-size:9px;color:#555}\n.tab.active .tab-count{color:#888}\n.pill{background:#1e1e1e;border:0.5px solid #333;border-radius:99px;padding:2px 8px;\nfont-size:10px;color:#666;flex-shrink:0;margin-left:auto}\n.table-wrap{flex:1;overflow:auto}\ntable{width:100%;border-collapse:collapse;table-layout:auto}\nth.lbl{background:#1a1a1a;padding:4px 7px;font-size:10px;font-weight:400;color:#444;\nborder-bottom:0.5px solid #2a2a2a;border-right:0.5px solid #222;text-align:center;\nposition:sticky;top:0;z-index:2}\nth.lbl.corner{background:#111}\nth.fld{background:#1a1a1a;padding:4px 7px;font-size:10px;font-weight:400;color:#666;\nborder-bottom:0.5px solid #282828;border-right:0.5px solid #222;text-align:left;\nwhite-space:nowrap;position:sticky;top:23px;z-index:2;cursor:pointer;user-select:none}\nth.fld:hover{color:#999;background:#1e1e1e}\nth.fld.sort-asc,th.fld.sort-desc{color:#9fe1cb}\ntd{padding:5px 7px;border-bottom:0.5px solid #1e1e1e;border-right:0.5px solid #1a1a1a;\nfont-size:11px;color:#c0c0c0;white-space:nowrap;overflow:hidden;text-overflow:ellipsis;max-width:160px}\ntd.rn{background:#181818;color:#333;font-size:10px;text-align:center;padding:5px 3px;\nborder-right:0.5px solid #222;width:28px;min-width:28px}\ntbody tr:hover td{background:#1c1c1c}\n</style>\n<script>\nvar TABLES="@
}

pub open spec fn window_script() -> Seq<char> {
    ";\nvar T=0,SC=null,SA=true;\nvar ROW_H=28,OVERSCAN=20,PENDING=false;\n\nfunction L(i){return i<26?String.fromCharCode(65+i):String.fromCharCode(64+Math.floor(i/26))+String.fromCharCode(65+(i%26));}\nfunction E(s){var v=s==null?'':String(s);return v.replace(/&/g,'&amp;').replace(/</g,'&lt;').replace(/>/g,'&gt;');}\n\nfunction render(){\n  var t=TABLES[T];\n  var rows=t.rows.slice();\n  if(SC!==null){\n    rows.sort(function(a,b){\n      var va=a[SC]==null?'':String(a[SC]);\n      var vb=b[SC]==null?'':String(b[SC]);\n      var na=parseFloat(va);\n      var nb=parseFloat(vb);\n      var c=(!isNaN(na)&&!isNaN(nb))?(na-nb):String(va).toLowerCase().localeCompare(String(vb).toLowerCase());\n      return SA?c:-c;\n    });\n  }\n\n  var wrap=document.getElementById('g');\n  var st=wrap.scrollTop;\n  var vh=wrap.clientHeight;\n  var total=rows.length;\n  var start=Math.max(0,Math.floor(st/ROW_H)-OVERSCAN);\n  var end=Math.min(total,Math.ceil((st+vh)/ROW_H)+OVERSCAN);\n\n  var h='<table><thead><tr><th class=\"lbl corner\"></th>';\n  for(var i=0;i<t.columns.length;i++){h+='<th class=\"lbl\">'+L(i)+'</th>';}\n  h+='</tr><tr><th class=\"lbl\" style=\"background:#111\"></th>';\n  for(var i=0;i<t.columns.length;i++){\n    var cls='fld'+(SC===i?(SA?' sort-asc':' sort-desc'):'');\n    var arr=SC===i?(SA?' \u{2191}':' \u{2193}'):'';\n    h+='<th class=\"'+cls+'\" data-ci=\"'+i+'\">'+E(t.columns[i])+arr+'</th>';\n  }\n  h+='</tr></thead><tbody>';\n\n  if(start>0){\n    h+='<tr style=\"height:'+(start*ROW_H)+'px\"><td colspan=\"'+(t.columns.length+1)+'\"></td></tr>';\n  }\n\n  for(var ri=start;ri<end;ri++){\n    h+='<tr><td class=\"rn\">'+(ri+1)+'</td>';\n    var row=rows[ri];\n    for(var ci=0;ci<t.columns.length;ci++){\n      h+='<td>'+E(row[ci])+'</td>';\n    }\n    h+='</tr>';\n  }\n\n  if(end<total){\n    h+='<tr style=\"height:'+((total-end)*ROW_H)+'px\"><td colspan=\"'+(t.columns.length+1)+'\"></td></tr>';\n  }\n\n  h+='</tbody></table>';\n  wrap.innerHTML=h;\n  document.getElementById('rc').textContent=total+' rows';\n}\n\nfunction sw(i){T=i;SC=null;SA=true;updateTabs();render();}\nfunction updateTabs(){var tabs=document.querySelectorAll('.tab');for(var j=0;j<tabs.length;j++){tabs[j].classList.toggle('active',j===T);}}\nfunction srt(ci){if(SC===ci){if(SA){SA=false;}else{SC=null;SA=true;}}else{SC=ci;SA=true;}render();}\n\ndocument.addEventListener('DOMContentLoaded',function(){\n  render();\n  document.getElementById('g').addEventListener('click',function(e){\n    var th=e.target.closest('th');\n    if(th&&th.hasAttribute('data-ci')){srt(parseInt(th.getAttribute('data-ci'),10));}\n  });\n  document.getElementById('g').addEventListener('scroll',function(){\n    if(!PENDING){\n      PENDING=true;\n      requestAnimationFrame(function(){PENDING=false;render();});\n    }\n  });\n  document.querySelector('.topbar').addEventListener('click',function(e){\n    var btn=e.target.closest('button');\n    if(btn&&btn.hasAttribute('data-ti')){sw(parseInt(btn.getAttribute('data-ti'),10));}\n  });\n});\n</script></head><body>\n<div class=\"topbar\">\n"@
}

/// `&`, `<` and `>` escaped for HTML text.
pub open spec fn html_escaped(s: Seq<char>) -> Seq<char> {
    replace(replace(replace(s, "&"@, "&amp;"@), "<"@, "&lt;"@), ">"@, "&gt;"@)
}

/// The tab button of table `i`.
pub open spec fn table_tab(i: nat, name: Seq<char>, rows: nat) -> Seq<char> {
    "<button class=\"tab"@ + (if i == 0 { " active"@ } else { ""@ }) + "\" data-ti=\""@ + dec(i) + "\">"@
        + html_escaped(name) + "<span class=\"tab-count\">"@ + dec(rows) + "</span></button>"@
}

pub open spec fn tabs_from(t: Seq<(Seq<char>, Seq<Seq<char>>, Seq<Seq<Seq<char>>>)>, n: nat) -> Seq<char>
    decreases n,
{
    if n == 0 || n > t.len() {
        Seq::empty()
    } else {
        tabs_from(t, (n - 1) as nat) + table_tab((n - 1) as nat, t[n - 1].0, t[n - 1].2.len())
    }
}

/// The self-contained page of the data window: the styles and script with
/// the tables' JSON (any `</script>` in it written `<\/script>`), a tab per
/// table with its row count, and the row count of the first table.
pub open spec fn window_html(t: Seq<(Seq<char>, Seq<Seq<char>>, Seq<Seq<Seq<char>>>)>, json: Seq<char>) -> Seq<char> {
    window_head() + replace(json, "</script>"@, "<\\/script>"@) + window_script() + tabs_from(t, t.len())
        + "<span id=\"rc\" class=\"pill\">"@ + dec(if t.len() > 0 { t[0].2.len() } else { 0 })
        + " rows</span></div>\n<div id=\"g\" class=\"table-wrap\"></div></body></html>"@
}

/// Builds the data window page from the tables and their JSON text (see
/// `window_html`).
pub fn data_window_page(tables: &[(String, Vec<String>, Vec<Vec<String>>)], json: &str) -> (html: String)
    ensures
        html@ == window_html(table_views(tables@), json@),
{
    let ghost tv = table_views(tables@);
    let mut out = chars_of("<!DOCTYPE html>\n<html><head><meta charset=\"utf-8\"><title>Data Preview</title>\n<style>\n*{box-sizing:border-box}\nbody{margin:0;padding:0;background:#141414;color:#c0c0c0;\nfont-family:-apple-system,BlinkMacSystemFont,\"Segoe UI\",Roboto,sans-serif;\ndisplay:flex;flex-direction:column;height:100vh;overflow:hidden}\n.topbar{display:flex;align-items:center;padding:5px 10px;border-bottom:0.5px solid #2a2a2a;\nflex-shrink:0;gap:6px;background:#161616;overflow-x:auto}\n.tab{background:none;border:0.5px solid transparent;border-radius:4px;padding:3px 8px;\nfont-size:11px;color:#555;cursor:pointer;display:flex;align-items:center;gap:5px;white-space:nowrap}\n.tab:hover{color:#888;background:#1e1e1e}\n.tab.active{color:#c0c0c0;background:#1e1e1e;border-color:#333}\n.tab-count{background:#252525;border-radius:99px;padding:1px 5px;font-size:9px;color:#555}\n.tab.active .tab-count{color:#888}\n.pill{background:#1e1e1e;border:0.5px solid #333;border-radius:99px;padding:2px 8px;\nfont-size:10px;color:#666;flex-shrink:0;margin-left:auto}\n.table-wrap{flex:1;overflow:auto}\ntable{width:100%;border-collapse:collapse;table-layout:auto}\nth.lbl{background:#1a1a1a;padding:4px 7px;font-size:10px;font-weight:400;color:#444;\nborder-bottom:0.5px solid #2a2a2a;border-right:0.5px solid #222;text-align:center;\nposition:sticky;top:0;z-index:2}\nth.lbl.corner{background:#111}\nth.fld{background:#1a1a1a;padding:4px 7px;font-size:10px;font-weight:400;color:#666;\nborder-bottom:0.5px solid #282828;border-right:0.5px solid #222;text-align:left;\nwhite-space:nowrap;position:sticky;top:23px;z-index:2;cursor:pointer;user-select:none}\nth.fld:hover{color:#999;background:#1e1e1e}\nth.fld.sort-asc,th.fld.sort-desc{color:#9fe1cb}\ntd{padding:5px 7px;border-bottom:0.5px solid #1e1e1e;border-right:0.5px solid #1a1a1a;\nfont-size:11px;color:#c0c0c0;white-space:nowrap;overflow:hidden;text-overflow:ellipsis;max-width:160px}\ntd.rn{background:#181818;color:#333;font-size:10px;text-align:center;padding:5px 3px;\nborder-right:0.5px solid #222;width:28px;min-width:28px}\ntbody tr:hover td{background:#1c1c1c}\n</style>\n<script>\nvar TABLES=");
    let jv = chars_of(json);
    proof {
        reveal_strlit("</script>");
    }
    let safe_json = replace_str(jv.as_slice(), "</script>", "<\\/script>");
    extend_chars(&mut out, safe_json.as_slice());
    extend_str(&mut out, ";\nvar T=0,SC=null,SA=true;\nvar ROW_H=28,OVERSCAN=20,PENDING=false;\n\nfunction L(i){return i<26?String.fromCharCode(65+i):String.fromCharCode(64+Math.floor(i/26))+String.fromCharCode(65+(i%26));}\nfunction E(s){var v=s==null?'':String(s);return v.replace(/&/g,'&amp;').replace(/</g,'&lt;').replace(/>/g,'&gt;');}\n\nfunction render(){\n  var t=TABLES[T];\n  var rows=t.rows.slice();\n  if(SC!==null){\n    rows.sort(function(a,b){\n      var va=a[SC]==null?'':String(a[SC]);\n      var vb=b[SC]==null?'':String(b[SC]);\n      var na=parseFloat(va);\n      var nb=parseFloat(vb);\n      var c=(!isNaN(na)&&!isNaN(nb))?(na-nb):String(va).toLowerCase().localeCompare(String(vb).toLowerCase());\n      return SA?c:-c;\n    });\n  }\n\n  var wrap=document.getElementById('g');\n  var st=wrap.scrollTop;\n  var vh=wrap.clientHeight;\n  var total=rows.length;\n  var start=Math.max(0,Math.floor(st/ROW_H)-OVERSCAN);\n  var end=Math.min(total,Math.ceil((st+vh)/ROW_H)+OVERSCAN);\n\n  var h='<table><thead><tr><th class=\"lbl corner\"></th>';\n  for(var i=0;i<t.columns.length;i++){h+='<th class=\"lbl\">'+L(i)+'</th>';}\n  h+='</tr><tr><th class=\"lbl\" style=\"background:#111\"></th>';\n  for(var i=0;i<t.columns.length;i++){\n    var cls='fld'+(SC===i?(SA?' sort-asc':' sort-desc'):'');\n    var arr=SC===i?(SA?' \u{2191}':' \u{2193}'):'';\n    h+='<th class=\"'+cls+'\" data-ci=\"'+i+'\">'+E(t.columns[i])+arr+'</th>';\n  }\n  h+='</tr></thead><tbody>';\n\n  if(start>0){\n    h+='<tr style=\"height:'+(start*ROW_H)+'px\"><td colspan=\"'+(t.columns.length+1)+'\"></td></tr>';\n  }\n\n  for(var ri=start;ri<end;ri++){\n    h+='<tr><td class=\"rn\">'+(ri+1)+'</td>';\n    var row=rows[ri];\n    for(var ci=0;ci<t.columns.length;ci++){\n      h+='<td>'+E(row[ci])+'</td>';\n    }\n    h+='</tr>';\n  }\n\n  if(end<total){\n    h+='<tr style=\"height:'+((total-end)*ROW_H)+'px\"><td colspan=\"'+(t.columns.length+1)+'\"></td></tr>';\n  }\n\n  h+='</tbody></table>';\n  wrap.innerHTML=h;\n  document.getElementById('rc').textContent=total+' rows';\n}\n\nfunction sw(i){T=i;SC=null;SA=true;updateTabs();render();}\nfunction updateTabs(){var tabs=document.querySelectorAll('.tab');for(var j=0;j<tabs.length;j++){tabs[j].classList.toggle('active',j===T);}}\nfunction srt(ci){if(SC===ci){if(SA){SA=false;}else{SC=null;SA=true;}}else{SC=ci;SA=true;}render();}\n\ndocument.addEventListener('DOMContentLoaded',function(){\n  render();\n  document.getElementById('g').addEventListener('click',function(e){\n    var th=e.target.closest('th');\n    if(th&&th.hasAttribute('data-ci')){srt(parseInt(th.getAttribute('data-ci'),10));}\n  });\n  document.getElementById('g').addEventListener('scroll',function(){\n    if(!PENDING){\n      PENDING=true;\n      requestAnimationFrame(function(){PENDING=false;render();});\n    }\n  });\n  document.querySelector('.topbar').addEventListener('click',function(e){\n    var btn=e.target.closest('button');\n    if(btn&&btn.hasAttribute('data-ti')){sw(parseInt(btn.getAttribute('data-ti'),10));}\n  });\n});\n</script></head><body>\n<div class=\"topbar\">\n");
    let ghost head = out@;
    let mut i: usize = 0;
    while i < tables.len()
        invariant
            i <= tables.len(),
            tv == table_views(tables@),
            out@ == head + tabs_from(tv, i as nat),
        decreases tables.len() - i,
    {
        let ghost prev = out@;
        proof {
            reveal_strlit("&");
            reveal_strlit("<");
            reveal_strlit(">");
        }
        let n = chars_of(tables[i].0.as_str());
        let a = replace_str(n.as_slice(), "&", "&amp;");
        let b = replace_str(a.as_slice(), "<", "&lt;");
        let c = replace_str(b.as_slice(), ">", "&gt;");
        extend_str(&mut out, "<button class=\"tab");
        if i == 0 {
            extend_str(&mut out, " active");
        } else {
            extend_str(&mut out, "");
        }
        extend_str(&mut out, "\" data-ti=\"");
        let iv = fmt_usize(i);
        extend_chars(&mut out, iv.as_slice());
        extend_str(&mut out, "\">");
        extend_chars(&mut out, c.as_slice());
        extend_str(&mut out, "<span class=\"tab-count\">");
        let rc = fmt_usize(tables[i].2.len());
        extend_chars(&mut out, rc.as_slice());
        extend_str(&mut out, "</span></button>");
        proof {
            assert(tv[i as int].0 == tables@[i as int].0@);
            assert(tv[i as int].2.len() == tables@[i as int].2@.len());
            assert(out@ =~= prev + table_tab(i as nat, tv[i as int].0, tv[i as int].2.len()));
        }
        i = i + 1;
    }
    extend_str(&mut out, "<span id=\"rc\" class=\"pill\">");
    let first_n: usize = if tables.len() > 0 { tables[0].2.len() } else { 0 };
    let fv = fmt_usize(first_n);
    extend_chars(&mut out, fv.as_slice());
    extend_str(&mut out, " rows</span></div>\n<div id=\"g\" class=\"table-wrap\"></div></body></html>");
    proof {
        assert(first_n == (if tv.len() > 0 { tv[0].2.len() } else { 0 }));
    }
    string_of(out.as_slice())
}

/// Builds the self-contained interactive page that shows the tables in a
/// separate window.
pub fn build_data_window_html(tables: &[(String, Vec<String>, Vec<Vec<String>>)]) -> (html: String)
    ensures
        html@ == window_html(table_views(tables@), tables_json_text(table_views(tables@))),
{
    let json = tables_json(tables);
    data_window_page(tables, json.as_str())
}

} // verus!
