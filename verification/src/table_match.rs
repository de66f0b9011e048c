//! Choosing the real table that an invented table name most likely meant.
use vstd::prelude::*;
use crate::keywords::{keep_long_lower, long_lower};
use crate::model::{strs, SessionSchema};
use crate::repair::{cols_used_chars, cols_used_model};
use crate::seqs::{
    first_max_positive, lemma_flatten_empty, lemma_flatten_step, lemma_sum_prefix_le,
    lemma_sum_step, sum_of,
};
use crate::text::{
    chars_of, contains_chars, has_sub, seqs_of, split, split_chars, utf8_len, utf8_len_at_least,
};
use crate::unicode::{eq_ignore_ascii_case, eq_ignore_case_chars, lower_chars, lowercase};

verus! {

/// The words of at least `min` bytes, in order.
pub open spec fn long_words(ws: Seq<Seq<char>>, min: nat) -> Seq<Seq<char>>
    decreases ws.len(),
{
    if ws.len() == 0 {
        Seq::empty()
    } else {
        let p = long_words(ws.drop_last(), min);
        if utf8_len(ws.last()) >= min {
            p.push(ws.last())
        } else {
            p
        }
    }
}

/// Keywords of an invented table name: its lowercase `_`-separated parts of
/// at least four bytes.
pub open spec fn name_keywords(invented: Seq<char>) -> Seq<Seq<char>> {
    long_words(split(lowercase(invented), "_"@), 4)
}

/// Keywords of the columns used with the invented table: the `_`-separated
/// parts of at least four bytes of each column, lowercased.
pub open spec fn used_col_keywords(used: Seq<Seq<char>>) -> Seq<Seq<char>> {
    used.map_values(|c: Seq<char>| long_lower(split(c, "_"@), 4)).flatten()
}

/// Some lowercase column name contains `kw`.
pub open spec fn any_col_contains(cols: Seq<Seq<char>>, kw: Seq<char>) -> bool {
    exists|j: int| 0 <= j < cols.len() && has_sub(lowercase(cols[j]), kw)
}

/// Some column name equals `c`, ignoring ASCII case.
pub open spec fn any_col_eq(cols: Seq<Seq<char>>, c: Seq<char>) -> bool {
    exists|j: int| 0 <= j < cols.len() && eq_ignore_ascii_case(cols[j], c)
}

/// Columns found in nearly every table, which count for little.
pub open spec fn is_generic_col(c: Seq<char>) -> bool {
    eq_ignore_ascii_case(c, "id"@) || eq_ignore_ascii_case(c, "policy_id"@) || eq_ignore_ascii_case(
        c,
        "policyholder_id"@,
    ) || eq_ignore_ascii_case(c, "name"@) || eq_ignore_ascii_case(c, "date"@) || eq_ignore_ascii_case(
        c,
        "ref"@,
    ) || eq_ignore_ascii_case(c, "record_id"@) || eq_ignore_ascii_case(c, "row_id"@)
        || eq_ignore_ascii_case(c, "entry_id"@)
}

/// Points of a name keyword: 10 in the lowercase table name, 5 in some column.
pub open spec fn name_kw_points(s: SessionSchema) -> spec_fn(Seq<char>) -> int {
    |kw: Seq<char>|
        (if has_sub(lowercase(s.table_name@), kw) {
            10int
        } else {
            0int
        }) + (if any_col_contains(strs(s.columns@), kw) {
            5int
        } else {
            0int
        })
}

/// Points of a column keyword: 4 if some column contains it.
pub open spec fn col_kw_points(s: SessionSchema) -> spec_fn(Seq<char>) -> int {
    |kw: Seq<char>|
        if any_col_contains(strs(s.columns@), kw) {
            4int
        } else {
            0int
        }
}

/// Points of a used column the table really has: 1 if generic, else 6.
pub open spec fn used_points(s: SessionSchema) -> spec_fn(Seq<char>) -> int {
    |c: Seq<char>|
        if any_col_eq(strs(s.columns@), c) {
            if is_generic_col(c) {
                1int
            } else {
                6int
            }
        } else {
            0int
        }
}

/// The score of a real table for an invented one.
pub open spec fn match_score(kws: Seq<Seq<char>>, ck: Seq<Seq<char>>, used: Seq<Seq<char>>, s: SessionSchema) -> int {
    sum_of(kws, name_kw_points(s)) + sum_of(ck, col_kw_points(s)) + sum_of(used, used_points(s))
}

/// The scores of all tables for an invented name used in a script.
pub open spec fn match_scores(invented: Seq<char>, used: Seq<Seq<char>>, schemas: Seq<SessionSchema>) -> Seq<int> {
    schemas.map_values(
        |s: SessionSchema| match_score(name_keywords(invented), used_col_keywords(used), used, s),
    )
}

/// The index of the best matching real table (the first of the highest
/// positive scores), or `Some(None)` when no table scores; `None` where the
/// columns used with the invented name cannot be read (see
/// `cols_used_model`) or a score exceeds `i32::MAX`.
pub open spec fn best_table_model(invented: Seq<char>, script: Seq<char>, schemas: Seq<SessionSchema>) -> Option<Option<int>> {
    match cols_used_model(script, invented) {
        None => None,
        Some(used) => {
            let scores = match_scores(invented, used, schemas);
            if forall|k: int| 0 <= k < scores.len() ==> scores[k] <= i32::MAX {
                Some(first_max_positive(scores))
            } else {
                None
            }
        },
    }
}

fn long_words_exec(ws: &Vec<Vec<char>>, min: usize) -> (r: Vec<Vec<char>>)
    ensures
        seqs_of(r@) == long_words(seqs_of(ws@), min as nat),
{
    let mut r: Vec<Vec<char>> = Vec::new();
    let mut i: usize = 0;
    assert(seqs_of(ws@).take(0) =~= Seq::<Seq<char>>::empty());
    while i < ws.len()
        invariant
            i <= ws.len(),
            seqs_of(r@) == long_words(seqs_of(ws@).take(i as int), min as nat),
        decreases ws.len() - i,
    {
        proof {
            assert(seqs_of(ws@).take(i + 1).drop_last() =~= seqs_of(ws@).take(i as int));
            assert(seqs_of(ws@).take(i + 1).last() == ws@[i as int]@);
        }
        if utf8_len_at_least(ws[i].as_slice(), min) {
            let w = crate::text::slice_range(ws[i].as_slice(), 0, ws[i].len());
            let ghost prev = seqs_of(r@);
            assert(w@ =~= ws@[i as int]@);
            r.push(w);
            assert(seqs_of(r@) =~= prev.push(ws@[i as int]@));
        }
        i = i + 1;
    }
    assert(seqs_of(ws@).take(ws.len() as int) =~= seqs_of(ws@));
    r
}

fn underscore() -> (v: Vec<char>)
    ensures
        v@ == "_"@,
        v.len() > 0,
{
    proof {
        reveal_strlit("_");
    }
    chars_of("_")
}

fn col_keywords_exec(used: &Vec<Vec<char>>) -> (r: Vec<Vec<char>>)
    ensures
        seqs_of(r@) == used_col_keywords(seqs_of(used@)),
{
    let ghost f = |c: Seq<char>| long_lower(split(c, "_"@), 4);
    let us = underscore();
    let mut r: Vec<Vec<char>> = Vec::new();
    proof {
        lemma_flatten_empty(seqs_of(used@), f);
    }
    let mut i: usize = 0;
    while i < used.len()
        invariant
            i <= used.len(),
            us@ == "_"@,
            us.len() > 0,
            f == (|c: Seq<char>| long_lower(split(c, "_"@), 4)),
            seqs_of(r@) == seqs_of(used@).take(i as int).map_values(f).flatten(),
        decreases used.len() - i,
    {
        let parts = split_chars(used[i].as_slice(), us.as_slice());
        let mut kws = keep_long_lower(parts.as_slice(), 4);
        let ghost prev = seqs_of(r@);
        let ghost add = seqs_of(kws@);
        r.append(&mut kws);
        proof {
            assert(seqs_of(r@) =~= prev + add);
            assert(f(seqs_of(used@)[i as int]) == add);
            lemma_flatten_step(seqs_of(used@), f, i as int);
        }
        i = i + 1;
    }
    assert(seqs_of(used@).take(used.len() as int) =~= seqs_of(used@));
    r
}

pub(crate) fn any_contains(lcols: &Vec<Vec<char>>, kw: &[char], cols: Ghost<Seq<Seq<char>>>) -> (b: bool)
    requires
        lcols.len() == cols@.len(),
        forall|j: int| 0 <= j < cols@.len() ==> lcols@[j]@ == lowercase(cols@[j]),
    ensures
        b == any_col_contains(cols@, kw@),
{
    let mut j: usize = 0;
    while j < lcols.len()
        invariant
            j <= lcols.len(),
            lcols.len() == cols@.len(),
            forall|m: int| 0 <= m < cols@.len() ==> lcols@[m]@ == lowercase(cols@[m]),
            forall|m: int| 0 <= m < j ==> !has_sub(lowercase(cols@[m]), kw@),
        decreases lcols.len() - j,
    {
        if contains_chars(lcols[j].as_slice(), kw) {
            assert(has_sub(lowercase(cols@[j as int]), kw@));
            return true;
        }
        j = j + 1;
    }
    false
}

pub(crate) fn any_eq(cols: &Vec<String>, c: &[char]) -> (b: bool)
    ensures
        b == any_col_eq(strs(cols@), c@),
{
    let mut j: usize = 0;
    while j < cols.len()
        invariant
            j <= cols.len(),
            forall|m: int| 0 <= m < j ==> !eq_ignore_ascii_case(strs(cols@)[m], c@),
        decreases cols.len() - j,
    {
        let cv = chars_of(cols[j].as_str());
        if eq_ignore_case_chars(cv.as_slice(), c) {
            assert(eq_ignore_ascii_case(strs(cols@)[j as int], c@));
            return true;
        }
        j = j + 1;
    }
    false
}

fn eq_lit(c: &[char], lit: &str) -> (b: bool)
    ensures
        b == eq_ignore_ascii_case(c@, lit@),
{
    let l = chars_of(lit);
    eq_ignore_case_chars(c, l.as_slice())
}

fn generic_col(c: &[char]) -> (b: bool)
    ensures
        b == is_generic_col(c@),
{
    eq_lit(c, "id") || eq_lit(c, "policy_id") || eq_lit(c, "policyholder_id") || eq_lit(c, "name")
        || eq_lit(c, "date") || eq_lit(c, "ref") || eq_lit(c, "record_id") || eq_lit(c, "row_id")
        || eq_lit(c, "entry_id")
}

/// The score of one table, or `None` if it exceeds `i32::MAX`.
fn score_one(kws: &Vec<Vec<char>>, ck: &Vec<Vec<char>>, used: &Vec<Vec<char>>, s: &SessionSchema) -> (r: Option<u64>)
    ensures
        r matches Some(v) ==> v == match_score(seqs_of(kws@), seqs_of(ck@), seqs_of(used@), *s) && v <= i32::MAX,
        r is None ==> match_score(seqs_of(kws@), seqs_of(ck@), seqs_of(used@), *s) > i32::MAX,
{
    let ghost cols = strs(s.columns@);
    let tn = chars_of(s.table_name.as_str());
    let tl = lower_chars(tn.as_slice());
    let mut lcols: Vec<Vec<char>> = Vec::new();
    let mut j: usize = 0;
    while j < s.columns.len()
        invariant
            j <= s.columns.len(),
            cols == strs(s.columns@),
            lcols.len() == j,
            forall|m: int| 0 <= m < j ==> lcols@[m]@ == lowercase(cols[m]),
        decreases s.columns.len() - j,
    {
        let cv = chars_of(s.columns[j].as_str());
        let lv = lower_chars(cv.as_slice());
        lcols.push(lv);
        j = j + 1;
    }
    let ghost fa = name_kw_points(*s);
    let ghost fb = col_kw_points(*s);
    let ghost fc = used_points(*s);
    let ghost a_all = sum_of(seqs_of(kws@), fa);
    let ghost b_all = sum_of(seqs_of(ck@), fb);
    let ghost c_all = sum_of(seqs_of(used@), fc);
    proof {
        assert(seqs_of(kws@).take(0) =~= Seq::<Seq<char>>::empty());
        assert(seqs_of(ck@).take(0) =~= Seq::<Seq<char>>::empty());
        assert(seqs_of(used@).take(0) =~= Seq::<Seq<char>>::empty());
        assert forall|k: int| 0 <= k < seqs_of(kws@).len() implies fa(#[trigger] seqs_of(kws@)[k]) >= 0 by {}
        assert forall|k: int| 0 <= k < seqs_of(ck@).len() implies fb(#[trigger] seqs_of(ck@)[k]) >= 0 by {}
        assert forall|k: int| 0 <= k < seqs_of(used@).len() implies fc(#[trigger] seqs_of(used@)[k]) >= 0 by {}
        lemma_sum_prefix_le(seqs_of(ck@), fb, 0);
        lemma_sum_prefix_le(seqs_of(used@), fc, 0);
        lemma_sum_prefix_le(seqs_of(kws@), fa, seqs_of(kws@).len() as int);
        lemma_sum_prefix_le(seqs_of(ck@), fb, seqs_of(ck@).len() as int);
        assert(seqs_of(kws@).take(seqs_of(kws@).len() as int) =~= seqs_of(kws@));
        assert(seqs_of(ck@).take(seqs_of(ck@).len() as int) =~= seqs_of(ck@));
    }
    let mut sc: u64 = 0;
    let mut i: usize = 0;
    while i < kws.len()
        invariant
            i <= kws.len(),
            cols == strs(s.columns@),
            lcols.len() == cols.len(),
            forall|m: int| 0 <= m < cols.len() ==> lcols@[m]@ == lowercase(cols[m]),
            tl@ == lowercase(s.table_name@),
            fa == name_kw_points(*s),
            a_all == sum_of(seqs_of(kws@), fa),
            forall|k: int| 0 <= k < seqs_of(kws@).len() ==> fa(#[trigger] seqs_of(kws@)[k]) >= 0,
            sc == sum_of(seqs_of(kws@).take(i as int), fa),
            sc <= i32::MAX,
            b_all >= 0,
            c_all >= 0,
            match_score(seqs_of(kws@), seqs_of(ck@), seqs_of(used@), *s) == a_all + b_all + c_all,
        decreases kws.len() - i,
    {
        let mut add: u64 = 0;
        if contains_chars(tl.as_slice(), kws[i].as_slice()) {
            add = add + 10;
        }
        if any_contains(&lcols, kws[i].as_slice(), Ghost(cols)) {
            add = add + 5;
        }
        proof {
            lemma_sum_step(seqs_of(kws@), fa, i as int);
            assert(seqs_of(kws@)[i as int] == kws@[i as int]@);
            lemma_sum_prefix_le(seqs_of(kws@), fa, i + 1);
        }
        sc = sc + add;
        i = i + 1;
        if sc > 2147483647 {
            return None;
        }
    }
    assert(seqs_of(kws@).take(kws.len() as int) =~= seqs_of(kws@));
    let ghost base = sc as int;
    let mut i: usize = 0;
    while i < ck.len()
        invariant
            i <= ck.len(),
            cols == strs(s.columns@),
            lcols.len() == cols.len(),
            forall|m: int| 0 <= m < cols.len() ==> lcols@[m]@ == lowercase(cols[m]),
            fb == col_kw_points(*s),
            b_all == sum_of(seqs_of(ck@), fb),
            forall|k: int| 0 <= k < seqs_of(ck@).len() ==> fb(#[trigger] seqs_of(ck@)[k]) >= 0,
            base == a_all,
            sc == base + sum_of(seqs_of(ck@).take(i as int), fb),
            sc <= i32::MAX,
            c_all >= 0,
            match_score(seqs_of(kws@), seqs_of(ck@), seqs_of(used@), *s) == a_all + b_all + c_all,
        decreases ck.len() - i,
    {
        let mut add: u64 = 0;
        if any_contains(&lcols, ck[i].as_slice(), Ghost(cols)) {
            add = 4;
        }
        proof {
            lemma_sum_step(seqs_of(ck@), fb, i as int);
            assert(seqs_of(ck@)[i as int] == ck@[i as int]@);
            lemma_sum_prefix_le(seqs_of(ck@), fb, i + 1);
        }
        sc = sc + add;
        i = i + 1;
        if sc > 2147483647 {
            return None;
        }
    }
    assert(seqs_of(ck@).take(ck.len() as int) =~= seqs_of(ck@));
    let ghost base2 = sc as int;
    let mut i: usize = 0;
    while i < used.len()
        invariant
            i <= used.len(),
            fc == used_points(*s),
            c_all == sum_of(seqs_of(used@), fc),
            forall|k: int| 0 <= k < seqs_of(used@).len() ==> fc(#[trigger] seqs_of(used@)[k]) >= 0,
            base2 == a_all + b_all,
            sc == base2 + sum_of(seqs_of(used@).take(i as int), fc),
            sc <= i32::MAX,
            match_score(seqs_of(kws@), seqs_of(ck@), seqs_of(used@), *s) == a_all + b_all + c_all,
        decreases used.len() - i,
    {
        let mut add: u64 = 0;
        if any_eq(&s.columns, used[i].as_slice()) {
            if generic_col(used[i].as_slice()) {
                add = 1;
            } else {
                add = 6;
            }
        }
        proof {
            lemma_sum_step(seqs_of(used@), fc, i as int);
            assert(seqs_of(used@)[i as int] == used@[i as int]@);
            lemma_sum_prefix_le(seqs_of(used@), fc, i + 1);
        }
        sc = sc + add;
        i = i + 1;
        if sc > 2147483647 {
            return None;
        }
    }
    assert(seqs_of(used@).take(used.len() as int) =~= seqs_of(used@));
    Some(sc)
}

pub(crate) fn best_table_index(invented: &[char], script: &[char], schemas: &[SessionSchema]) -> (r: Option<Option<usize>>)
    ensures
        r matches Some(Some(k)) ==> k < schemas.len() && best_table_model(invented@, script@, schemas@) == Some(Some(k as int)),
        r matches Some(None) ==> best_table_model(invented@, script@, schemas@) == Some(None::<int>),
        r is None ==> best_table_model(invented@, script@, schemas@) is None,
{
    let used = match cols_used_chars(script, invented) {
        Some(u) => u,
        None => return None,
    };
    let il = lower_chars(invented);
    let us = underscore();
    let parts = split_chars(il.as_slice(), us.as_slice());
    let kws = long_words_exec(&parts, 4);
    let ck = col_keywords_exec(&used);
    let ghost scores = match_scores(invented@, seqs_of(used@), schemas@);
    let mut best: Option<usize> = None;
    let mut best_score: u64 = 0;
    let mut k: usize = 0;
    assert(scores.take(0) =~= Seq::<int>::empty());
    while k < schemas.len()
        invariant
            k <= schemas.len(),
            seqs_of(kws@) == name_keywords(invented@),
            seqs_of(ck@) == used_col_keywords(seqs_of(used@)),
            cols_used_model(script@, invented@) == Some(seqs_of(used@)),
            scores == match_scores(invented@, seqs_of(used@), schemas@),
            forall|m: int| 0 <= m < k ==> scores[m] <= i32::MAX,
            best matches Some(b) ==> b < k && best_score == scores[b as int] && first_max_positive(scores.take(k as int)) == Some(b as int),
            best is None ==> first_max_positive(scores.take(k as int)) is None,
        decreases schemas.len() - k,
    {
        let sc = match score_one(&kws, &ck, &used, &schemas[k]) {
            Some(v) => v,
            None => {
                assert(scores[k as int] > i32::MAX);
                assert(cols_used_model(script@, invented@) == Some(seqs_of(used@)));
                assert(!(forall|m: int| 0 <= m < scores.len() ==> scores[m] <= i32::MAX));
                return None;
            },
        };
        proof {
            assert(scores.take(k + 1).drop_last() =~= scores.take(k as int));
            assert(scores.take(k + 1)[k as int] == scores[k as int]);
        }
        let better = match best {
            None => sc > 0,
            Some(_) => sc > 0 && sc > best_score,
        };
        if better {
            best = Some(k);
            best_score = sc;
        }
        k = k + 1;
    }
    assert(scores.take(schemas.len() as int) =~= scores);
    Some(best)
}

/// The real table that an invented table name most likely meant: the first
/// table with the highest positive keyword score (`Some(None)` when none
/// scores); `None` where the columns used with the invented name cannot be
/// read or a score exceeds `i32::MAX`.
pub fn best_table_match<'a>(invented: &str, script: &str, schemas: &'a [SessionSchema]) -> (r: Option<Option<&'a str>>)
    ensures
        r matches Some(Some(name)) ==> exists|k: int|
            0 <= k < schemas.len() && best_table_model(invented@, script@, schemas@) == Some(Some(k))
                && name@ == schemas@[k].table_name@,
        r matches Some(None) ==> best_table_model(invented@, script@, schemas@) == Some(None::<int>),
        r is None ==> best_table_model(invented@, script@, schemas@) is None,
{
    let iv = chars_of(invented);
    let sv = chars_of(script);
    match best_table_index(iv.as_slice(), sv.as_slice(), schemas) {
        None => None,
        Some(None) => Some(None),
        Some(Some(k)) => Some(Some(schemas[k].table_name.as_str())),
    }
}

} // verus!
