//! The deterministic repair passes applied to generated DSL scripts before
//! the model is asked to fix what is left: invented table names, columns
//! written against the wrong table, and lines that cannot be saved.
//!
//! The validator reports problems as text: `unknown table 'T' ...` and
//! `unknown column 'C' in table 'T'`.
use vstd::prelude::*;
use crate::model::{strs, SessionSchema};
use crate::order::{insert_sorted, lemma_push_to_set, lemma_sort_dedup_is, sort_dedup, strictly_sorted};
use crate::repair::{replace_table_chars, replace_table_model, rewrite_col_ref_chars, rewrite_col_ref_model};
use crate::seqs::{first_index, first_index_from, lemma_first_index_from};
use crate::table_match::{any_col_contains, any_col_eq, any_contains, any_eq, best_table_index, best_table_model};
use crate::keywords::{long_lower, text_keywords};
use crate::plan_prompt::last_max_positive;
use crate::seqs::sum_of;
use crate::text::{chars_of, find, find_chars, has_sub, matches_at, split, join, lines, lemma_find_from, seqs_of, slice_range, starts_with, starts_with_chars, str_eq, string_of};
use crate::unicode::{eq_ignore_ascii_case, eq_ignore_case, lower_chars, lowercase};

verus! {

/// The present values, in order (`Iterator::filter_map`).
pub open spec fn somes<A>(xs: Seq<Option<A>>) -> Seq<A>
    decreases xs.len(),
{
    if xs.len() == 0 {
        Seq::empty()
    } else {
        let p = somes(xs.drop_last());
        match xs.last() {
            Some(a) => p.push(a),
            None => p,
        }
    }
}

pub proof fn lemma_somes_step<A>(xs: Seq<Option<A>>, i: int)
    requires
        0 <= i < xs.len(),
    ensures
        somes(xs.take(i + 1)) == (match xs[i] {
            Some(a) => somes(xs.take(i)).push(a),
            None => somes(xs.take(i)),
        }),
{
    assert(xs.take(i + 1).drop_last() =~= xs.take(i));
}

/// Every present value is kept.
pub proof fn lemma_somes_has<A>(xs: Seq<Option<A>>, k: int)
    requires
        0 <= k < xs.len(),
        xs[k] is Some,
    ensures
        somes(xs).contains(xs[k]->0),
    decreases xs.len(),
{
    if k == xs.len() - 1 {
        assert(somes(xs)[somes(xs).len() - 1] == xs[k]->0);
    } else {
        assert(xs.drop_last()[k] == xs[k]);
        lemma_somes_has(xs.drop_last(), k);
        let j = choose|j: int| 0 <= j < somes(xs.drop_last()).len() && somes(xs.drop_last())[j] == xs[k]->0;
        assert(somes(xs)[j] == xs[k]->0);
    }
}

/// Every kept value is one of the present values.
pub proof fn lemma_somes_from<A>(xs: Seq<Option<A>>, j: int)
    requires
        0 <= j < somes(xs).len(),
    ensures
        exists|k: int| 0 <= k < xs.len() && xs[k] == Some(#[trigger] somes(xs)[j]),
    decreases xs.len(),
{
    let p = somes(xs.drop_last());
    if j < p.len() {
        lemma_somes_from(xs.drop_last(), j);
        let k = choose|k: int| 0 <= k < xs.drop_last().len() && xs.drop_last()[k] == Some(p[j]);
        assert(xs[k] == Some(somes(xs)[j]));
    } else {
        assert(xs[xs.len() - 1] == Some(somes(xs)[j]));
    }
}

/// The text between `prefix` at the start of `e` and the next `'`.
pub open spec fn quoted_after_prefix(e: Seq<char>, prefix: Seq<char>) -> Option<Seq<char>> {
    if starts_with(e, prefix) {
        let rest = e.skip(prefix.len() as int);
        match find(rest, "'"@) {
            Some(end) => Some(rest.take(end)),
            None => None,
        }
    } else {
        None
    }
}

/// The table named by an `unknown table 'T' ...` error.
pub open spec fn unknown_table_in(e: Seq<char>) -> Option<Seq<char>> {
    quoted_after_prefix(e, "unknown table '"@)
}

/// The (table, column) named by an `unknown column 'C' in table 'T'` error.
pub open spec fn unknown_column_in(e: Seq<char>) -> Option<(Seq<char>, Seq<char>)> {
    let p = "unknown column '"@;
    if starts_with(e, p) {
        let cr = e.skip(p.len() as int);
        match find(cr, "'"@) {
            None => None,
            Some(ce) => match find(cr, "in table '"@) {
                None => None,
                Some(ts) => {
                    let after = cr.skip(ts + "in table '"@.len());
                    match find(after, "'"@) {
                        None => None,
                        Some(te) => Some((after.take(te), cr.take(ce))),
                    }
                },
            },
        }
    } else {
        None
    }
}

fn quote_mark() -> (q: Vec<char>)
    ensures
        q@ == "'"@,
        q@.len() == 1,
{
    proof {
        reveal_strlit("'");
    }
    chars_of("'")
}

fn quoted_after_prefix_exec(e: &[char], prefix: &str) -> (r: Option<Vec<char>>)
    ensures
        r matches Some(v) ==> quoted_after_prefix(e@, prefix@) == Some(v@),
        r is None ==> quoted_after_prefix(e@, prefix@) is None,
{
    let p = chars_of(prefix);
    if !starts_with_chars(e, p.as_slice()) {
        return None;
    }
    let rest = slice_range(e, p.len(), e.len());
    assert(rest@ =~= e@.skip(prefix@.len() as int));
    let q = quote_mark();
    match find_chars(rest.as_slice(), q.as_slice()) {
        None => None,
        Some(end) => {
            proof {
                lemma_find_from(rest@, q@, 0);
            }
            let v = slice_range(rest.as_slice(), 0, end);
            assert(v@ =~= rest@.take(end as int));
            Some(v)
        },
    }
}

fn unknown_column_exec(e: &[char]) -> (r: Option<(Vec<char>, Vec<char>)>)
    ensures
        r matches Some(v) ==> unknown_column_in(e@) == Some((v.0@, v.1@)),
        r is None ==> unknown_column_in(e@) is None,
{
    let p = chars_of("unknown column '");
    if !starts_with_chars(e, p.as_slice()) {
        return None;
    }
    let cr = slice_range(e, p.len(), e.len());
    assert(cr@ =~= e@.skip("unknown column '"@.len() as int));
    let q = quote_mark();
    let ce = match find_chars(cr.as_slice(), q.as_slice()) {
        None => return None,
        Some(ce) => ce,
    };
    proof {
        lemma_find_from(cr@, q@, 0);
    }
    let it = chars_of("in table '");
    let ts = match find_chars(cr.as_slice(), it.as_slice()) {
        None => return None,
        Some(ts) => ts,
    };
    proof {
        lemma_find_from(cr@, it@, 0);
    }
    let after = slice_range(cr.as_slice(), ts + it.len(), cr.len());
    assert(after@ =~= cr@.skip(ts + "in table '"@.len()));
    let te = match find_chars(after.as_slice(), q.as_slice()) {
        None => return None,
        Some(te) => te,
    };
    proof {
        lemma_find_from(after@, q@, 0);
    }
    let tbl = slice_range(after.as_slice(), 0, te);
    let col = slice_range(cr.as_slice(), 0, ce);
    assert(tbl@ =~= after@.take(te as int));
    assert(col@ =~= cr@.take(ce as int));
    Some((tbl, col))
}

// ───────────────────────────── invented tables ─────────────────────────────

/// The distinct invented table names reported in the errors, sorted.
pub open spec fn invented_tables(errors: Seq<Seq<char>>) -> Seq<Seq<char>> {
    sort_dedup(somes(errors.map_values(|e: Seq<char>| unknown_table_in(e))))
}

/// Replaces the first `n` invented names in turn, each by the best matching
/// real table found in the script as repaired so far (a name with no
/// matching table is left alone).
pub open spec fn tables_repaired_upto(script: Seq<char>, names: Seq<Seq<char>>, schemas: Seq<SessionSchema>, n: nat) -> Option<Seq<char>>
    decreases n,
{
    if n == 0 {
        Some(script)
    } else {
        match tables_repaired_upto(script, names, schemas, (n - 1) as nat) {
            None => None,
            Some(r) => {
                let bad = names[n - 1];
                match best_table_model(bad, r, schemas) {
                    None => None,
                    Some(None) => Some(r),
                    Some(Some(k)) => if 0 <= k < schemas.len() {
                        Some(replace_table_model(r, bad, schemas[k].table_name@))
                    } else {
                        None
                    },
                }
            },
        }
    }
}

/// The script with every invented table name replaced by its best match;
/// `None` where matching a name is `None` (`best_table_model`: a column
/// of the name would be cut inside a character, or a score passes
/// `i32::MAX`).
pub open spec fn unknown_tables_repaired(script: Seq<char>, errors: Seq<Seq<char>>, schemas: Seq<SessionSchema>) -> Option<Seq<char>> {
    let names = invented_tables(errors);
    tables_repaired_upto(script, names, schemas, names.len())
}

pub proof fn lemma_tables_repaired_none(script: Seq<char>, names: Seq<Seq<char>>, schemas: Seq<SessionSchema>, n: nat, m: nat)
    requires
        n <= m,
        tables_repaired_upto(script, names, schemas, n) is None,
    ensures
        tables_repaired_upto(script, names, schemas, m) is None,
    decreases m,
{
    if m > n {
        lemma_tables_repaired_none(script, names, schemas, n, (m - 1) as nat);
    }
}

fn invented_tables_exec(errors: &[String]) -> (r: Vec<Vec<char>>)
    ensures
        seqs_of(r@) == invented_tables(strs(errors@)),
{
    let ghost f = |e: Seq<char>| unknown_table_in(e);
    let ghost es = strs(errors@).map_values(f);
    let mut r: Vec<Vec<char>> = Vec::new();
    let mut i: usize = 0;
    assert(es.take(0) =~= Seq::<Option<Seq<char>>>::empty());
    assert(seqs_of(r@).to_set() =~= somes(es.take(0)).to_set());
    while i < errors.len()
        invariant
            i <= errors.len(),
            f == (|e: Seq<char>| unknown_table_in(e)),
            es == strs(errors@).map_values(f),
            strictly_sorted(seqs_of(r@)),
            seqs_of(r@).to_set() == somes(es.take(i as int)).to_set(),
        decreases errors.len() - i,
    {
        let e = chars_of(errors[i].as_str());
        proof {
            lemma_somes_step(es, i as int);
            assert(es[i as int] == unknown_table_in(e@));
        }
        match quoted_after_prefix_exec(e.as_slice(), "unknown table '") {
            Some(v) => {
                proof {
                    lemma_push_to_set(somes(es.take(i as int)), v@);
                }
                insert_sorted(&mut r, v);
            },
            None => {},
        }
        i = i + 1;
    }
    assert(es.take(errors.len() as int) =~= es);
    proof {
        lemma_sort_dedup_is(seqs_of(r@), somes(es));
    }
    r
}

/// Replaces every invented table name reported in `errors` (each distinct
/// name once, in sorted order) by the real table that best matches it in
/// the script as repaired so far; names without a match stay. `None` where
/// matching a name is `None` (see `best_table_model`).
pub fn repair_unknown_tables(script: &str, errors: &[String], schemas: &[SessionSchema]) -> (r: Option<String>)
    ensures
        r matches Some(s) ==> unknown_tables_repaired(script@, strs(errors@), schemas@) == Some(s@),
        r is None ==> unknown_tables_repaired(script@, strs(errors@), schemas@) is None,
{
    let names = invented_tables_exec(errors);
    let ghost nv = seqs_of(names@);
    let mut result = chars_of(script);
    let mut i: usize = 0;
    while i < names.len()
        invariant
            i <= names.len(),
            nv == seqs_of(names@),
            nv == invented_tables(strs(errors@)),
            tables_repaired_upto(script@, nv, schemas@, i as nat) == Some(result@),
        decreases names.len() - i,
    {
        assert(nv[i as int] == names@[i as int]@);
        match best_table_index(names[i].as_slice(), result.as_slice(), schemas) {
            None => {
                proof {
                    lemma_tables_repaired_none(script@, nv, schemas@, (i + 1) as nat, nv.len());
                }
                return None;
            },
            Some(None) => {},
            Some(Some(k)) => {
                let good = chars_of(schemas[k].table_name.as_str());
                result = replace_table_chars(result.as_slice(), names[i].as_slice(), good.as_slice());
            },
        }
        i = i + 1;
    }
    Some(string_of(result.as_slice()))
}

// ───────────────────────────── columns in the wrong table ─────────────────────────────

/// A real table other than `bad` that has the column `col`.
pub open spec fn holds_column(s: SessionSchema, bad: Seq<char>, col: Seq<char>) -> bool {
    !eq_ignore_ascii_case(s.table_name@, bad) && any_col_eq(strs(s.columns@), col)
}

/// A candidate that is not the master record.
pub open spec fn source_holder(s: SessionSchema, bad: Seq<char>, col: Seq<char>) -> bool {
    holds_column(s, bad, col) && s.source_type@ != "master"@
}

/// The table a misplaced column moves to: the only other table that has the
/// column; among several, the only one that is not the master record; `None`
/// when no other table has it or the choice stays open.
pub open spec fn column_home(schemas: Seq<SessionSchema>, bad: Seq<char>, col: Seq<char>) -> Option<int> {
    let all = schemas.filter(|s: SessionSchema| holds_column(s, bad, col));
    let src = schemas.filter(|s: SessionSchema| source_holder(s, bad, col));
    if all.len() == 1 {
        first_index(schemas, |s: SessionSchema| holds_column(s, bad, col))
    } else if all.len() > 1 && src.len() == 1 {
        first_index(schemas, |s: SessionSchema| source_holder(s, bad, col))
    } else {
        None
    }
}

/// Moves the first `n` misplaced columns in turn.
pub open spec fn columns_moved_upto(script: Seq<char>, errs: Seq<(Seq<char>, Seq<char>)>, schemas: Seq<SessionSchema>, n: nat) -> Seq<char>
    decreases n,
{
    if n == 0 {
        script
    } else {
        let r = columns_moved_upto(script, errs, schemas, (n - 1) as nat);
        let (bad, col) = errs[n - 1];
        match column_home(schemas, bad, col) {
            None => r,
            Some(k) => rewrite_col_ref_model(r, bad, col, schemas[k].table_name@),
        }
    }
}

/// The script with each reported `table.column` moved to the table that
/// really has the column.
pub open spec fn wrong_tables_repaired(script: Seq<char>, errors: Seq<Seq<char>>, schemas: Seq<SessionSchema>) -> Seq<char> {
    let errs = somes(errors.map_values(|e: Seq<char>| unknown_column_in(e)));
    columns_moved_upto(script, errs, schemas, errs.len())
}

fn holds_column_exec(s: &SessionSchema, bad: &[char], col: &[char]) -> (b: bool)
    ensures
        b == holds_column(*s, bad@, col@),
{
    let t = chars_of(s.table_name.as_str());
    !crate::unicode::eq_ignore_case_chars(t.as_slice(), bad) && any_eq(&s.columns, col)
}

fn column_home_exec(schemas: &[SessionSchema], bad: &[char], col: &[char]) -> (r: Option<usize>)
    ensures
        r matches Some(k) ==> k < schemas.len() && column_home(schemas@, bad@, col@) == Some(k as int),
        r is None ==> column_home(schemas@, bad@, col@) is None,
{
    let ghost p1 = |s: SessionSchema| source_holder(s, bad@, col@);
    let ghost p2 = |s: SessionSchema| holds_column(s, bad@, col@);
    let mut first_any: Option<usize> = None;
    let mut first_src: Option<usize> = None;
    let mut n_any: usize = 0;
    let mut n_src: usize = 0;
    let mut k: usize = 0;
    assert(schemas@.take(0).filter(p1) =~= Seq::<SessionSchema>::empty());
    assert(schemas@.take(0).filter(p2) =~= Seq::<SessionSchema>::empty());
    while k < schemas.len()
        invariant
            k <= schemas.len(),
            p1 == (|s: SessionSchema| source_holder(s, bad@, col@)),
            p2 == (|s: SessionSchema| holds_column(s, bad@, col@)),
            n_any == schemas@.take(k as int).filter(p2).len(),
            n_src == schemas@.take(k as int).filter(p1).len(),
            n_any <= k,
            n_src <= k,
            first_any matches Some(f) ==> f < k && first_index(schemas@, p2) == Some(f as int),
            first_any is None ==> first_index(schemas@, p2) == first_index_from(schemas@, p2, k as int),
            first_src matches Some(f) ==> f < k && first_index(schemas@, p1) == Some(f as int),
            first_src is None ==> first_index(schemas@, p1) == first_index_from(schemas@, p1, k as int),
        decreases schemas.len() - k,
    {
        proof {
            schemas@.take(k as int).lemma_filter_push(schemas@[k as int], p1);
            schemas@.take(k as int).lemma_filter_push(schemas@[k as int], p2);
            assert(schemas@.take(k + 1) =~= schemas@.take(k as int).push(schemas@[k as int]));
        }
        let h = holds_column_exec(&schemas[k], bad, col);
        let m = str_eq(schemas[k].source_type.as_str(), "master");
        if h {
            assert(p2(schemas@[k as int]));
            if first_any.is_none() {
                first_any = Some(k);
            }
            n_any = n_any + 1;
            if !m {
                assert(p1(schemas@[k as int]));
                if first_src.is_none() {
                    first_src = Some(k);
                }
                n_src = n_src + 1;
            } else {
                assert(!p1(schemas@[k as int]));
            }
        } else {
            assert(!p2(schemas@[k as int]));
            assert(!p1(schemas@[k as int]));
        }
        k = k + 1;
    }
    assert(schemas@.take(schemas.len() as int) =~= schemas@);
    proof {
        crate::seqs::lemma_first_index_from(schemas@, p1, 0);
        crate::seqs::lemma_first_index_from(schemas@, p2, 0);
    }
    if n_any == 1 {
        if let Some(f) = first_any {
            return Some(f);
        }
        proof {
            let w = schemas@.filter(p2)[0];
            schemas@.lemma_filter_contains_rev(p2, w);
            schemas@.lemma_filter_pred(p2, 0);
        }
        None
    } else if n_any > 1 && n_src == 1 {
        if let Some(f) = first_src {
            return Some(f);
        }
        proof {
            let w = schemas@.filter(p1)[0];
            schemas@.lemma_filter_contains_rev(p1, w);
            schemas@.lemma_filter_pred(p1, 0);
        }
        None
    } else {
        None
    }
}

/// For every `unknown column 'C' in table 'T'` error (in order), rewrites
/// `T.C` (any case) as `U.C`, where `U` is the only other table with the
/// column, or, when several have it, the only one of them that is not the
/// master record; an error whose column no other table has, or whose choice
/// stays open, is left to the model's fix pass.
pub fn repair_column_in_wrong_table(script: &str, errors: &[String], schemas: &[SessionSchema]) -> (r: String)
    ensures
        r@ == wrong_tables_repaired(script@, strs(errors@), schemas@),
{
    let ghost f = |e: Seq<char>| unknown_column_in(e);
    let ghost es = strs(errors@).map_values(f);
    let ghost errs = somes(es);
    let mut result = chars_of(script);
    let ghost mut done: nat = 0;
    let mut i: usize = 0;
    assert(es.take(0) =~= Seq::<Option<(Seq<char>, Seq<char>)>>::empty());
    while i < errors.len()
        invariant
            i <= errors.len(),
            f == (|e: Seq<char>| unknown_column_in(e)),
            es == strs(errors@).map_values(f),
            errs == somes(es),
            done == somes(es.take(i as int)).len(),
            somes(es.take(i as int)) == errs.take(done as int),
            done <= errs.len(),
            columns_moved_upto(script@, errs, schemas@, done) == result@,
        decreases errors.len() - i,
    {
        let e = chars_of(errors[i].as_str());
        proof {
            lemma_somes_step(es, i as int);
            assert(es[i as int] == unknown_column_in(e@));
            lemma_somes_prefix(es, i + 1);
        }
        match unknown_column_exec(e.as_slice()) {
            None => {},
            Some(tc) => {
                proof {
                    let nxt = somes(es.take(i + 1));
                    assert(nxt == somes(es.take(i as int)).push((tc.0@, tc.1@)));
                    assert(nxt.len() == done + 1);
                    assert(errs.take(done as int + 1) == nxt);
                    assert(errs.take(done as int + 1)[done as int] == errs[done as int]);
                    assert(errs[done as int] == (tc.0@, tc.1@));
                }
                match column_home_exec(schemas, tc.0.as_slice(), tc.1.as_slice()) {
                    None => {},
                    Some(k) => {
                        let target = chars_of(schemas[k].table_name.as_str());
                        result = rewrite_col_ref_chars(result.as_slice(), tc.0.as_slice(), tc.1.as_slice(), target.as_slice());
                    },
                }
                proof {
                    done = done + 1;
                }
            },
        }
        i = i + 1;
    }
    assert(es.take(errors.len() as int) =~= es);
    string_of(result.as_slice())
}

/// The present values of a prefix are a prefix of all the present values.
pub proof fn lemma_somes_prefix<A>(xs: Seq<Option<A>>, i: int)
    requires
        0 <= i <= xs.len(),
    ensures
        somes(xs.take(i)).len() <= somes(xs).len(),
        somes(xs).take(somes(xs.take(i)).len() as int) == somes(xs.take(i)),
    decreases xs.len() - i,
{
    if i < xs.len() {
        lemma_somes_prefix(xs, i + 1);
        lemma_somes_step(xs, i);
        let a = somes(xs.take(i));
        let b = somes(xs.take(i + 1));
        assert(b.take(a.len() as int) =~= a);
        assert(somes(xs).take(a.len() as int) =~= somes(xs).take(b.len() as int).take(a.len() as int));
    } else {
        assert(xs.take(i) =~= xs);
        assert(somes(xs).take(somes(xs).len() as int) =~= somes(xs));
    }
}

// ───────────────────────────── dropping broken lines ─────────────────────────────

/// The lowercase `table.column` named by an error that contains
/// `unknown column 'C' in table 'T'`.
pub open spec fn bad_ref_in(e: Seq<char>) -> Option<Seq<char>> {
    let p = "unknown column '"@;
    match find(e, p) {
        None => None,
        Some(cs) => {
            let rest = e.skip(cs + p.len());
            match find(rest, "'"@) {
                None => None,
                Some(ce) => match find(rest, "in table '"@) {
                    None => None,
                    Some(ts) => {
                        let r2 = rest.skip(ts + "in table '"@.len());
                        match find(r2, "'"@) {
                            None => None,
                            Some(te) => Some(lowercase(r2.take(te)) + "."@ + lowercase(rest.take(ce))),
                        }
                    },
                },
            }
        },
    }
}

/// The lowercase line mentions one of the references.
pub open spec fn has_bad_ref(line: Seq<char>, refs: Seq<Seq<char>>) -> bool {
    exists|j: int| 0 <= j < refs.len() && has_sub(lowercase(line), #[trigger] refs[j])
}

/// The lines that mention none of the references, in order.
pub open spec fn kept_lines(ls: Seq<Seq<char>>, refs: Seq<Seq<char>>) -> Seq<Seq<char>>
    decreases ls.len(),
{
    if ls.len() == 0 {
        Seq::empty()
    } else {
        let p = kept_lines(ls.drop_last(), refs);
        if has_bad_ref(ls.last(), refs) {
            p
        } else {
            p.push(ls.last())
        }
    }
}

/// The references reported as unknown columns.
pub open spec fn bad_refs(errors: Seq<Seq<char>>) -> Seq<Seq<char>> {
    somes(errors.map_values(|e: Seq<char>| bad_ref_in(e)))
}

/// The script without the lines that use a reported column; unchanged when
/// no error names a column.
pub open spec fn without_bad_lines(script: Seq<char>, errors: Seq<Seq<char>>) -> Seq<char> {
    let refs = bad_refs(errors);
    if refs.len() == 0 {
        script
    } else {
        join(kept_lines(lines(script), refs), "\n"@)
    }
}

fn bad_ref_exec(e: &[char]) -> (r: Option<Vec<char>>)
    ensures
        r matches Some(v) ==> bad_ref_in(e@) == Some(v@),
        r is None ==> bad_ref_in(e@) is None,
{
    let p = chars_of("unknown column '");
    let cs = match find_chars(e, p.as_slice()) {
        None => return None,
        Some(cs) => cs,
    };
    proof {
        lemma_find_from(e@, p@, 0);
        assert(matches_at(e@, p@, cs as int));
    }
    assert(cs + p.len() <= e.len());
    let rest = slice_range(e, cs + p.len(), e.len());
    assert(rest@ =~= e@.skip(cs + "unknown column '"@.len()));
    let q = quote_mark();
    let ce = match find_chars(rest.as_slice(), q.as_slice()) {
        None => return None,
        Some(ce) => ce,
    };
    proof {
        lemma_find_from(rest@, q@, 0);
    }
    let it = chars_of("in table '");
    let ts = match find_chars(rest.as_slice(), it.as_slice()) {
        None => return None,
        Some(ts) => ts,
    };
    proof {
        lemma_find_from(rest@, it@, 0);
    }
    let r2 = slice_range(rest.as_slice(), ts + it.len(), rest.len());
    assert(r2@ =~= rest@.skip(ts + "in table '"@.len()));
    let te = match find_chars(r2.as_slice(), q.as_slice()) {
        None => return None,
        Some(te) => te,
    };
    proof {
        lemma_find_from(r2@, q@, 0);
    }
    let tbl = slice_range(r2.as_slice(), 0, te);
    let col = slice_range(rest.as_slice(), 0, ce);
    let mut out = lower_chars(tbl.as_slice());
    out.push('.');
    let lc = lower_chars(col.as_slice());
    crate::text::extend_chars(&mut out, lc.as_slice());
    proof {
        reveal_strlit(".");
        assert(tbl@ =~= r2@.take(te as int));
        assert(col@ =~= rest@.take(ce as int));
        assert(out@ =~= lowercase(r2@.take(te as int)) + "."@ + lowercase(rest@.take(ce as int)));
    }
    Some(out)
}

fn has_bad_ref_exec(line: &[char], refs: &Vec<Vec<char>>) -> (b: bool)
    ensures
        b == has_bad_ref(line@, seqs_of(refs@)),
{
    let l = lower_chars(line);
    let mut j: usize = 0;
    while j < refs.len()
        invariant
            j <= refs.len(),
            l@ == lowercase(line@),
            forall|m: int| 0 <= m < j ==> !has_sub(lowercase(line@), #[trigger] seqs_of(refs@)[m]),
        decreases refs.len() - j,
    {
        assert(seqs_of(refs@)[j as int] == refs@[j as int]@);
        if crate::text::contains_chars(l.as_slice(), refs[j].as_slice()) {
            return true;
        }
        j = j + 1;
    }
    false
}

/// Removes every line that uses a `table.column` reported as unknown
/// (compared without regard to case) and joins the rest with newlines; the
/// script is returned unchanged when no error names a column.
pub fn drop_invalid_column_lines(script: &str, errors: &[String]) -> (r: String)
    ensures
        r@ == without_bad_lines(script@, strs(errors@)),
{
    let ghost f = |e: Seq<char>| bad_ref_in(e);
    let ghost es = strs(errors@).map_values(f);
    let mut refs: Vec<Vec<char>> = Vec::new();
    let mut i: usize = 0;
    assert(es.take(0) =~= Seq::<Option<Seq<char>>>::empty());
    while i < errors.len()
        invariant
            i <= errors.len(),
            f == (|e: Seq<char>| bad_ref_in(e)),
            es == strs(errors@).map_values(f),
            seqs_of(refs@) == somes(es.take(i as int)),
        decreases errors.len() - i,
    {
        let e = chars_of(errors[i].as_str());
        proof {
            lemma_somes_step(es, i as int);
            assert(es[i as int] == bad_ref_in(e@));
        }
        match bad_ref_exec(e.as_slice()) {
            Some(v) => {
                let ghost prev = seqs_of(refs@);
                refs.push(v);
                assert(seqs_of(refs@) =~= prev.push(v@));
            },
            None => {},
        }
        i = i + 1;
    }
    assert(es.take(errors.len() as int) =~= es);
    if refs.len() == 0 {
        return string_of(chars_of(script).as_slice());
    }
    let sc = chars_of(script);
    let ls = crate::text::lines_chars(sc.as_slice());
    let ghost lsv = seqs_of(ls@);
    let mut kept: Vec<Vec<char>> = Vec::new();
    let mut k: usize = 0;
    assert(lsv.take(0) =~= Seq::<Seq<char>>::empty());
    while k < ls.len()
        invariant
            k <= ls.len(),
            lsv == seqs_of(ls@),
            seqs_of(kept@) == kept_lines(lsv.take(k as int), seqs_of(refs@)),
        decreases ls.len() - k,
    {
        proof {
            assert(lsv.take(k + 1).drop_last() =~= lsv.take(k as int));
            assert(lsv.take(k + 1).last() == ls@[k as int]@);
        }
        if !has_bad_ref_exec(ls[k].as_slice(), &refs) {
            let line = slice_range(ls[k].as_slice(), 0, ls[k].len());
            let ghost prev = seqs_of(kept@);
            assert(line@ =~= ls@[k as int]@);
            kept.push(line);
            assert(seqs_of(kept@) =~= prev.push(ls@[k as int]@));
        }
        k = k + 1;
    }
    assert(lsv.take(ls.len() as int) =~= lsv);
    let out = crate::text::join_str(kept.as_slice(), "\n");
    string_of(out.as_slice())
}

// ───────────────────────────── fallback sample column ─────────────────────────────

/// Keywords of the column named in an `unknown column 'C...` error: its
/// `_`-separated parts of at least four bytes, lowercased.
pub open spec fn error_col_keywords(e: Seq<char>) -> Seq<Seq<char>> {
    let p = "unknown column '"@;
    if starts_with(e, p) {
        long_lower(split(split(e.skip(p.len() as int), "'"@)[0], "_"@), 4)
    } else {
        Seq::empty()
    }
}

/// The keywords of the control label and of the columns named in the
/// errors, distinct and sorted.
pub open spec fn fallback_keywords(errors: Seq<Seq<char>>, label: Seq<char>) -> Seq<Seq<char>> {
    sort_dedup(text_keywords(label) + errors.map_values(|e: Seq<char>| error_col_keywords(e)).flatten())
}

/// Points of a keyword for a table: 10 in its lowercase name, 4 in some
/// lowercase column name.
pub open spec fn fallback_points(s: SessionSchema) -> spec_fn(Seq<char>) -> int {
    |kw: Seq<char>|
        (if has_sub(lowercase(s.table_name@), kw) {
            10int
        } else {
            0int
        }) + (if any_col_contains(strs(s.columns@), kw) {
            4int
        } else {
            0int
        })
}

pub open spec fn fallback_scores(kws: Seq<Seq<char>>, schemas: Seq<SessionSchema>) -> Seq<int> {
    schemas.map_values(|s: SessionSchema| sum_of(kws, fallback_points(s)))
}

/// `table.col` for the table at `k`, when it has a column.
pub open spec fn first_col_ref(schemas: Seq<SessionSchema>, k: int) -> Option<Seq<char>> {
    if 0 <= k < schemas.len() && schemas[k].columns@.len() > 0 {
        Some(schemas[k].table_name@ + "."@ + schemas[k].columns@[0]@)
    } else {
        None
    }
}

/// The `table.column` sampled when a script cannot be saved: the first
/// column of the table that best matches the label and the invented column
/// names (the last of equal best positive scores), else of the first table
/// the script mentions as `table.`; that table is looked up again by name
/// without regard to ASCII case. Failing that, the first column of the first
/// table that has one, else `data.id`. `None` when a score exceeds
/// `i32::MAX`.
pub open spec fn fallback_col(errors: Seq<Seq<char>>, script: Seq<char>, label: Seq<char>, schemas: Seq<SessionSchema>) -> Option<Seq<char>> {
    let scores = fallback_scores(fallback_keywords(errors, label), schemas);
    if exists|k: int| 0 <= k < scores.len() && scores[k] > i32::MAX {
        None
    } else {
        let chosen = match last_max_positive(scores) {
            Some(k) => Some(k),
            None => first_index(
                schemas,
                |s: SessionSchema| has_sub(lowercase(script), lowercase(s.table_name@) + "."@),
            ),
        };
        let named = match chosen {
            Some(k) => match first_index(
                schemas,
                |s: SessionSchema| eq_ignore_ascii_case(s.table_name@, schemas[k].table_name@),
            ) {
                Some(j) => first_col_ref(schemas, j),
                None => None,
            },
            None => None,
        };
        match named {
            Some(r) => Some(r),
            None => match first_index(schemas, |s: SessionSchema| s.columns@.len() > 0) {
                Some(j) => first_col_ref(schemas, j),
                None => Some("data.id"@),
            },
        }
    }
}

fn add_keywords(kws: &mut Vec<Vec<char>>, xs: &Vec<Vec<char>>, acc: Ghost<Seq<Seq<char>>>)
    requires
        strictly_sorted(seqs_of(old(kws)@)),
        seqs_of(old(kws)@).to_set() == acc@.to_set(),
    ensures
        strictly_sorted(seqs_of(final(kws)@)),
        seqs_of(final(kws)@).to_set() == (acc@ + seqs_of(xs@)).to_set(),
{
    let mut j: usize = 0;
    assert(acc@ + seqs_of(xs@).take(0) =~= acc@);
    while j < xs.len()
        invariant
            j <= xs.len(),
            strictly_sorted(seqs_of(kws@)),
            seqs_of(kws@).to_set() == (acc@ + seqs_of(xs@).take(j as int)).to_set(),
        decreases xs.len() - j,
    {
        let x = slice_range(xs[j].as_slice(), 0, xs[j].len());
        proof {
            assert(x@ =~= seqs_of(xs@)[j as int]);
            lemma_push_to_set(acc@ + seqs_of(xs@).take(j as int), x@);
            assert((acc@ + seqs_of(xs@).take(j as int)).push(x@) =~= acc@ + seqs_of(xs@).take(j + 1));
        }
        insert_sorted(kws, x);
        j = j + 1;
    }
    assert(seqs_of(xs@).take(xs.len() as int) =~= seqs_of(xs@));
}

fn error_col_keywords_exec(e: &[char]) -> (r: Vec<Vec<char>>)
    ensures
        seqs_of(r@) == error_col_keywords(e@),
{
    let p = chars_of("unknown column '");
    if !starts_with_chars(e, p.as_slice()) {
        return Vec::new();
    }
    let rest = slice_range(e, p.len(), e.len());
    assert(rest@ =~= e@.skip("unknown column '"@.len() as int));
    let q = quote_mark();
    let pieces = crate::text::split_chars(rest.as_slice(), q.as_slice());
    proof {
        crate::text::lemma_split_nonempty(rest@, q@);
        assert(seqs_of(pieces@)[0] == pieces@[0]@);
    }
    proof {
        reveal_strlit("_");
    }
    let us = chars_of("_");
    let parts = crate::text::split_chars(pieces[0].as_slice(), us.as_slice());
    crate::keywords::keep_long_lower(parts.as_slice(), 4)
}

fn fallback_keywords_exec(errors: &[String], label: &str) -> (r: Vec<Vec<char>>)
    ensures
        seqs_of(r@) == fallback_keywords(strs(errors@), label@),
{
    let ghost f = |e: Seq<char>| error_col_keywords(e);
    let lab = chars_of(label);
    let lk = crate::keywords::keywords_of(lab.as_slice());
    let mut kws: Vec<Vec<char>> = Vec::new();
    assert(seqs_of(kws@).to_set() =~= Seq::<Seq<char>>::empty().to_set());
    add_keywords(&mut kws, &lk, Ghost(Seq::<Seq<char>>::empty()));
    assert(Seq::<Seq<char>>::empty() + seqs_of(lk@) =~= text_keywords(label@));
    let ghost base = text_keywords(label@);
    proof {
        crate::seqs::lemma_flatten_empty(strs(errors@), f);
        assert(base + strs(errors@).take(0).map_values(f).flatten() =~= base);
    }
    let mut i: usize = 0;
    while i < errors.len()
        invariant
            i <= errors.len(),
            f == (|e: Seq<char>| error_col_keywords(e)),
            base == text_keywords(label@),
            strictly_sorted(seqs_of(kws@)),
            seqs_of(kws@).to_set() == (base + strs(errors@).take(i as int).map_values(f).flatten()).to_set(),
        decreases errors.len() - i,
    {
        let e = chars_of(errors[i].as_str());
        let ek = error_col_keywords_exec(e.as_slice());
        let ghost acc = base + strs(errors@).take(i as int).map_values(f).flatten();
        add_keywords(&mut kws, &ek, Ghost(acc));
        proof {
            crate::seqs::lemma_flatten_step(strs(errors@), f, i as int);
            assert(f(strs(errors@)[i as int]) == seqs_of(ek@));
            assert(acc + seqs_of(ek@) =~= base + strs(errors@).take(i + 1).map_values(f).flatten());
        }
        i = i + 1;
    }
    assert(strs(errors@).take(errors.len() as int) =~= strs(errors@));
    proof {
        lemma_sort_dedup_is(seqs_of(kws@), base + strs(errors@).map_values(f).flatten());
    }
    kws
}

fn fallback_score_exec(kws: &Vec<Vec<char>>, s: &SessionSchema) -> (r: Option<u64>)
    ensures
        r matches Some(v) ==> v == sum_of(seqs_of(kws@), fallback_points(*s)) && v <= i32::MAX,
        r is None ==> sum_of(seqs_of(kws@), fallback_points(*s)) > i32::MAX,
{
    let ghost cols = strs(s.columns@);
    let ghost fp = fallback_points(*s);
    let tn = chars_of(s.table_name.as_str());
    let tl = lower_chars(tn.as_slice());
    let mut lcols: Vec<Vec<char>> = Vec::new();
    let mut j: usize = 0;
    while j < s.columns.len()
        invariant
            j <= s.columns.len(),
            cols == strs(s.columns@),
            lcols.len() == j,
            forall|m: int| 0 <= m < j ==> lcols@[m]@ == lowercase(cols[m]),
        decreases s.columns.len() - j,
    {
        let cv = chars_of(s.columns[j].as_str());
        lcols.push(lower_chars(cv.as_slice()));
        j = j + 1;
    }
    proof {
        assert forall|k: int| 0 <= k < seqs_of(kws@).len() implies fp(#[trigger] seqs_of(kws@)[k]) >= 0 by {}
        assert(seqs_of(kws@).take(0) =~= Seq::<Seq<char>>::empty());
    }
    let mut sc: u64 = 0;
    let mut i: usize = 0;
    while i < kws.len()
        invariant
            i <= kws.len(),
            cols == strs(s.columns@),
            lcols.len() == cols.len(),
            forall|m: int| 0 <= m < cols.len() ==> lcols@[m]@ == lowercase(cols[m]),
            tl@ == lowercase(s.table_name@),
            fp == fallback_points(*s),
            forall|k: int| 0 <= k < seqs_of(kws@).len() ==> fp(#[trigger] seqs_of(kws@)[k]) >= 0,
            sc == sum_of(seqs_of(kws@).take(i as int), fp),
            sc <= i32::MAX,
        decreases kws.len() - i,
    {
        let mut add: u64 = 0;
        if crate::text::contains_chars(tl.as_slice(), kws[i].as_slice()) {
            add = add + 10;
        }
        if any_contains(&lcols, kws[i].as_slice(), Ghost(cols)) {
            add = add + 4;
        }
        proof {
            crate::seqs::lemma_sum_step(seqs_of(kws@), fp, i as int);
            assert(seqs_of(kws@)[i as int] == kws@[i as int]@);
        }
        sc = sc + add;
        i = i + 1;
        if sc > 2147483647 {
            proof {
                crate::seqs::lemma_sum_prefix_le(seqs_of(kws@), fp, i as int);
            }
            return None;
        }
    }
    assert(seqs_of(kws@).take(kws.len() as int) =~= seqs_of(kws@));
    Some(sc)
}

fn first_col_ref_exec(schemas: &[SessionSchema], k: usize) -> (r: Option<Vec<char>>)
    requires
        k < schemas.len(),
    ensures
        r matches Some(v) ==> first_col_ref(schemas@, k as int) == Some(v@),
        r is None ==> first_col_ref(schemas@, k as int) is None,
{
    if schemas[k].columns.len() == 0 {
        return None;
    }
    let mut v = chars_of(schemas[k].table_name.as_str());
    v.push('.');
    crate::text::extend_str(&mut v, schemas[k].columns[0].as_str());
    proof {
        reveal_strlit(".");
        assert(v@ =~= schemas@[k as int].table_name@ + "."@ + schemas@[k as int].columns@[0]@);
    }
    Some(v)
}

fn mentioned_table(script: &[char], schemas: &[SessionSchema]) -> (r: Option<usize>)
    ensures
        r matches Some(k) ==> k < schemas.len() && first_index(
            schemas@,
            |s: SessionSchema| has_sub(lowercase(script@), lowercase(s.table_name@) + "."@),
        ) == Some(k as int),
        r is None ==> first_index(
            schemas@,
            |s: SessionSchema| has_sub(lowercase(script@), lowercase(s.table_name@) + "."@),
        ) is None,
{
    let ghost p = |s: SessionSchema| has_sub(lowercase(script@), lowercase(s.table_name@) + "."@);
    let lower = lower_chars(script);
    let mut k: usize = 0;
    while k < schemas.len()
        invariant
            k <= schemas.len(),
            lower@ == lowercase(script@),
            p == (|s: SessionSchema| has_sub(lowercase(script@), lowercase(s.table_name@) + "."@)),
            first_index(schemas@, p) == first_index_from(schemas@, p, k as int),
        decreases schemas.len() - k,
    {
        let tn = chars_of(schemas[k].table_name.as_str());
        let mut prefix = lower_chars(tn.as_slice());
        prefix.push('.');
        proof {
            reveal_strlit(".");
            assert(prefix@ =~= lowercase(schemas@[k as int].table_name@) + "."@);
        }
        if crate::text::contains_chars(lower.as_slice(), prefix.as_slice()) {
            return Some(k);
        }
        k = k + 1;
    }
    None
}

fn same_name_index(schemas: &[SessionSchema], name: &[char]) -> (r: Option<usize>)
    ensures
        r matches Some(k) ==> k < schemas.len() && first_index(
            schemas@,
            |s: SessionSchema| eq_ignore_ascii_case(s.table_name@, name@),
        ) == Some(k as int),
        r is None ==> first_index(schemas@, |s: SessionSchema| eq_ignore_ascii_case(s.table_name@, name@)) is None,
{
    let ghost p = |s: SessionSchema| eq_ignore_ascii_case(s.table_name@, name@);
    let mut k: usize = 0;
    while k < schemas.len()
        invariant
            k <= schemas.len(),
            p == (|s: SessionSchema| eq_ignore_ascii_case(s.table_name@, name@)),
            first_index(schemas@, p) == first_index_from(schemas@, p, k as int),
        decreases schemas.len() - k,
    {
        let tn = chars_of(schemas[k].table_name.as_str());
        if crate::unicode::eq_ignore_case_chars(tn.as_slice(), name) {
            return Some(k);
        }
        k = k + 1;
    }
    None
}

/// The `table.column` used for the fallback `SAMPLE` of a script that cannot
/// be saved: see `fallback_col`. `None` when a keyword score exceeds
/// `i32::MAX`.
pub fn fallback_sample_col(errors: &[String], script: &str, label: &str, schemas: &[SessionSchema]) -> (r: Option<String>)
    ensures
        r matches Some(c) ==> fallback_col(strs(errors@), script@, label@, schemas@) == Some(c@),
        r is None ==> fallback_col(strs(errors@), script@, label@, schemas@) is None,
{
    let kws = fallback_keywords_exec(errors, label);
    let ghost scores = fallback_scores(fallback_keywords(strs(errors@), label@), schemas@);
    let mut best: Option<usize> = None;
    let mut best_score: u64 = 0;
    let mut k: usize = 0;
    assert(scores.take(0) =~= Seq::<int>::empty());
    while k < schemas.len()
        invariant
            k <= schemas.len(),
            seqs_of(kws@) == fallback_keywords(strs(errors@), label@),
            scores == fallback_scores(fallback_keywords(strs(errors@), label@), schemas@),
            forall|m: int| 0 <= m < k ==> scores[m] <= i32::MAX,
            best matches Some(b) ==> b < k && best_score == scores[b as int] && last_max_positive(scores.take(k as int)) == Some(b as int),
            best is None ==> last_max_positive(scores.take(k as int)) is None,
        decreases schemas.len() - k,
    {
        let sc = match fallback_score_exec(&kws, &schemas[k]) {
            Some(v) => v,
            None => {
                assert(scores[k as int] > i32::MAX);
                return None;
            },
        };
        proof {
            assert(scores.take(k + 1).drop_last() =~= scores.take(k as int));
            assert(scores.take(k + 1)[k as int] == scores[k as int]);
        }
        let better = match best {
            None => sc > 0,
            Some(_) => sc > 0 && sc >= best_score,
        };
        if better {
            best = Some(k);
            best_score = sc;
        }
        k = k + 1;
    }
    assert(scores.take(schemas.len() as int) =~= scores);
    let sv = chars_of(script);
    let chosen = match best {
        Some(b) => Some(b),
        None => mentioned_table(sv.as_slice(), schemas),
    };
    let named = match chosen {
        Some(c) => {
            let nm = chars_of(schemas[c].table_name.as_str());
            match same_name_index(schemas, nm.as_slice()) {
                Some(j) => first_col_ref_exec(schemas, j),
                None => None,
            }
        },
        None => None,
    };
    match named {
        Some(v) => Some(string_of(v.as_slice())),
        None => {
            let ghost p = |s: SessionSchema| s.columns@.len() > 0;
            assert(fallback_col(strs(errors@), script@, label@, schemas@) == (match first_index(schemas@, p) {
                Some(j) => first_col_ref(schemas@, j),
                None => Some("data.id"@),
            }));
            let mut j: usize = 0;
            while j < schemas.len()
                invariant
                    j <= schemas.len(),
                    p == (|s: SessionSchema| s.columns@.len() > 0),
                    fallback_col(strs(errors@), script@, label@, schemas@) == (match first_index(schemas@, p) {
                        Some(j) => first_col_ref(schemas@, j),
                        None => Some("data.id"@),
                    }),
                    first_index(schemas@, p) == first_index_from(schemas@, p, j as int),
                decreases schemas.len() - j,
            {
                if schemas[j].columns.len() > 0 {
                    assert(p(schemas@[j as int]));
                    assert(first_index_from(schemas@, p, j as int) == Some(j as int));
                    let v = first_col_ref_exec(schemas, j);
                    match v {
                        Some(v) => return Some(string_of(v.as_slice())),
                        None => {},
                    }
                }
                j = j + 1;
            }
            Some(String::from_str("data.id"))
        },
    }
}

} // verus!
