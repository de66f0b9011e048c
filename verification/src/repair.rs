//! Deterministic repairs of generated DSL scripts: invented table names are
//! replaced by the best matching real table, and `table.column` references
//! are moved to the table that really has the column.
//!
//! These functions search a case-folded copy of the script (each character
//! folded on its own, `fold_lower`, so the copy has the script's length) and
//! copy from the script itself at the positions found there. Names are
//! folded the same way, so `Foo.`, `FOO.` and `foo.` all match `foo`.
//!
//! Positions are character positions, the same in both copies. Searching a
//! whole-string lowercase copy by byte offsets instead gives other results
//! once a character before a match lowercases to a different number of
//! bytes (the Kelvin sign `K` → `k`, `İ` → `i̇`): there the offsets of the
//! two copies differ, and `cols_used_with("\u{212a} t.a", "t")` would read
//! the column from the wrong place. Here it is `["a"]`.
use vstd::prelude::*;
use crate::text::{
    char_width, chars_of, extend_chars, find_chars_from, find_from, lemma_find_from, seqs_of,
    slice_range, string_of, width_of,
};
use crate::unicode::{char_is_alphanumeric, fold_lower, fold_lower_chars, is_alnum};

verus! {

/// Copies `s`, replacing each occurrence of `needle` found in `l` (the
/// folded copy of `s`) from position `pos` on by `rep`.
pub open spec fn rewrite_from(s: Seq<char>, l: Seq<char>, needle: Seq<char>, rep: Seq<char>, pos: int) -> Seq<char>
    decreases s.len() - pos,
{
    if pos < 0 || pos >= s.len() || needle.len() == 0 {
        Seq::empty()
    } else {
        match find_from(l, needle, pos) {
            None => s.subrange(pos, s.len() as int),
            Some(k) => if pos <= k && k + needle.len() <= s.len() {
                s.subrange(pos, k) + rep + rewrite_from(s, l, needle, rep, k + needle.len())
            } else {
                Seq::empty()
            },
        }
    }
}

fn rewrite_exec(s: &[char], l: &[char], needle: &[char], rep: &[char]) -> (r: Vec<char>)
    requires
        l.len() == s.len(),
        needle.len() > 0,
    ensures
        r@ == rewrite_from(s@, l@, needle@, rep@, 0),
{
    let mut out: Vec<char> = Vec::new();
    let mut pos: usize = 0;
    assert(out@ + rewrite_from(s@, l@, needle@, rep@, 0) =~= rewrite_from(s@, l@, needle@, rep@, 0));
    while pos < s.len()
        invariant
            l.len() == s.len(),
            needle.len() > 0,
            pos <= s.len(),
            out@ + rewrite_from(s@, l@, needle@, rep@, pos as int) == rewrite_from(s@, l@, needle@, rep@, 0),
        decreases s.len() - pos,
    {
        proof {
            lemma_find_from(l@, needle@, pos as int);
        }
        match find_chars_from(l, needle, pos) {
            None => {
                let tail = slice_range(s, pos, s.len());
                let ghost prev = out@;
                extend_chars(&mut out, tail.as_slice());
                assert(rewrite_from(s@, l@, needle@, rep@, s.len() as int) =~= Seq::<char>::empty());
                assert(out@ + rewrite_from(s@, l@, needle@, rep@, s.len() as int) =~= prev + rewrite_from(s@, l@, needle@, rep@, pos as int));
                pos = s.len();
            },
            Some(k) => {
                let piece = slice_range(s, pos, k);
                let ghost prev = out@;
                extend_chars(&mut out, piece.as_slice());
                extend_chars(&mut out, rep);
                assert(out@ + rewrite_from(s@, l@, needle@, rep@, k + needle@.len()) =~= prev + rewrite_from(s@, l@, needle@, rep@, pos as int));
                pos = k + needle.len();
            },
        }
    }
    assert(rewrite_from(s@, l@, needle@, rep@, pos as int) =~= Seq::<char>::empty());
    assert(out@ =~= out@ + rewrite_from(s@, l@, needle@, rep@, pos as int));
    out
}

/// `old_table.col` → `new_table.col`, matching `old_table.col` without regard
/// to case.
pub open spec fn rewrite_col_ref_model(script: Seq<char>, old_table: Seq<char>, col: Seq<char>, new_table: Seq<char>) -> Seq<char> {
    rewrite_from(
        script,
        fold_lower(script),
        fold_lower(old_table) + "."@ + fold_lower(col),
        new_table + "."@ + col,
        0,
    )
}

/// `old_table.` → `new_table.`, matching `old_table.` without regard to case.
pub open spec fn replace_table_model(script: Seq<char>, old_table: Seq<char>, new_table: Seq<char>) -> Seq<char> {
    rewrite_from(script, fold_lower(script), fold_lower(old_table) + "."@, new_table + "."@, 0)
}

pub(crate) fn rewrite_col_ref_chars(s: &[char], old_table: &[char], col: &[char], new_table: &[char]) -> (r: Vec<char>)
    ensures
        r@ == rewrite_col_ref_model(s@, old_table@, col@, new_table@),
{
    let l = fold_lower_chars(s);
    let mut needle = fold_lower_chars(old_table);
    needle.push('.');
    let lc = fold_lower_chars(col);
    extend_chars(&mut needle, lc.as_slice());
    let mut rep = crate::text::slice_range(new_table, 0, new_table.len());
    rep.push('.');
    extend_chars(&mut rep, col);
    proof {
        reveal_strlit(".");
        assert(needle@ =~= fold_lower(old_table@) + "."@ + fold_lower(col@));
        assert(rep@ =~= new_table@ + "."@ + col@);
    }
    rewrite_exec(s, l.as_slice(), needle.as_slice(), rep.as_slice())
}

/// Replaces every occurrence of `old_table.col` (any case) by
/// `new_table.col`.
pub fn rewrite_col_ref(script: &str, old_table: &str, col: &str, new_table: &str) -> (r: String)
    ensures
        r@ == rewrite_col_ref_model(script@, old_table@, col@, new_table@),
{
    let s = chars_of(script);
    let o = chars_of(old_table);
    let c = chars_of(col);
    let n = chars_of(new_table);
    let v = rewrite_col_ref_chars(s.as_slice(), o.as_slice(), c.as_slice(), n.as_slice());
    string_of(v.as_slice())
}

pub(crate) fn replace_table_chars(s: &[char], old_table: &[char], new_table: &[char]) -> (r: Vec<char>)
    ensures
        r@ == replace_table_model(s@, old_table@, new_table@),
{
    let l = fold_lower_chars(s);
    let mut needle = fold_lower_chars(old_table);
    needle.push('.');
    let mut rep = crate::text::slice_range(new_table, 0, new_table.len());
    rep.push('.');
    proof {
        reveal_strlit(".");
        assert(needle@ =~= fold_lower(old_table@) + "."@);
        assert(rep@ =~= new_table@ + "."@);
    }
    rewrite_exec(s, l.as_slice(), needle.as_slice(), rep.as_slice())
}

/// Replaces every occurrence of `old_table.` (any case) by `new_table.`.
pub fn replace_table_in_script(script: &str, old_table: &str, new_table: &str) -> (r: String)
    ensures
        r@ == replace_table_model(script@, old_table@, new_table@),
{
    let s = chars_of(script);
    let o = chars_of(old_table);
    let n = chars_of(new_table);
    let v = replace_table_chars(s.as_slice(), o.as_slice(), n.as_slice());
    string_of(v.as_slice())
}

// ───────────────────────────── columns used with a table ─────────────────────────────

/// A character of an identifier: alphanumeric or `_`.
pub open spec fn ident_char(c: char) -> bool {
    is_alnum(c) || c == '_'
}

/// The number of identifier characters of `s` starting at `i`.
pub open spec fn ident_run(s: Seq<char>, i: int) -> nat
    decreases s.len() - i,
{
    if 0 <= i < s.len() && ident_char(s[i]) {
        1 + ident_run(s, i + 1)
    } else {
        0
    }
}

/// The characters of `s` whose UTF-8 encoding is exactly its first `n`
/// bytes (`&s[..n]`), if `n` falls on a character boundary.
pub open spec fn byte_prefix(s: Seq<char>, n: nat) -> Option<Seq<char>>
    decreases s.len(),
{
    if n == 0 {
        Some(Seq::empty())
    } else if s.len() == 0 || char_width(s[0]) > n {
        None
    } else {
        match byte_prefix(s.drop_first(), (n - char_width(s[0])) as nat) {
            Some(p) => Some(seq![s[0]] + p),
            None => None,
        }
    }
}

/// The columns written after `prefix` (found in `l`, the folded copy of
/// `s`) from position `pos` on: each is the identifier that follows, cut to
/// as many bytes as it has characters.
pub open spec fn scan_cols(s: Seq<char>, l: Seq<char>, prefix: Seq<char>, pos: int) -> Option<Seq<Seq<char>>>
    decreases s.len() - pos,
{
    if pos < 0 || pos >= s.len() || prefix.len() == 0 {
        Some(Seq::empty())
    } else {
        match find_from(l, prefix, pos) {
            None => Some(Seq::empty()),
            Some(k) => if pos <= k && k + prefix.len() <= s.len() {
                let cs = k + prefix.len();
                let n = ident_run(s, cs);
                let here: Option<Seq<Seq<char>>> = if n > 0 {
                    match byte_prefix(s.skip(cs), n) {
                        Some(c) => Some(seq![c]),
                        None => None,
                    }
                } else {
                    Some(Seq::empty())
                };
                match (here, scan_cols(s, l, prefix, cs)) {
                    (Some(h), Some(rest)) => Some(h + rest),
                    _ => None,
                }
            } else {
                Some(Seq::empty())
            },
        }
    }
}

/// The distinct column names used as `table.col` in the script (the table
/// matched without regard to case), sorted.
pub open spec fn cols_used_model(script: Seq<char>, table: Seq<char>) -> Option<Seq<Seq<char>>> {
    match scan_cols(script, fold_lower(script), fold_lower(table) + "."@, 0) {
        Some(c) => Some(crate::order::sort_dedup(c)),
        None => None,
    }
}

fn ident_run_exec(s: &[char], i: usize) -> (n: usize)
    requires
        i <= s.len(),
    ensures
        n == ident_run(s@, i as int),
        i + n <= s.len(),
{
    let mut j = i;
    while j < s.len() && (char_is_alphanumeric(s[j]) || s[j] == '_')
        invariant
            i <= j <= s.len(),
            ident_run(s@, i as int) == (j - i) + ident_run(s@, j as int),
        decreases s.len() - j,
    {
        j = j + 1;
    }
    j - i
}

fn byte_prefix_end(s: &[char], start: usize, n: usize) -> (r: Option<usize>)
    requires
        start <= s.len(),
    ensures
        r matches Some(e) ==> start <= e <= s.len() && byte_prefix(s@.skip(start as int), n as nat) == Some(s@.subrange(start as int, e as int)),
        r is None ==> byte_prefix(s@.skip(start as int), n as nat) is None,
{
    let mut j = start;
    let mut rem = n;
    assert(s@.subrange(start as int, start as int) =~= Seq::<char>::empty());
    while rem > 0
        invariant
            start <= j <= s.len(),
            byte_prefix(s@.skip(start as int), n as nat) == (match byte_prefix(s@.skip(j as int), rem as nat) {
                Some(p) => Some(s@.subrange(start as int, j as int) + p),
                None => None::<Seq<char>>,
            }),
        decreases rem,
    {
        if j >= s.len() {
            return None;
        }
        let w = width_of(s[j]);
        if w > rem {
            return None;
        }
        proof {
            let t = s@.skip(j as int);
            assert(t[0] == s@[j as int]);
            assert(t.drop_first() =~= s@.skip(j + 1));
            assert(s@.subrange(start as int, j + 1) =~= s@.subrange(start as int, j as int).push(s@[j as int]));
            match byte_prefix(s@.skip(j + 1), (rem - w) as nat) {
                Some(p) => {
                    assert(s@.subrange(start as int, j as int) + (seq![s@[j as int]] + p) =~= s@.subrange(start as int, j + 1) + p);
                },
                None => {},
            }
        }
        rem = rem - w;
        j = j + 1;
    }
    assert(s@.subrange(start as int, j as int) + Seq::<char>::empty() =~= s@.subrange(start as int, j as int));
    Some(j)
}

/// The distinct column names used as `table.col` in the script, sorted;
/// `None` where a column would be cut inside a character.
pub(crate) fn cols_used_chars(script: &[char], table: &[char]) -> (r: Option<Vec<Vec<char>>>)
    ensures
        r matches Some(v) ==> cols_used_model(script@, table@) == Some(seqs_of(v@)),
        r is None ==> cols_used_model(script@, table@) is None,
{
    let s = script;
    let l = fold_lower_chars(s);
    let mut prefix = fold_lower_chars(table);
    prefix.push('.');
    proof {
        reveal_strlit(".");
        assert(prefix@ =~= fold_lower(table@) + "."@);
    }
    let ghost lw = fold_lower(script@);
    let mut cols: Vec<Vec<char>> = Vec::new();
    let ghost mut acc: Seq<Seq<char>> = Seq::empty();
    let mut pos: usize = 0;
    assert(acc.to_set() =~= seqs_of(cols@).to_set());
    assert(scan_cols(s@, lw, prefix@, 0) == (match scan_cols(s@, lw, prefix@, 0) {
        Some(rest) => Some(acc + rest),
        None => None::<Seq<Seq<char>>>,
    })) by {
        match scan_cols(s@, lw, prefix@, 0) {
            Some(rest) => { assert(acc + rest =~= rest); },
            None => {},
        }
    }
    while pos < s.len()
        invariant
            l@ == lw,
            lw == fold_lower(script@),
            s@ == script@,
            lw.len() == s.len(),
            prefix.len() > 0,
            pos <= s.len(),
            crate::order::strictly_sorted(seqs_of(cols@)),
            prefix@ == fold_lower(table@) + "."@,
            seqs_of(cols@).to_set() == acc.to_set(),
            scan_cols(s@, lw, prefix@, 0) == (match scan_cols(s@, lw, prefix@, pos as int) {
                Some(rest) => Some(acc + rest),
                None => None::<Seq<Seq<char>>>,
            }),
        decreases s.len() - pos,
    {
        proof {
            lemma_find_from(lw, prefix@, pos as int);
        }
        match find_chars_from(l.as_slice(), prefix.as_slice(), pos) {
            None => {
                pos = s.len();
                assert(acc + Seq::<Seq<char>>::empty() =~= acc);
            },
            Some(k) => {
                let cs = k + prefix.len();
                let n = ident_run_exec(s, cs);
                if n > 0 {
                    match byte_prefix_end(s, cs, n) {
                        None => {
                            assert(scan_cols(s@, lw, prefix@, pos as int) is None);
                            assert(scan_cols(s@, lw, prefix@, 0) is None);
                            return None;
                        },
                        Some(e) => {
                            let c = slice_range(s, cs, e);
                            let ghost old_acc = acc;
                            insert_sorted_col(&mut cols, c);
                            proof {
                                acc = acc.push(c@);
                                crate::order::lemma_push_to_set(old_acc, c@);
                                match scan_cols(s@, lw, prefix@, cs as int) {
                                    Some(rest) => {
                                        assert(old_acc + (seq![c@] + rest) =~= acc + rest);
                                    },
                                    None => {},
                                }
                            }
                        },
                    }
                } else {
                    proof {
                        match scan_cols(s@, lw, prefix@, cs as int) {
                            Some(rest) => {
                                assert(Seq::<Seq<char>>::empty() + rest =~= rest);
                            },
                            None => {},
                        }
                    }
                }
                pos = cs;
            },
        }
    }
    proof {
        assert(acc + Seq::<Seq<char>>::empty() =~= acc);
        crate::order::lemma_sort_dedup_is(seqs_of(cols@), acc);
    }
    Some(cols)
}

fn insert_sorted_col(r: &mut Vec<Vec<char>>, x: Vec<char>)
    requires
        crate::order::strictly_sorted(seqs_of(old(r)@)),
    ensures
        crate::order::strictly_sorted(seqs_of(final(r)@)),
        seqs_of(final(r)@).to_set() == seqs_of(old(r)@).to_set().insert(x@),
{
    crate::order::insert_sorted(r, x);
}

/// The distinct column names used as `table.col` in the script (the table
/// matched without regard to case), sorted; `None` where a column would be
/// cut inside a character (the column is taken as many bytes long as it has
/// characters, so a column with a multi-byte character may end inside one).
pub fn cols_used_with(script: &str, table: &str) -> (r: Option<Vec<String>>)
    ensures
        r matches Some(v) ==> cols_used_model(script@, table@) == Some(crate::model::strs(v@)),
        r is None ==> cols_used_model(script@, table@) is None,
{
    let s = chars_of(script);
    let t = chars_of(table);
    let cols = match cols_used_chars(s.as_slice(), t.as_slice()) {
        Some(c) => c,
        None => return None,
    };
    Some(strings_of(&cols))
}

/// Each character vector as a `String`.
pub fn strings_of(v: &Vec<Vec<char>>) -> (r: Vec<String>)
    ensures
        crate::model::strs(r@) == seqs_of(v@),
{
    let mut r: Vec<String> = Vec::new();
    let mut i: usize = 0;
    while i < v.len()
        invariant
            i <= v.len(),
            crate::model::strs(r@) == seqs_of(v@).take(i as int),
        decreases v.len() - i,
    {
        let st = string_of(v[i].as_slice());
        let ghost prev = crate::model::strs(r@);
        r.push(st);
        assert(crate::model::strs(r@) =~= prev.push(st@));
        assert(seqs_of(v@).take(i + 1) =~= seqs_of(v@).take(i as int).push(v@[i as int]@));
        i = i + 1;
    }
    assert(seqs_of(v@).take(v.len() as int) =~= seqs_of(v@));
    r
}

} // verus!
