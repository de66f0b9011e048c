//! Fixing the syntax slips that generated DSL scripts commonly make, before
//! they reach the parser: bracket lists, `SIZE (n)`, `!=`, backticks,
//! `SAMPLE FULL_POPULATION`, `COUNT(*)` and cross-table `WHERE` filters.
//!
//! The fixes that cut a line find their keyword in the ASCII uppercase of
//! the line, which has the line's length, so the position found is a
//! position in the line itself. The checks for `COUNT(*)`, `ASSERT` and
//! `COUNT(`, and the comparison of table names, use the Unicode uppercase.
use vstd::prelude::*;
use crate::text::same_chars;
use crate::text::{
    char_width, chars_of, extend_chars, extend_str, find, find_chars, has_sub, join, join_str,
    lemma_find_from, lines, lines_chars, replace, replace_str, seqs_of, slice_range, split,
    split_chars, starts_with, starts_with_str, string_of, trim, trim_chars, trim_start,
    trim_start_index,
};
use crate::unicode::{ascii_upper_chars, ascii_uppercase, upper_chars, uppercase};

verus! {

/// The bracket pass: outside quoted strings, `[` and `{` become `(`, and `]`
/// and `}` become `)`. The result, whether a string is open, and its quote.
pub open spec fn bracket_scan(s: Seq<char>) -> (Seq<char>, bool, char)
    decreases s.len(),
{
    if s.len() == 0 {
        (Seq::empty(), false, ' ')
    } else {
        let (out, in_str, q) = bracket_scan(s.drop_last());
        let ch = s.last();
        if in_str {
            (out.push(ch), ch != q, q)
        } else if ch == '\'' || ch == '"' {
            (out.push(ch), true, ch)
        } else if ch == '[' || ch == '{' {
            (out.push('('), false, q)
        } else if ch == ']' || ch == '}' {
            (out.push(')'), false, q)
        } else {
            (out.push(ch), false, q)
        }
    }
}

fn bracket_exec(s: &[char]) -> (r: Vec<char>)
    ensures
        r@ == bracket_scan(s@).0,
{
    let mut out: Vec<char> = Vec::new();
    let mut in_str = false;
    let mut q = ' ';
    let mut i: usize = 0;
    assert(s@.take(0) =~= Seq::<char>::empty());
    while i < s.len()
        invariant
            i <= s.len(),
            bracket_scan(s@.take(i as int)) == (out@, in_str, q),
        decreases s.len() - i,
    {
        let ch = s[i];
        proof {
            assert(s@.take(i + 1).drop_last() =~= s@.take(i as int));
            assert(s@.take(i + 1).last() == ch);
        }
        if in_str {
            if ch == q {
                in_str = false;
            }
            out.push(ch);
        } else if ch == '\'' || ch == '"' {
            in_str = true;
            q = ch;
            out.push(ch);
        } else if ch == '[' || ch == '{' {
            out.push('(');
        } else if ch == ']' || ch == '}' {
            out.push(')');
        } else {
            out.push(ch);
        }
        i = i + 1;
    }
    assert(s@.take(s.len() as int) =~= s@);
    out
}

/// The number of leading characters from `i` on that are ASCII digits or `.`.
pub open spec fn number_run(s: Seq<char>, i: int) -> nat
    decreases s.len() - i,
{
    if 0 <= i < s.len() && (('0' <= s[i] && s[i] <= '9') || s[i] == '.') {
        1 + number_run(s, i + 1)
    } else {
        0
    }
}

/// `SIZE (n)` or `SIZE (n%)` (in any case) becomes `SIZE n` or `SIZE n%`, for
/// the first `SIZE (`.
pub open spec fn size_fix(s: Seq<char>) -> Seq<char> {
    match find(ascii_uppercase(s), "SIZE ("@) {
        None => s,
        Some(k) => {
            let after = s.skip(k + 6);
            let n = number_run(after, 0) as int;
            let pct = n < after.len() && after[n] == '%';
            let m = if pct { n + 1 } else { n };
            if n > 0 && m < after.len() && after[m] == ')' {
                s.take(k) + "SIZE "@ + after.take(n) + (if pct { "%"@ } else { ""@ }) + s.skip(k + 6 + m + 1)
            } else {
                s
            }
        },
    }
}

/// The first `SAMPLE FULL_POPULATION` (in any case) becomes `SAMPLE RANDOM`.
pub open spec fn full_population_fix(s: Seq<char>) -> Seq<char> {
    match find(ascii_uppercase(s), "SAMPLE FULL_POPULATION"@) {
        None => s,
        Some(k) => s.take(k) + "SAMPLE RANDOM"@ + s.skip(k + 22),
    }
}

/// The uppercase, trimmed text before the first `.`.
pub open spec fn table_word(s: Seq<char>) -> Seq<char> {
    uppercase(trim(split(s, "."@)[0]))
}

/// In an `ASSERT ... COUNT(t1.c) ... WHERE t2.c ...` line, everything from the
/// first ` WHERE ` on is dropped when the `WHERE` names another table than
/// the `COUNT`.
pub open spec fn where_fix(s: Seq<char>) -> Seq<char> {
    let up = uppercase(s);
    let au = ascii_uppercase(s);
    match find(au, " WHERE "@) {
        None => s,
        Some(w) => if has_sub(up, "ASSERT"@) && has_sub(up, "COUNT("@) {
            match find(au, "COUNT("@) {
                None => s,
                Some(c) => {
                    let ct = table_word(s.skip(c + 6));
                    let wt = table_word(s.skip(w + 7));
                    if ct.len() > 0 && wt.len() > 0 && ct != wt {
                        s.take(w)
                    } else {
                        s
                    }
                },
            }
        } else {
            s
        },
    }
}

/// One line normalised; comment lines stay as they are.
pub open spec fn normalize_line(line: Seq<char>) -> Seq<char> {
    if starts_with(trim_start(line), "--"@) {
        line
    } else {
        let s2 = size_fix(bracket_scan(line).0);
        let s3 = replace(replace(s2, "!="@, "<>"@), "`"@, ""@);
        let s4 = full_population_fix(s3);
        if has_sub(uppercase(s4), "COUNT(*)"@) {
            "-- (removed: COUNT(*) not supported) "@ + s4
        } else {
            where_fix(s4)
        }
    }
}

/// Each line normalised.
pub open spec fn normalized_lines(ls: Seq<Seq<char>>) -> Seq<Seq<char>> {
    ls.map_values(|l: Seq<char>| normalize_line(l))
}

/// The whole script normalised line by line and joined with newlines.
pub open spec fn normalized_script(script: Seq<char>) -> Seq<char> {
    join(normalized_lines(lines(script)), "\n"@)
}

fn number_run_exec(s: &[char], i: usize) -> (n: usize)
    requires
        i <= s.len(),
    ensures
        n == number_run(s@, i as int),
        i + n <= s.len(),
{
    let mut j = i;
    while j < s.len() && (('0' <= s[j] && s[j] <= '9') || s[j] == '.')
        invariant
            i <= j <= s.len(),
            number_run(s@, i as int) == (j - i) + number_run(s@, j as int),
        decreases s.len() - j,
    {
        j = j + 1;
    }
    j - i
}

fn size_fix_exec(s: &[char]) -> (r: Vec<char>)
    ensures
        r@ == size_fix(s@),
{
    let up = ascii_upper_chars(s);
    let pat = chars_of("SIZE (");
    proof {
        reveal_strlit("SIZE (");
        assert(s@.subrange(0, s.len() as int) =~= s@);
    }
    let k = match find_chars(up.as_slice(), pat.as_slice()) {
        None => return slice_range(s, 0, s.len()),
        Some(k) => k,
    };
    proof {
        lemma_find_from(up@, pat@, 0);
    }
    let after = slice_range(s, k + 6, s.len());
    assert(after@ =~= s@.skip(k + 6));
    let n = number_run_exec(after.as_slice(), 0);
    let pct = n < after.len() && after[n] == '%';
    let m = if pct { n + 1 } else { n };
    if n > 0 && m < after.len() && after[m] == ')' {
        let mut out = slice_range(s, 0, k);
        extend_str(&mut out, "SIZE ");
        let num = slice_range(after.as_slice(), 0, n);
        extend_chars(&mut out, num.as_slice());
        if pct {
            out.push('%');
        }
        let tail = slice_range(s, k + 6 + m + 1, s.len());
        extend_chars(&mut out, tail.as_slice());
        proof {
            reveal_strlit("%");
            reveal_strlit("");
            let expect = s@.take(k as int) + "SIZE "@ + after@.take(n as int) + (if pct {
                "%"@
            } else {
                ""@
            }) + s@.skip(k + 6 + m + 1);
            assert(out@ =~= expect);
        }
        out
    } else {
        slice_range(s, 0, s.len())
    }
}

fn full_population_exec(s: &[char]) -> (r: Vec<char>)
    ensures
        r@ == full_population_fix(s@),
{
    let up = ascii_upper_chars(s);
    let pat = chars_of("SAMPLE FULL_POPULATION");
    proof {
        reveal_strlit("SAMPLE FULL_POPULATION");
        assert(s@.subrange(0, s.len() as int) =~= s@);
    }
    match find_chars(up.as_slice(), pat.as_slice()) {
        None => slice_range(s, 0, s.len()),
        Some(k) => {
            proof {
                lemma_find_from(up@, pat@, 0);
            }
            let mut out = slice_range(s, 0, k);
            extend_str(&mut out, "SAMPLE RANDOM");
            let tail = slice_range(s, k + 22, s.len());
            extend_chars(&mut out, tail.as_slice());
            out
        },
    }
}

fn table_word_exec(s: &[char]) -> (r: Vec<char>)
    ensures
        r@ == table_word(s@),
{
    proof {
        reveal_strlit(".");
    }
    let dot = chars_of(".");
    let pieces = split_chars(s, dot.as_slice());
    proof {
        crate::text::lemma_split_nonempty(s@, dot@);
        assert(seqs_of(pieces@)[0] == pieces@[0]@);
    }
    let t = trim_chars(pieces[0].as_slice());
    upper_chars(t.as_slice())
}

fn where_fix_exec(s: &[char]) -> (r: Vec<char>)
    ensures
        r@ == where_fix(s@),
{
    let up = upper_chars(s);
    let au = ascii_upper_chars(s);
    let wpat = chars_of(" WHERE ");
    let apat = chars_of("ASSERT");
    let cpat = chars_of("COUNT(");
    proof {
        reveal_strlit(" WHERE ");
        reveal_strlit("COUNT(");
        assert(s@.subrange(0, s.len() as int) =~= s@);
    }
    let w = match find_chars(au.as_slice(), wpat.as_slice()) {
        None => return slice_range(s, 0, s.len()),
        Some(w) => w,
    };
    if !(crate::text::contains_chars(up.as_slice(), apat.as_slice()) && crate::text::contains_chars(
        up.as_slice(),
        cpat.as_slice(),
    )) {
        return slice_range(s, 0, s.len());
    }
    let c = match find_chars(au.as_slice(), cpat.as_slice()) {
        None => return slice_range(s, 0, s.len()),
        Some(c) => c,
    };
    proof {
        lemma_find_from(au@, wpat@, 0);
        lemma_find_from(au@, cpat@, 0);
    }
    let after = slice_range(s, c + 6, s.len());
    let wpart = slice_range(s, w + 7, s.len());
    assert(after@ =~= s@.skip(c + 6));
    assert(wpart@ =~= s@.skip(w + 7));
    let ct = table_word_exec(after.as_slice());
    let wt = table_word_exec(wpart.as_slice());
    if ct.len() > 0 && wt.len() > 0 && !same_chars(ct.as_slice(), wt.as_slice()) {
        slice_range(s, 0, w)
    } else {
        slice_range(s, 0, s.len())
    }
}

fn normalize_line_exec(line: &[char]) -> (r: Vec<char>)
    ensures
        r@ == normalize_line(line@),
{
    let k = trim_start_index(line);
    let tr = slice_range(line, k, line.len());
    assert(tr@ =~= trim_start(line@));
    if crate::text::starts_with_str(tr.as_slice(), "--") {
        assert(line@.subrange(0, line.len() as int) =~= line@);
        return slice_range(line, 0, line.len());
    }
    let s1 = bracket_exec(line);
    let s2 = size_fix_exec(s1.as_slice());
    proof {
        reveal_strlit("!=");
        reveal_strlit("`");
    }
    let a = replace_str(s2.as_slice(), "!=", "<>");
    let s3 = replace_str(a.as_slice(), "`", "");
    let s4 = full_population_exec(s3.as_slice());
    let u4 = upper_chars(s4.as_slice());
    if crate::text::contains_str(u4.as_slice(), "COUNT(*)") {
        let mut out = chars_of("-- (removed: COUNT(*) not supported) ");
        extend_chars(&mut out, s4.as_slice());
        return out;
    }
    where_fix_exec(s4.as_slice())
}

/// Normalises a generated script line by line (comment lines are kept):
/// outside quoted strings `[ ]` and `{ }` become `( )`; the first
/// `SIZE (n)` / `SIZE (n%)` becomes `SIZE n` / `SIZE n%`; `!=` becomes `<>`;
/// backticks are removed; the first `SAMPLE FULL_POPULATION` becomes
/// `SAMPLE RANDOM`; a line using `COUNT(*)` is commented out; an `ASSERT`
/// with `COUNT(t1...)` loses its ` WHERE ...` part when that names another
/// table. Keywords are matched in any case.
pub fn normalize_dsl_syntax(script: &str) -> (r: String)
    ensures
        r@ == normalized_script(script@),
{
    let sc = chars_of(script);
    let ls = lines_chars(sc.as_slice());
    let ghost lsv = seqs_of(ls@);
    let mut out: Vec<Vec<char>> = Vec::new();
    let mut i: usize = 0;
    while i < ls.len()
        invariant
            i <= ls.len(),
            lsv == seqs_of(ls@),
            lsv == lines(script@),
            seqs_of(out@) =~= normalized_lines(lsv.take(i as int)),
        decreases ls.len() - i,
    {
        assert(lsv[i as int] == ls@[i as int]@);
        let l = normalize_line_exec(ls[i].as_slice());
        let ghost prev = seqs_of(out@);
        out.push(l);
        assert(seqs_of(out@) =~= prev.push(l@));
        assert(normalized_lines(lsv.take(i + 1)) =~= normalized_lines(lsv.take(i as int)).push(normalize_line(lsv[i as int])));
        i = i + 1;
    }
    assert(lsv.take(ls.len() as int) =~= lsv);
    let j = join_str(out.as_slice(), "\n");
    string_of(j.as_slice())
}

/// Normalisation works line by line: it gives one line per line of the
/// script, and comment lines come out exactly as they went in.
pub proof fn law_comment_lines_kept(script: Seq<char>)
    ensures
        normalized_lines(lines(script)).len() == lines(script).len(),
        forall|i: int|
            0 <= i < lines(script).len() && starts_with(trim_start(#[trigger] lines(script)[i]), "--"@)
                ==> normalized_lines(lines(script))[i] == lines(script)[i],
{
}

} // verus!
