//! Reading the assistant's replies in the script editor: the DSL code a
//! reply carries, and the kinds of operation a script performs.
use vstd::prelude::*;
use crate::text::{
    chars_of, contains_chars, find, find_chars, has_sub, join, join_str, lines, lines_chars,
    seqs_of, slice_range, starts_with, starts_with_chars, string_of, trim, trim_chars, trim_start,
    trim_start_index,
};

verus! {

/// One message of the script chat; `code` is the DSL block taken from an
/// assistant reply.
pub struct ChatMsg {
    pub is_user: bool,
    pub text: String,
    pub code: Option<String>,
}

/// The statement keywords of the DSL.
pub open spec fn dsl_keywords() -> Seq<Seq<char>> {
    seq![
        "EXCEPTIONS"@,
        "RECONCILE"@,
        "SAMPLE"@,
        "TOTAL"@,
        "COUNT"@,
        "AVERAGE"@,
        "FLAG"@,
        "ASSERT"@,
        "MATH"@,
    ]
}

fn dsl_keyword(i: usize) -> (k: &'static str)
    requires
        i < 9,
    ensures
        k@ == dsl_keywords()[i as int],
{
    if i == 0 {
        "EXCEPTIONS"
    } else if i == 1 {
        "RECONCILE"
    } else if i == 2 {
        "SAMPLE"
    } else if i == 3 {
        "TOTAL"
    } else if i == 4 {
        "COUNT"
    } else if i == 5 {
        "AVERAGE"
    } else if i == 6 {
        "FLAG"
    } else if i == 7 {
        "ASSERT"
    } else {
        "MATH"
    }
}

/// `s` contains some DSL keyword.
pub open spec fn mentions_keyword(s: Seq<char>) -> bool {
    exists|i: int| 0 <= i < dsl_keywords().len() && has_sub(s, #[trigger] dsl_keywords()[i])
}

/// `s` starts with some DSL keyword.
pub open spec fn opens_with_keyword(s: Seq<char>) -> bool {
    exists|i: int| 0 <= i < dsl_keywords().len() && starts_with(s, #[trigger] dsl_keywords()[i])
}

fn mentions_keyword_exec(s: &[char]) -> (b: bool)
    ensures
        b == mentions_keyword(s@),
{
    let mut i: usize = 0;
    while i < 9
        invariant
            i <= 9,
            dsl_keywords().len() == 9,
            forall|j: int| 0 <= j < i ==> !has_sub(s@, #[trigger] dsl_keywords()[j]),
        decreases 9 - i,
    {
        let k = chars_of(dsl_keyword(i));
        if contains_chars(s, k.as_slice()) {
            return true;
        }
        i = i + 1;
    }
    false
}

fn opens_with_keyword_exec(s: &[char]) -> (b: bool)
    ensures
        b == opens_with_keyword(s@),
{
    let mut i: usize = 0;
    while i < 9
        invariant
            i <= 9,
            dsl_keywords().len() == 9,
            forall|j: int| 0 <= j < i ==> !starts_with(s@, #[trigger] dsl_keywords()[j]),
        decreases 9 - i,
    {
        let k = chars_of(dsl_keyword(i));
        if starts_with_chars(s, k.as_slice()) {
            return true;
        }
        i = i + 1;
    }
    false
}

/// The code of the first ``` fence (without its opening line), trimmed, if
/// the fence is closed and the code is non-empty and mentions a keyword.
pub open spec fn fenced_code(text: Seq<char>) -> Option<Seq<char>> {
    match find(text, "```"@) {
        None => None,
        Some(st) => {
            let rest = text.skip(st + 3);
            let body = match find(rest, "\n"@) {
                Some(n) => rest.skip(n + 1),
                None => rest,
            };
            match find(body, "```"@) {
                None => None,
                Some(e) => {
                    let code = trim(body.take(e));
                    if code.len() > 0 && mentions_keyword(code) {
                        Some(code)
                    } else {
                        None
                    }
                },
            }
        },
    }
}

/// The first line at or after `i` that is blank once leading whitespace is
/// removed, or `ls.len()`.
pub open spec fn blank_line_from(ls: Seq<Seq<char>>, i: int) -> int
    decreases ls.len() - i,
{
    if i < 0 || i >= ls.len() {
        ls.len() as int
    } else if trim_start(ls[i]).len() == 0 {
        i
    } else {
        blank_line_from(ls, i + 1)
    }
}

/// The first line that opens with a keyword (after leading whitespace).
pub open spec fn first_keyword_line_from(ls: Seq<Seq<char>>, i: int) -> Option<int>
    decreases ls.len() - i,
{
    if i < 0 || i >= ls.len() {
        None
    } else if opens_with_keyword(trim_start(ls[i])) {
        Some(i)
    } else {
        first_keyword_line_from(ls, i + 1)
    }
}

/// The block of lines from the first keyword line up to the next blank
/// line, joined and trimmed.
pub open spec fn line_block_code(text: Seq<char>) -> Option<Seq<char>> {
    let ls = lines(text);
    match first_keyword_line_from(ls, 0) {
        None => None,
        Some(f) => Some(trim(join(ls.subrange(f, blank_line_from(ls, f + 1)), "\n"@))),
    }
}

/// The DSL code carried by a reply: a fenced block if there is a usable
/// one, otherwise the lines from the first keyword line to the next blank
/// line.
pub open spec fn dsl_code_of(text: Seq<char>) -> Option<Seq<char>> {
    match fenced_code(text) {
        Some(c) => Some(c),
        None => line_block_code(text),
    }
}

fn fenced_code_exec(t: &[char]) -> (r: Option<Vec<char>>)
    ensures
        r matches Some(c) ==> fenced_code(t@) == Some(c@),
        r is None ==> fenced_code(t@) is None,
{
    let fence = chars_of("```");
    let nl = chars_of("\n");
    proof {
        reveal_strlit("```");
        reveal_strlit("\n");
    }
    let st = match find_chars(t, fence.as_slice()) {
        None => return None,
        Some(st) => st,
    };
    proof {
        crate::text::lemma_find_from(t@, "```"@, 0);
    }
    assert(st + 3 <= t.len());
    let rest = slice_range(t, st + 3, t.len());
    assert(rest@ =~= t@.skip(st + 3));
    let body = match find_chars(rest.as_slice(), nl.as_slice()) {
        Some(n) => {
            proof {
                crate::text::lemma_find_from(rest@, "\n"@, 0);
            }
            assert(n + 1 <= rest.len());
            let b = slice_range(rest.as_slice(), n + 1, rest.len());
            assert(b@ =~= rest@.skip(n + 1));
            b
        },
        None => rest,
    };
    let e = match find_chars(body.as_slice(), fence.as_slice()) {
        None => return None,
        Some(e) => e,
    };
    proof {
        crate::text::lemma_find_from(body@, "```"@, 0);
    }
    let head = slice_range(body.as_slice(), 0, e);
    assert(head@ =~= body@.take(e as int));
    let code = trim_chars(head.as_slice());
    if code.len() > 0 && mentions_keyword_exec(code.as_slice()) {
        Some(code)
    } else {
        None
    }
}

fn first_keyword_line(ls: &Vec<Vec<char>>) -> (r: Option<usize>)
    ensures
        r matches Some(f) ==> f < ls.len() && first_keyword_line_from(seqs_of(ls@), 0) == Some(f as int),
        r is None ==> first_keyword_line_from(seqs_of(ls@), 0) is None,
{
    let ghost lsv = seqs_of(ls@);
    let mut i: usize = 0;
    while i < ls.len()
        invariant
            i <= ls.len(),
            lsv == seqs_of(ls@),
            first_keyword_line_from(lsv, 0) == first_keyword_line_from(lsv, i as int),
        decreases ls.len() - i,
    {
        let k = trim_start_index(ls[i].as_slice());
        let tr = slice_range(ls[i].as_slice(), k, ls[i].len());
        assert(lsv[i as int] == ls@[i as int]@);
        assert(tr@ =~= trim_start(lsv[i as int]));
        if opens_with_keyword_exec(tr.as_slice()) {
            return Some(i);
        }
        i = i + 1;
    }
    None
}

fn blank_line(ls: &Vec<Vec<char>>, start: usize) -> (r: usize)
    requires
        start <= ls.len(),
    ensures
        r as int == blank_line_from(seqs_of(ls@), start as int),
        start <= r <= ls.len(),
{
    let ghost lsv = seqs_of(ls@);
    let mut j: usize = start;
    while j < ls.len()
        invariant
            start <= j <= ls.len(),
            lsv == seqs_of(ls@),
            blank_line_from(lsv, start as int) == blank_line_from(lsv, j as int),
        decreases ls.len() - j,
    {
        let k = trim_start_index(ls[j].as_slice());
        assert(lsv[j as int] == ls@[j as int]@);
        if k == ls[j].len() {
            assert(trim_start(lsv[j as int]).len() == 0);
            return j;
        }
        j = j + 1;
    }
    j
}

fn line_block_exec(t: &[char]) -> (r: Option<Vec<char>>)
    ensures
        r matches Some(c) ==> line_block_code(t@) == Some(c@),
        r is None ==> line_block_code(t@) is None,
{
    let ls = lines_chars(t);
    let ghost lsv = lines(t@);
    let f = match first_keyword_line(&ls) {
        None => return None,
        Some(f) => f,
    };
    let j = blank_line(&ls, f + 1);
    let mut block: Vec<Vec<char>> = Vec::new();
    let mut m: usize = f;
    assert(lsv.subrange(f as int, f as int) =~= Seq::<Seq<char>>::empty());
    while m < j
        invariant
            f <= m <= j <= ls.len(),
            seqs_of(ls@) == lsv,
            seqs_of(block@) == lsv.subrange(f as int, m as int),
        decreases j - m,
    {
        let line = slice_range(ls[m].as_slice(), 0, ls[m].len());
        let ghost prev = seqs_of(block@);
        block.push(line);
        assert(line@ =~= lsv[m as int]);
        assert(seqs_of(block@) =~= prev.push(line@));
        assert(lsv.subrange(f as int, m + 1) =~= lsv.subrange(f as int, m as int).push(lsv[m as int]));
        m = m + 1;
    }
    let joined = join_str(block.as_slice(), "\n");
    Some(trim_chars(joined.as_slice()))
}

/// The DSL code in an assistant reply: the trimmed contents of the first
/// closed ``` fence (its opening line dropped) when they are non-empty and
/// mention a DSL keyword; otherwise the lines from the first line that opens
/// with a keyword up to the next blank line, joined and trimmed; `None` when
/// there is neither.
pub fn extract_dsl_code(text: &str) -> (r: Option<String>)
    ensures
        r matches Some(c) ==> dsl_code_of(text@) == Some(c@),
        r is None ==> dsl_code_of(text@) is None,
{
    let t = chars_of(text);
    match fenced_code_exec(t.as_slice()) {
        Some(c) => Some(string_of(c.as_slice())),
        None => match line_block_exec(t.as_slice()) {
            Some(c) => Some(string_of(c.as_slice())),
            None => None,
        },
    }
}

// ───────────────────────────── operation badges ─────────────────────────────

/// The operation keywords looked for in a script, each with the badge class
/// it is shown with.
pub open spec fn op_table() -> Seq<(Seq<char>, Seq<char>)> {
    seq![
        ("TOTAL"@, "total"@),
        ("SUM"@, "total"@),
        ("COUNT"@, "count"@),
        ("AVERAGE"@, "avg"@),
        ("AVG"@, "avg"@),
        ("PERCENT"@, "pct"@),
        ("EXPECT"@, "expect"@),
        ("ASSERT"@, "expect"@),
        ("FLAG"@, "flag"@),
        ("MATCH"@, "match"@),
        ("SAMPLE"@, "match"@),
    ]
}

fn op_entry(i: usize) -> (r: (&'static str, &'static str))
    requires
        i < 11,
    ensures
        (r.0@, r.1@) == op_table()[i as int],
{
    if i == 0 {
        ("TOTAL", "total")
    } else if i == 1 {
        ("SUM", "total")
    } else if i == 2 {
        ("COUNT", "count")
    } else if i == 3 {
        ("AVERAGE", "avg")
    } else if i == 4 {
        ("AVG", "avg")
    } else if i == 5 {
        ("PERCENT", "pct")
    } else if i == 6 {
        ("EXPECT", "expect")
    } else if i == 7 {
        ("ASSERT", "expect")
    } else if i == 8 {
        ("FLAG", "flag")
    } else if i == 9 {
        ("MATCH", "match")
    } else {
        ("SAMPLE", "match")
    }
}

/// Keyword and class of each pair, as character sequences.
pub open spec fn op_views(v: Seq<(&str, &str)>) -> Seq<(Seq<char>, Seq<char>)> {
    Seq::new(v.len(), |i: int| (v[i].0@, v[i].1@))
}

/// Some pair of `ops` has class `cls`.
pub open spec fn has_class(ops: Seq<(Seq<char>, Seq<char>)>, cls: Seq<char>) -> bool {
    exists|j: int| 0 <= j < ops.len() && #[trigger] ops[j].1 == cls
}

/// The badges for the first `n` entries of the table: each keyword that
/// occurs in the text, unless an earlier one already gave its class.
pub open spec fn ops_upto(text: Seq<char>, n: nat) -> Seq<(Seq<char>, Seq<char>)>
    decreases n,
{
    if n == 0 {
        Seq::empty()
    } else {
        let p = ops_upto(text, (n - 1) as nat);
        let e = op_table()[n - 1];
        if has_sub(text, e.0) && !has_class(p, e.1) {
            p.push(e)
        } else {
            p
        }
    }
}

/// The operations a script performs, as (keyword, badge class) pairs in
/// table order: a keyword is listed when the script contains it and no
/// earlier keyword gave the same class.
pub fn parse_ops(text: &str) -> (ops: Vec<(&'static str, &'static str)>)
    ensures
        op_views(ops@) == ops_upto(text@, 11),
{
    let t = chars_of(text);
    let mut ops: Vec<(&'static str, &'static str)> = Vec::new();
    let mut i: usize = 0;
    assert(op_views(ops@) =~= ops_upto(text@, 0));
    while i < 11
        invariant
            i <= 11,
            t@ == text@,
            op_views(ops@) == ops_upto(text@, i as nat),
        decreases 11 - i,
    {
        let e = op_entry(i);
        let kw = chars_of(e.0);
        let mut seen = false;
        let mut j: usize = 0;
        while j < ops.len()
            invariant
                j <= ops.len(),
                seen == exists|m: int| 0 <= m < j && #[trigger] op_views(ops@)[m].1 == e.1@,
            decreases ops.len() - j,
        {
            let a = chars_of(ops[j].1);
            let b = chars_of(e.1);
            if crate::text::starts_with_chars(a.as_slice(), b.as_slice()) && a.len() == b.len() {
                proof {
                    assert(a@ =~= b@);
                    assert(op_views(ops@)[j as int].1 == e.1@);
                }
                seen = true;
            } else {
                proof {
                    if op_views(ops@)[j as int].1 == e.1@ {
                        assert(a@.take(b@.len() as int) =~= a@);
                    }
                }
            }
            j = j + 1;
        }
        assert(seen == has_class(op_views(ops@), e.1@));
        if contains_chars(t.as_slice(), kw.as_slice()) && !seen {
            let ghost prev = op_views(ops@);
            ops.push(e);
            assert(op_views(ops@) =~= prev.push((e.0@, e.1@)));
        }
        i = i + 1;
    }
    ops
}

} // verus!
